//! The HTTP/1.1 request head a CONNECT proxy reads.
use vstd::prelude::*;
use vstd::utf8::{decode_utf8, encode_utf8, valid_utf8};

use super::protocol::{hostport, hostport_chars, hostport_chars_view};
use crate::text::{
    copy_range, eq_ignore_case, eq_nocase, find, find_class, has_prefix, in_class, split,
    split_whitespace, split_ws, starts_with, string_of, trim, trim_class, CharClass,
};

verus! {

/// Largest request head the proxy reads before giving up.
pub const MAX_HEAD: usize = 16384;

/// A proxy request, read from its head.
#[derive(Debug, Clone)]
pub struct ProxyRequest {
    pub method: String,
    pub host: String,
    pub port: u16,
    /// CONNECT, as opposed to origin- or absolute-form HTTP.
    pub connect: bool,
    /// Bytes to send into the tunnel once the remote TCP is up. CONNECT: what
    /// followed the head. HTTP: the rewritten head plus what followed it.
    pub initial: Vec<u8>,
}

/// [`ProxyRequest`] as the contracts see it.
pub struct ProxySpec {
    pub method: Seq<char>,
    pub host: Seq<char>,
    pub port: u16,
    pub connect: bool,
    pub initial: Seq<u8>,
}

impl ProxyRequest {
    pub open spec fn model(&self) -> ProxySpec {
        ProxySpec {
            method: self.method@,
            host: self.host@,
            port: self.port,
            connect: self.connect,
            initial: self.initial@,
        }
    }
}

pub open spec fn end_of_head_at(b: Seq<u8>, i: int) -> bool {
    0 <= i && i + 4 <= b.len() && b[i] == 13 && b[i + 1] == 10 && b[i + 2] == 13 && b[i + 3]
        == 10
}

/// Where the blank line that ends a head starts, or `-1`.
pub open spec fn head_end(b: Seq<u8>) -> int {
    if exists|i: int| end_of_head_at(b, i) {
        choose|i: int|
            end_of_head_at(b, i) && forall|j: int| 0 <= j < i ==> !end_of_head_at(b, j)
    } else {
        -1
    }
}

/// Split a buffer after the first `\r\n\r\n`: the head, then the rest.
pub fn split_head(buf: &[u8]) -> (r: Option<(&[u8], &[u8])>)
    ensures
        match r {
            Some((head, rest)) => {
                let p = head_end(buf@);
                &&& 0 <= p
                &&& head@ == buf@.take(p + 4)
                &&& rest@ == buf@.skip(p + 4)
            },
            None => head_end(buf@) == -1,
        },
{
    let mut i: usize = 0;
    while i < buf.len() && buf.len() - i >= 4
        invariant
            i <= buf@.len(),
            forall|j: int| 0 <= j < i ==> !end_of_head_at(buf@, j),
        decreases buf@.len() - i,
    {
        if buf[i] == 13 && buf[i + 1] == 10 && buf[i + 2] == 13 && buf[i + 3] == 10 {
            proof {
                assert(end_of_head_at(buf@, i as int));
                let p = head_end(buf@);
                assert(end_of_head_at(buf@, p) && forall|j: int|
                    0 <= j < p ==> !end_of_head_at(buf@, j));
                if p < i {
                } else if p > i {
                    assert(!end_of_head_at(buf@, i as int));
                }
            }
            let head = &buf[0..i + 4];
            let rest = &buf[i + 4..buf.len()];
            assert(head@ =~= buf@.take(i + 4));
            assert(rest@ =~= buf@.skip(i + 4));
            return Some((head, rest));
        }
        i = i + 1;
    }
    assert forall|j: int| !end_of_head_at(buf@, j) by {
        if 0 <= j < i {
        }
    }
    None
}

/// `str::from_utf8`, as characters.
#[verifier::external_body]
fn utf8_chars(b: &[u8]) -> (r: Option<Vec<char>>)
    ensures
        r is Some <==> valid_utf8(b@),
        r matches Some(v) ==> v@ == decode_utf8(b@),
{
    match std::str::from_utf8(b) {
        Ok(s) => Some(s.chars().collect()),
        Err(_) => None,
    }
}

/// The UTF-8 bytes of a run of characters.
fn utf8_bytes(v: &[char]) -> (r: Vec<u8>)
    ensures
        r@ == encode_utf8(v@),
{
    let s = string_of(v);
    let b = s.as_str().as_bytes();
    let mut out: Vec<u8> = Vec::new();
    let mut i: usize = 0;
    while i < b.len()
        invariant
            i <= b@.len(),
            out@ == b@.take(i as int),
        decreases b@.len() - i,
    {
        out.push(b[i]);
        i = i + 1;
        assert(out@ =~= b@.take(i as int));
    }
    assert(b@.take(b@.len() as int) =~= b@);
    out
}

pub open spec fn crlf_at(s: Seq<char>, i: int) -> bool {
    0 <= i && i + 1 < s.len() && s[i] == '\r' && s[i + 1] == '\n'
}

/// Index of the first `\r\n`, or `-1`.
pub open spec fn find_crlf(s: Seq<char>) -> int
    decreases s.len(),
{
    if s.len() < 2 {
        -1
    } else if s[0] == '\r' && s[1] == '\n' {
        0
    } else {
        let r = find_crlf(s.drop_first());
        if r < 0 {
            -1
        } else {
            r + 1
        }
    }
}

/// `str::split("\r\n")`.
pub open spec fn lines(s: Seq<char>) -> Seq<Seq<char>>
    decreases s.len(),
{
    let i = find_crlf(s);
    if i < 0 || i + 2 > s.len() {
        seq![s]
    } else {
        seq![s.take(i)] + lines(s.skip(i + 2))
    }
}

proof fn lemma_find_crlf_at(s: Seq<char>, n: int)
    requires
        0 <= n <= s.len(),
        forall|j: int| 0 <= j < n ==> !crlf_at(s, j),
    ensures
        crlf_at(s, n) ==> find_crlf(s) == n,
        n + 1 >= s.len() ==> find_crlf(s) == -1,
    decreases n,
{
    if n > 0 && s.len() >= 2 {
        let t = s.drop_first();
        assert forall|j: int| 0 <= j < n - 1 implies !crlf_at(t, j) by {
            assert(!crlf_at(s, j + 1));
        }
        assert(!crlf_at(s, 0));
        lemma_find_crlf_at(t, n - 1);
        if crlf_at(s, n) {
            assert(crlf_at(t, n - 1));
        }
    }
}

/// Split on `\r\n`.
fn split_lines(s: &[char]) -> (r: Vec<Vec<char>>)
    ensures
        r.deep_view() == lines(s@),
        r@.len() >= 1,
{
    let mut out: Vec<Vec<char>> = Vec::new();
    let mut st: usize = 0;
    let mut j: usize = 0;
    assert(s@.skip(0) =~= s@);
    assert(out.deep_view() + lines(s@) =~= lines(s@));
    while j < s.len() && s.len() - j >= 2
        invariant
            st <= j <= s@.len(),
            out.deep_view() + lines(s@.skip(st as int)) == lines(s@),
            forall|m: int| st <= m < j ==> !crlf_at(s@, m),
        decreases s@.len() - j,
    {
        assert(j + 1 < s@.len());
        if s[j] == '\r' && s[j + 1] == '\n' {
            let piece = copy_range(s, st, j);
            proof {
                let t = s@.skip(st as int);
                assert forall|m: int| 0 <= m < j - st implies !crlf_at(t, m) by {
                    assert(!crlf_at(s@, st + m));
                }
                assert(crlf_at(t, j - st));
                lemma_find_crlf_at(t, j - st);
                assert(t.take(j - st) =~= piece@);
                assert(t.skip(j - st + 2) =~= s@.skip(j + 2));
                crate::text::lemma_deep_chars(piece);
            }
            let ghost old_out = out.deep_view();
            out.push(piece);
            proof {
                assert(out.deep_view() =~= old_out.push(piece@));
                assert(old_out + (seq![piece@] + lines(s@.skip(j + 2))) =~= old_out.push(piece@)
                    + lines(s@.skip(j + 2)));
            }
            st = j + 2;
            j = j + 2;
        } else {
            j = j + 1;
        }
    }
    let last = copy_range(s, st, s.len());
    proof {
        let t = s@.skip(st as int);
        assert forall|m: int| 0 <= m < t.len() - 1 implies !crlf_at(t, m) by {
            assert(!crlf_at(s@, st + m));
        }
        if t.len() >= 1 {
            lemma_find_crlf_at(t, t.len() - 1);
        } else {
            lemma_find_crlf_at(t, 0);
        }
        assert(t =~= last@);
        crate::text::lemma_deep_chars(last);
    }
    let ghost old_out = out.deep_view();
    out.push(last);
    proof {
        assert(out.deep_view() =~= old_out.push(last@));
        assert(old_out + seq![last@] =~= old_out.push(last@));
    }
    out
}

/// `str::split_once(':')`.
pub open spec fn split_colon(line: Seq<char>) -> Option<(Seq<char>, Seq<char>)> {
    let i = find(line, CharClass::Is(':'));
    if i < 0 {
        None
    } else {
        Some((line.take(i), line.skip(i + 1)))
    }
}

/// The first header named `name` among the lines after the request line;
/// `None` when a non-empty line before it has no `:`.
pub open spec fn header_in(ls: Seq<Seq<char>>, name: Seq<char>) -> Option<Seq<char>>
    decreases ls.len(),
{
    if ls.len() == 0 {
        None
    } else if ls[0].len() == 0 {
        header_in(ls.drop_first(), name)
    } else {
        match split_colon(ls[0]) {
            None => None,
            Some((k, v)) => if eq_nocase(trim(k, CharClass::Whitespace), name) {
                Some(trim(v, CharClass::Whitespace))
            } else {
                header_in(ls.drop_first(), name)
            },
        }
    }
}

pub open spec fn host_name() -> Seq<char> {
    seq!['h', 'o', 's', 't']
}

pub open spec fn proxy_connection() -> Seq<char> {
    seq![
        'p', 'r', 'o', 'x', 'y', '-', 'c', 'o', 'n', 'n', 'e', 'c', 't', 'i', 'o', 'n',
    ]
}

pub open spec fn http_scheme() -> Seq<char> {
    seq!['h', 't', 't', 'p', ':', '/', '/']
}

pub open spec fn https_scheme() -> Seq<char> {
    seq!['h', 't', 't', 'p', 's', ':', '/', '/']
}

pub open spec fn connect_word() -> Seq<char> {
    seq!['C', 'O', 'N', 'N', 'E', 'C', 'T']
}

pub open spec fn crlf() -> Seq<char> {
    seq!['\r', '\n']
}

/// Host, port and origin-form path of an absolute `http://` or `https://`
/// target.
pub open spec fn absolute_target(target: Seq<char>) -> Option<(Seq<char>, u16, Seq<char>)> {
    let scheme = if has_prefix(target, http_scheme()) {
        Some((target.skip(7), 80u16))
    } else if has_prefix(target, https_scheme()) {
        Some((target.skip(8), 443u16))
    } else {
        None
    };
    match scheme {
        None => None,
        Some((rest, dp)) => {
            let i = find(rest, CharClass::Is('/'));
            let authority = if i < 0 {
                rest
            } else {
                rest.take(i)
            };
            let path = if i < 0 {
                seq!['/']
            } else {
                rest.skip(i)
            };
            match hostport(authority, dp) {
                Some((h, p)) => Some((h, p, path)),
                None => None,
            }
        },
    }
}

/// The header lines an origin-form rewrite keeps, each with its `\r\n`.
pub open spec fn kept_lines(ls: Seq<Seq<char>>) -> Seq<char>
    decreases ls.len(),
{
    if ls.len() == 0 {
        seq![]
    } else {
        let l = ls[0];
        let drop = l.len() == 0 || match split_colon(l) {
            Some((k, _)) => eq_nocase(trim(k, CharClass::Whitespace), proxy_connection()),
            None => false,
        };
        (if drop {
            seq![]
        } else {
            l + crlf()
        }) + kept_lines(ls.drop_first())
    }
}

/// The head rewritten to origin form, `Proxy-Connection` dropped.
pub open spec fn rewrite(text: Seq<char>, method: Seq<char>, target: Seq<char>) -> Option<
    Seq<char>,
> {
    rewrite_lines(lines(text), method, target)
}

/// What `parse_proxy_request` reads from a head and the bytes after it.
pub open spec fn proxy_request(head: Seq<u8>, rest: Seq<u8>) -> Option<ProxySpec> {
    if !valid_utf8(head) {
        None
    } else {
        let text = decode_utf8(head);
        let ls = lines(text);
        let words = split_ws(ls[0]);
        if words.len() < 3 {
            None
        } else {
            let method = words[0];
            let target = words[1];
            if eq_nocase(method, connect_word()) {
                match hostport(target, 0) {
                    Some((h, p)) => Some(
                        ProxySpec { method, host: h, port: p, connect: true, initial: rest },
                    ),
                    None => None,
                }
            } else {
                let found = match absolute_target(target) {
                    Some(x) => Some(x),
                    None => match header_in(ls.drop_first(), host_name()) {
                        None => None,
                        Some(v) => match hostport(v, 80) {
                            Some((h, p)) => Some((h, p, target)),
                            None => None,
                        },
                    },
                };
                match found {
                    None => None,
                    Some((h, p, origin)) => match rewrite(text, method, origin) {
                        None => None,
                        Some(rw) => Some(
                            ProxySpec {
                                method,
                                host: h,
                                port: p,
                                connect: false,
                                initial: encode_utf8(rw) + rest,
                            },
                        ),
                    },
                }
            }
        }
    }
}

fn split_colon_exec(line: &[char]) -> (r: Option<(Vec<char>, Vec<char>)>)
    ensures
        match r {
            Some((k, v)) => split_colon(line@) == Some((k@, v@)),
            None => split_colon(line@) is None,
        },
{
    match find_class(line, CharClass::Is(':')) {
        None => None,
        Some(i) => {
            let k = copy_range(line, 0, i);
            let n = line.len();
            assert(i < n);
            let v = copy_range(line, i + 1, n);
            assert(k@ =~= line@.take(i as int));
            assert(v@ =~= line@.skip(i + 1));
            Some((k, v))
        },
    }
}

fn header_value(ls: &Vec<Vec<char>>, name: &[char]) -> (r: Option<Vec<char>>)
    requires
        ls@.len() >= 1,
    ensures
        match r {
            Some(v) => header_in(ls.deep_view().drop_first(), name@) == Some(v@),
            None => header_in(ls.deep_view().drop_first(), name@) is None,
        },
{
    let ghost all = ls.deep_view().drop_first();
    let mut i: usize = 1;
    assert(all.skip(0) =~= all);
    while i < ls.len()
        invariant
            1 <= i <= ls@.len(),
            all == ls.deep_view().drop_first(),
            header_in(all, name@) == header_in(all.skip(i - 1), name@),
        decreases ls@.len() - i,
    {
        let line = &ls[i];
        proof {
            let t = all.skip(i - 1);
            assert(t[0] == line@);
            assert(t.drop_first() =~= all.skip(i as int));
        }
        if line.len() > 0 {
            match split_colon_exec(line.as_slice()) {
                None => return None,
                Some((k, v)) => {
                    let kt = trim_class(k.as_slice(), CharClass::Whitespace);
                    if eq_ignore_case(kt.as_slice(), name) {
                        return Some(trim_class(v.as_slice(), CharClass::Whitespace));
                    }
                },
            }
        }
        i = i + 1;
    }
    assert(all.skip(i - 1) =~= Seq::<Seq<char>>::empty());
    None
}

fn push_all(out: &mut Vec<char>, s: &[char])
    ensures
        final(out)@ == old(out)@ + s@,
{
    let mut i: usize = 0;
    let ghost start = out@;
    while i < s.len()
        invariant
            i <= s@.len(),
            out@ == start + s@.take(i as int),
        decreases s@.len() - i,
    {
        out.push(s[i]);
        i = i + 1;
        assert(out@ =~= start + s@.take(i as int));
    }
    assert(s@.take(s@.len() as int) =~= s@);
}

fn absolute_exec(target: &[char]) -> (r: Option<(Vec<char>, u16, Vec<char>)>)
    ensures
        match r {
            Some((h, p, path)) => absolute_target(target@) == Some((h@, p, path@)),
            None => absolute_target(target@) is None,
        },
{
    let http = ['h', 't', 't', 'p', ':', '/', '/'];
    let https = ['h', 't', 't', 'p', 's', ':', '/', '/'];
    assert(http@ =~= http_scheme());
    assert(https@ =~= https_scheme());
    let (rest, dp) = if starts_with(target, http.as_slice()) {
        (copy_range(target, 7, target.len()), 80u16)
    } else if starts_with(target, https.as_slice()) {
        (copy_range(target, 8, target.len()), 443u16)
    } else {
        return None;
    };
    assert(rest@ =~= target@.skip(if dp == 80 { 7 } else { 8 }));
    let (authority, path) = match find_class(rest.as_slice(), CharClass::Is('/')) {
        Some(i) => {
            let a = copy_range(rest.as_slice(), 0, i);
            let p = copy_range(rest.as_slice(), i, rest.len());
            assert(a@ =~= rest@.take(i as int));
            assert(p@ =~= rest@.skip(i as int));
            (a, p)
        },
        None => {
            let a = copy_range(rest.as_slice(), 0, rest.len());
            assert(a@ =~= rest@);
            let mut p: Vec<char> = Vec::new();
            p.push('/');
            assert(p@ =~= seq!['/']);
            (a, p)
        },
    };
    match hostport_chars(authority.as_slice(), dp) {
        Some((h, p)) => Some((h, p, path)),
        None => None,
    }
}

fn kept_lines_exec(ls: &Vec<Vec<char>>, out: &mut Vec<char>)
    requires
        ls@.len() >= 1,
    ensures
        final(out)@ == old(out)@ + kept_lines(ls.deep_view().drop_first()),
{
    let ghost all = ls.deep_view().drop_first();
    let ghost start = out@;
    let pc = [
        'p', 'r', 'o', 'x', 'y', '-', 'c', 'o', 'n', 'n', 'e', 'c', 't', 'i', 'o', 'n',
    ];
    assert(pc@ =~= proxy_connection());
    let mut i: usize = 1;
    assert(all.skip(0) =~= all);
    assert(start + kept_lines(all) =~= start + kept_lines(all.skip(0)));
    while i < ls.len()
        invariant
            1 <= i <= ls@.len(),
            all == ls.deep_view().drop_first(),
            pc@ == proxy_connection(),
            start + kept_lines(all) == out@ + kept_lines(all.skip(i - 1)),
        decreases ls@.len() - i,
    {
        let line = &ls[i];
        let ghost t = all.skip(i - 1);
        proof {
            assert(t[0] == line@);
            assert(t.drop_first() =~= all.skip(i as int));
        }
        let drop = if line.len() == 0 {
            true
        } else {
            match split_colon_exec(line.as_slice()) {
                Some((k, _)) => {
                    let kt = trim_class(k.as_slice(), CharClass::Whitespace);
                    eq_ignore_case(kt.as_slice(), pc.as_slice())
                },
                None => false,
            }
        };
        let ghost before = out@;
        if !drop {
            push_all(out, line.as_slice());
            out.push('\r');
            out.push('\n');
            assert(out@ =~= before + (line@ + crlf()));
        }
        proof {
            let piece = if drop {
                Seq::<char>::empty()
            } else {
                line@ + crlf()
            };
            assert(out@ =~= before + piece);
            assert(kept_lines(t) == piece + kept_lines(all.skip(i as int)));
            assert(before + kept_lines(t) =~= out@ + kept_lines(all.skip(i as int)));
        }
        i = i + 1;
    }
    assert(all.skip(i - 1) =~= Seq::<Seq<char>>::empty());
    assert(out@ + kept_lines(all.skip(i - 1)) =~= out@);
}

fn rewrite_exec(ls: &Vec<Vec<char>>, method: &[char], target: &[char]) -> (r: Option<Vec<char>>)
    requires
        ls@.len() >= 1,
    ensures
        match r {
            Some(v) => rewrite_lines(ls.deep_view(), method@, target@) == Some(v@),
            None => rewrite_lines(ls.deep_view(), method@, target@) is None,
        },
{
    let words = split_whitespace(ls[0].as_slice());
    proof {
        assert(ls.deep_view()[0] == ls@[0]@);
    }
    if words.len() < 3 {
        return None;
    }
    let mut out: Vec<char> = Vec::new();
    push_all(&mut out, method);
    out.push(' ');
    push_all(&mut out, target);
    out.push(' ');
    push_all(&mut out, words[2].as_slice());
    out.push('\r');
    out.push('\n');
    proof {
        assert(words.deep_view()[2] == words@[2]@);
        assert(out@ =~= method@ + seq![' '] + target@ + seq![' '] + words.deep_view()[2]
            + crlf());
    }
    kept_lines_exec(ls, &mut out);
    out.push('\r');
    out.push('\n');
    proof {
        let d = ls.deep_view();
        assert(out@ =~= method@ + seq![' '] + target@ + seq![' '] + split_ws(d[0])[2] + crlf()
            + kept_lines(d.drop_first()) + crlf());
    }
    Some(out)
}

/// [`rewrite`] on lines already split.
pub open spec fn rewrite_lines(ls: Seq<Seq<char>>, method: Seq<char>, target: Seq<char>) -> Option<
    Seq<char>,
> {
    let words = split_ws(ls[0]);
    if words.len() < 3 {
        None
    } else {
        Some(
            method + seq![' '] + target + seq![' '] + words[2] + crlf() + kept_lines(
                ls.drop_first(),
            ) + crlf(),
        )
    }
}

/// Read a proxy request from its head and the bytes already read after it.
pub fn parse_proxy_request(head: &[u8], rest: &[u8]) -> (r: Option<ProxyRequest>)
    ensures
        match r {
            Some(req) => proxy_request(head@, rest@) == Some(req.model()),
            None => proxy_request(head@, rest@) is None,
        },
{
    let text = match utf8_chars(head) {
        Some(t) => t,
        None => return None,
    };
    let ls = split_lines(text.as_slice());
    let words = split_whitespace(ls[0].as_slice());
    proof {
        assert(ls.deep_view()[0] == ls@[0]@);
    }
    if words.len() < 3 {
        return None;
    }
    let method = copy_range(words[0].as_slice(), 0, words[0].len());
    let target = copy_range(words[1].as_slice(), 0, words[1].len());
    proof {
        assert(method@ =~= words.deep_view()[0]);
        assert(target@ =~= words.deep_view()[1]);
    }
    let connect = ['C', 'O', 'N', 'N', 'E', 'C', 'T'];
    assert(connect@ =~= connect_word());
    if eq_ignore_case(method.as_slice(), connect.as_slice()) {
        return match hostport_chars(target.as_slice(), 0) {
            Some((h, p)) => {
                let mut initial: Vec<u8> = Vec::new();
                let mut i: usize = 0;
                while i < rest.len()
                    invariant
                        i <= rest@.len(),
                        initial@ == rest@.take(i as int),
                    decreases rest@.len() - i,
                {
                    initial.push(rest[i]);
                    i = i + 1;
                    assert(initial@ =~= rest@.take(i as int));
                }
                assert(rest@.take(rest@.len() as int) =~= rest@);
                Some(
                    ProxyRequest {
                        method: string_of(method.as_slice()),
                        host: string_of(h.as_slice()),
                        port: p,
                        connect: true,
                        initial,
                    },
                )
            },
            None => None,
        };
    }
    let name = ['h', 'o', 's', 't'];
    assert(name@ =~= host_name());
    let host_header = header_value(&ls, name.as_slice());
    let found: Option<(Vec<char>, u16, Vec<char>)> = match absolute_exec(target.as_slice()) {
        Some(x) => Some(x),
        None => match host_header {
            None => None,
            Some(v) => match hostport_chars(v.as_slice(), 80) {
                Some((h, p)) => {
                    let t2 = copy_range(target.as_slice(), 0, target.len());
                    assert(t2@ =~= target@);
                    Some((h, p, t2))
                },
                None => None,
            },
        },
    };
    let (h, p, origin) = match found {
        Some(x) => x,
        None => {
            return None;
        },
    };
    let rw = match rewrite_exec(&ls, method.as_slice(), origin.as_slice()) {
        Some(v) => v,
        None => return None,
    };
    let mut initial = utf8_bytes(rw.as_slice());
    let ghost enc = initial@;
    let mut i: usize = 0;
    while i < rest.len()
        invariant
            i <= rest@.len(),
            initial@ == enc + rest@.take(i as int),
        decreases rest@.len() - i,
    {
        initial.push(rest[i]);
        i = i + 1;
        assert(initial@ =~= enc + rest@.take(i as int));
    }
    assert(rest@.take(rest@.len() as int) =~= rest@);
    Some(
        ProxyRequest {
            method: string_of(method.as_slice()),
            host: string_of(h.as_slice()),
            port: p,
            connect: false,
            initial,
        },
    )
}

} // verus!

verus! {

/// An empty line ends the head here: `\r\n\r\n` starts at `k`.
pub open spec fn blank_at(s: Seq<char>, k: int) -> bool {
    crlf_at(s, k) && crlf_at(s, k + 2)
}

/// `s` ends with `\r\n\r\n`, and that is the only place it holds one: a
/// reader of the head stops exactly at its end.
pub open spec fn ends_head_once(s: Seq<char>) -> bool {
    &&& s.len() >= 4
    &&& blank_at(s, s.len() - 4)
    &&& forall|k: int| #[trigger] blank_at(s, k) ==> k == s.len() - 4
}

spec fn crlf_free(s: Seq<char>) -> bool {
    forall|j: int| !#[trigger] crlf_at(s, j)
}

proof fn lemma_find_crlf_facts(s: Seq<char>)
    ensures
        -1 <= find_crlf(s),
        find_crlf(s) >= 0 ==> find_crlf(s) + 2 <= s.len() && crlf_at(s, find_crlf(s)),
        forall|j: int| 0 <= j && (find_crlf(s) < 0 || j < find_crlf(s)) ==> !#[trigger] crlf_at(s, j),
    decreases s.len(),
{
    if s.len() >= 2 && !(s[0] == '\r' && s[1] == '\n') {
        let t = s.drop_first();
        lemma_find_crlf_facts(t);
        assert forall|j: int| 0 <= j && (find_crlf(s) < 0 || j < find_crlf(s)) implies !#[trigger] crlf_at(s, j) by {
            if j > 0 && crlf_at(s, j) {
                assert(crlf_at(t, j - 1));
            }
        }
        if find_crlf(s) >= 0 {
            assert(crlf_at(t, find_crlf(t)));
        }
    }
}

proof fn lemma_lines_crlf_free(s: Seq<char>)
    ensures
        lines(s).len() >= 1,
        forall|i: int| 0 <= i < lines(s).len() ==> crlf_free(#[trigger] lines(s)[i]),
    decreases s.len(),
{
    let i0 = find_crlf(s);
    lemma_find_crlf_facts(s);
    if i0 < 0 || i0 + 2 > s.len() {
        assert forall|j: int| !#[trigger] crlf_at(s, j) by {
            if 0 <= j {
            }
        }
    } else {
        let a = s.take(i0);
        let r = s.skip(i0 + 2);
        lemma_lines_crlf_free(r);
        assert forall|j: int| !#[trigger] crlf_at(a, j) by {
            if crlf_at(a, j) {
                assert(crlf_at(s, j));
            }
        }
        assert forall|i: int| 0 <= i < lines(s).len() implies crlf_free(#[trigger] lines(s)[i]) by {
            if i > 0 {
                assert(lines(s)[i] == lines(r)[i - 1]);
            }
        }
    }
}

proof fn lemma_split_class_free(s: Seq<char>, k: CharClass)
    ensures
        forall|i: int, j: int|
            0 <= i < split(s, k).len() && 0 <= j < split(s, k)[i].len() ==> !in_class(
                k,
                #[trigger] split(s, k)[i][j],
            ),
    decreases s.len(),
{
    let i0 = find(s, k);
    crate::text::lemma_find_bounds(s, k);
    if i0 < 0 || i0 >= s.len() {
    } else {
        let r = s.skip(i0 + 1);
        lemma_split_class_free(r, k);
        assert forall|i: int, j: int|
            0 <= i < split(s, k).len() && 0 <= j < split(s, k)[i].len() implies !in_class(
                k,
                #[trigger] split(s, k)[i][j],
            ) by {
            if i == 0 {
                assert(split(s, k)[0] == s.take(i0));
                assert(s.take(i0)[j] == s[j]);
            } else {
                assert(split(s, k)[i] == split(r, k)[i - 1]);
            }
        }
    }
}

proof fn lemma_nonempty_class_free(ps: Seq<Seq<char>>, k: CharClass)
    requires
        forall|i: int, j: int| 0 <= i < ps.len() && 0 <= j < ps[i].len() ==> !in_class(k, #[trigger] ps[i][j]),
    ensures
        forall|i: int, j: int|
            0 <= i < crate::text::nonempty(ps).len() && 0 <= j < crate::text::nonempty(ps)[i].len()
                ==> !in_class(k, #[trigger] crate::text::nonempty(ps)[i][j]),
    decreases ps.len(),
{
    if ps.len() > 0 {
        let q = ps.drop_last();
        assert forall|i: int, j: int| 0 <= i < q.len() && 0 <= j < q[i].len() implies !in_class(k, #[trigger] q[i][j]) by {
            assert(q[i] == ps[i]);
        }
        lemma_nonempty_class_free(q, k);
        assert forall|i: int, j: int|
            0 <= i < crate::text::nonempty(ps).len() && 0 <= j < crate::text::nonempty(ps)[i].len()
                implies !in_class(k, #[trigger] crate::text::nonempty(ps)[i][j]) by {
            if ps.last().len() > 0 && i == crate::text::nonempty(q).len() {
                assert(crate::text::nonempty(ps)[i] == ps[ps.len() - 1]);
            } else {
                assert(crate::text::nonempty(ps)[i] == crate::text::nonempty(q)[i]);
            }
        }
    }
}

/// No word of a line holds whitespace, so none holds `\r`.
proof fn lemma_words_have_no_cr(s: Seq<char>)
    ensures
        forall|i: int, j: int|
            0 <= i < split_ws(s).len() && 0 <= j < split_ws(s)[i].len() ==> #[trigger] split_ws(s)[i][j]
                != '\r',
{
    lemma_split_class_free(s, CharClass::Whitespace);
    lemma_nonempty_class_free(split(s, CharClass::Whitespace), CharClass::Whitespace);
    assert forall|i: int, j: int|
        0 <= i < split_ws(s).len() && 0 <= j < split_ws(s)[i].len() implies #[trigger] split_ws(s)[i][j]
            != '\r' by {
        assert(!in_class(CharClass::Whitespace, split_ws(s)[i][j]));
        assert(crate::text::is_ws('\r'));
    }
}

proof fn lemma_head_tail(a: Seq<char>, b: Seq<char>)
    requires
        a.len() > 0,
        crlf_free(a),
        ends_head_once(b),
        !crlf_at(b, 0),
    ensures
        ends_head_once(a + crlf() + b),
        !crlf_at(a + crlf() + b, 0),
{
    let s = a + crlf() + b;
    let n = a.len() as int;
    assert forall|i: int| 0 <= i < n implies s[i] == a[i] by {}
    assert(s[n] == '\r' && s[n + 1] == '\n');
    assert forall|i: int| 0 <= i < b.len() implies s[n + 2 + i] == b[i] by {}
    assert forall|k: int| n + 2 <= k implies #[trigger] crlf_at(s, k) == crlf_at(b, k - n - 2) by {
        if n + 2 <= k && k + 1 < s.len() {
            assert(s[k] == b[k - n - 2]);
            assert(s[k + 1] == b[k - n - 1]);
        }
    }
    assert(blank_at(s, s.len() - 4)) by {
        assert(blank_at(b, b.len() - 4));
        assert(crlf_at(s, s.len() - 4) == crlf_at(b, b.len() - 4));
        assert(crlf_at(s, s.len() - 2) == crlf_at(b, b.len() - 2));
    }
    assert forall|k: int| #[trigger] blank_at(s, k) implies k == s.len() - 4 by {
        if k >= n + 2 {
            assert(crlf_at(s, k + 2) == crlf_at(b, k + 2 - n - 2));
            assert(blank_at(b, k - n - 2));
        } else if k == n {
            assert(crlf_at(s, n + 2) == crlf_at(b, 0));
        } else if k == n - 2 {
            assert(crlf_at(a, n - 2));
        } else if k <= n - 3 {
            assert(crlf_at(a, k));
        }
    }
    if n >= 2 {
        assert(!crlf_at(a, 0));
    }
}

proof fn lemma_head_last(a: Seq<char>)
    requires
        a.len() > 0,
        crlf_free(a),
    ensures
        ends_head_once(a + crlf() + crlf()),
        !crlf_at(a + crlf() + crlf(), 0),
{
    let s = a + crlf() + crlf();
    let n = a.len() as int;
    assert forall|i: int| 0 <= i < n implies s[i] == a[i] by {}
    assert(s[n] == '\r' && s[n + 1] == '\n' && s[n + 2] == '\r' && s[n + 3] == '\n');
    assert forall|k: int| #[trigger] blank_at(s, k) implies k == s.len() - 4 by {
        if k == n - 2 {
            assert(crlf_at(a, n - 2));
        } else if k <= n - 3 {
            assert(crlf_at(a, k));
        }
    }
    if n >= 2 {
        assert(!crlf_at(a, 0));
    }
}

proof fn lemma_kept_head(a: Seq<char>, ls: Seq<Seq<char>>)
    requires
        a.len() > 0,
        crlf_free(a),
        forall|i: int| 0 <= i < ls.len() ==> crlf_free(#[trigger] ls[i]),
    ensures
        ends_head_once(a + crlf() + kept_lines(ls) + crlf()),
        !crlf_at(a + crlf() + kept_lines(ls) + crlf(), 0),
    decreases ls.len(),
{
    if ls.len() == 0 {
        assert(a + crlf() + kept_lines(ls) + crlf() =~= a + crlf() + crlf());
        lemma_head_last(a);
    } else {
        let l = ls[0];
        let r = ls.drop_first();
        assert forall|i: int| 0 <= i < r.len() implies crlf_free(#[trigger] r[i]) by {
            assert(r[i] == ls[i + 1]);
        }
        let drop = l.len() == 0 || match split_colon(l) {
            Some((k, _)) => eq_nocase(trim(k, CharClass::Whitespace), proxy_connection()),
            None => false,
        };
        if drop {
            assert(kept_lines(ls) =~= kept_lines(r));
            lemma_kept_head(a, r);
        } else {
            assert(crlf_free(ls[0]));
            lemma_kept_head(l, r);
            let b = l + crlf() + kept_lines(r) + crlf();
            assert(kept_lines(ls) =~= l + crlf() + kept_lines(r));
            assert(a + crlf() + kept_lines(ls) + crlf() =~= a + crlf() + b);
            lemma_head_tail(a, b);
        }
    }
}

/// An absolute-form target's origin form is a piece of the target.
proof fn lemma_origin_from_target(target: Seq<char>)
    requires
        forall|j: int| 0 <= j < target.len() ==> #[trigger] target[j] != '\r',
    ensures
        absolute_target(target) matches Some((h, p, path)) ==> path.len() > 0 && forall|j: int|
            0 <= j < path.len() ==> #[trigger] path[j] != '\r',
{
    let scheme = if has_prefix(target, http_scheme()) {
        Some((target.skip(7), 80u16))
    } else if has_prefix(target, https_scheme()) {
        Some((target.skip(8), 443u16))
    } else {
        None
    };
    if let Some((rest, dp)) = scheme {
        let i = find(rest, CharClass::Is('/'));
        crate::text::lemma_find_bounds(rest, CharClass::Is('/'));
        assert forall|j: int| 0 <= j < rest.len() implies #[trigger] rest[j] != '\r' by {
            if has_prefix(target, http_scheme()) {
                assert(rest[j] == target[j + 7]);
            } else {
                assert(rest[j] == target[j + 8]);
            }
        }
        if i >= 0 {
            assert forall|j: int| 0 <= j < rest.skip(i).len() implies #[trigger] rest.skip(i)[j] != '\r' by {
                assert(rest.skip(i)[j] == rest[j + i]);
            }
        }
    }
}

/// An HTTP request relayed through the proxy goes out with a complete head:
/// the rewritten head ends with the blank line `\r\n\r\n` and holds no
/// blank line before it, so the upstream server reads exactly that head,
/// then the bytes that followed the client's head.
pub proof fn law_rewritten_head_ends_once(head: Seq<u8>, rest: Seq<u8>)
    ensures
        match proxy_request(head, rest) {
            Some(p) => !p.connect ==> exists|rw: Seq<char>|
                #[trigger] ends_head_once(rw) && p.initial == encode_utf8(rw) + rest,
            None => true,
        },
{
    if let Some(p) = proxy_request(head, rest) {
        if !p.connect {
            let text = decode_utf8(head);
            let ls = lines(text);
            lemma_lines_crlf_free(text);
            let words = split_ws(ls[0]);
            lemma_words_have_no_cr(ls[0]);
            let method = words[0];
            let target = words[1];
            assert forall|j: int| 0 <= j < target.len() implies #[trigger] target[j] != '\r' by {
                assert(split_ws(ls[0])[1][j] != '\r');
            }
            lemma_origin_from_target(target);
            let found = match absolute_target(target) {
                Some(x) => Some(x),
                None => match header_in(ls.drop_first(), host_name()) {
                    None => None,
                    Some(v) => match hostport(v, 80) {
                        Some((h, pt)) => Some((h, pt, target)),
                        None => None,
                    },
                },
            };
            let origin = found->Some_0.2;
            assert(words.len() >= 3);
            let w = words[2];
            assert forall|j: int| 0 <= j < method.len() implies #[trigger] method[j] != '\r' by {
                assert(split_ws(ls[0])[0][j] != '\r');
            }
            assert forall|j: int| 0 <= j < w.len() implies #[trigger] w[j] != '\r' by {
                assert(split_ws(ls[0])[2][j] != '\r');
            }
            let a = method + seq![' '] + origin + seq![' '] + w;
            assert forall|j: int| 0 <= j < a.len() implies #[trigger] a[j] != '\r' by {
                let m = method.len() as int;
                let o = origin.len() as int;
                if j < m {
                    assert(a[j] == method[j]);
                } else if j == m {
                } else if j < m + 1 + o {
                    assert(a[j] == origin[j - m - 1]);
                } else if j == m + 1 + o {
                } else {
                    assert(a[j] == w[j - m - o - 2]);
                }
            }
            assert forall|j: int| !#[trigger] crlf_at(a, j) by {
                if crlf_at(a, j) {
                    assert(a[j] != '\r');
                }
            }
            let kept = ls.drop_first();
            assert forall|i: int| 0 <= i < kept.len() implies crlf_free(#[trigger] kept[i]) by {
                assert(kept[i] == ls[i + 1]);
            }
            lemma_kept_head(a, kept);
            let rw = method + seq![' '] + origin + seq![' '] + words[2] + crlf() + kept_lines(kept) + crlf();
            assert(rw =~= a + crlf() + kept_lines(kept) + crlf());
            assert(rewrite(text, method, origin) == Some(rw));
            assert(ends_head_once(rw) && p.initial == encode_utf8(rw) + rest);
        }
    }
}

/// A CONNECT request forwards nothing of its head: what goes into the tunnel
/// is exactly the bytes that followed it. Every accepted request names a
/// non-empty host and a non-zero port.
pub proof fn law_connect_forwards_only_what_followed(head: Seq<u8>, rest: Seq<u8>)
    ensures
        match proxy_request(head, rest) {
            Some(p) => (p.connect ==> p.initial == rest) && p.host.len() > 0 && p.port != 0,
            None => true,
        },
{
    if let Some(p) = proxy_request(head, rest) {
        let text = decode_utf8(head);
        let ls = lines(text);
        let words = split_ws(ls[0]);
        let target = words[1];
        super::protocol::law_hostport_shape(target, 0);
        match header_in(ls.drop_first(), host_name()) {
            Some(v) => super::protocol::law_hostport_shape(v, 80),
            None => {},
        }
        let scheme_rest = if has_prefix(target, http_scheme()) {
            target.skip(7)
        } else {
            target.skip(8)
        };
        let i = find(scheme_rest, CharClass::Is('/'));
        let authority = if i < 0 {
            scheme_rest
        } else {
            scheme_rest.take(i)
        };
        super::protocol::law_hostport_shape(authority, 80);
        super::protocol::law_hostport_shape(authority, 443);
    }
}

} // verus!
