//! Request ids: which inbound ids are echoed, and the text of minted ones.
use vstd::prelude::*;

use crate::cua::recipe::utf8_len_upto;
use crate::net::{hex_digit, hex_text};
use crate::text::{
    chars_of, extend_chars, extend_str, in_class, lemma_trim_end_at, lemma_trim_start_at, string_of,
    trim, trim_class, CharClass,
};

verus! {

/// Header carrying the correlation id, lower case as sent.
pub const REQUEST_ID_HEADER: &'static str = "x-request-id";

/// Correlation id stored with a request.
#[derive(Clone, Debug)]
pub struct RequestId(pub String);

pub open spec fn id_char(c: char) -> bool {
    ('a' <= c && c <= 'z') || ('A' <= c && c <= 'Z') || ('0' <= c && c <= '9') || c == '-' || c
        == '_' || c == '.' || c == ':'
}

/// An inbound id is echoed when, trimmed, it is 1 to 128 bytes of ASCII
/// letters, digits, `-`, `_`, `.` and `:`.
pub open spec fn acceptable_id(raw: Seq<char>) -> bool {
    let t = trim(raw, CharClass::Whitespace);
    t.len() > 0 && t.len() <= 128 && forall|i: int| 0 <= i < t.len() ==> id_char(#[trigger] t[i])
}

pub fn valid_request_id(raw: &str) -> (b: bool)
    ensures
        b == acceptable_id(raw@),
{
    let t = trim_class(chars_of(raw).as_slice(), CharClass::Whitespace);
    if t.len() == 0 || t.len() > 128 {
        return false;
    }
    let mut i: usize = 0;
    while i < t.len()
        invariant
            i <= t@.len(),
            t@ == trim(raw@, CharClass::Whitespace),
            0 < t@.len() <= 128,
            forall|j: int| 0 <= j < i ==> id_char(#[trigger] t@[j]),
        decreases t@.len() - i,
    {
        let c = t[i];
        if !(('a' <= c && c <= 'z') || ('A' <= c && c <= 'Z') || ('0' <= c && c <= '9') || c
            == '-' || c == '_' || c == '.' || c == ':') {
            return false;
        }
        i = i + 1;
    }
    true
}

fn hex_u128(n: u128) -> (r: Vec<char>)
    ensures
        r@ == hex_text(n as nat),
    decreases n,
{
    let d = (n % 16) as u8;
    let c: char = if d < 10 {
        ((48u8 + d) as char)
    } else {
        ((97u8 + (d - 10)) as char)
    };
    if n < 16 {
        let mut v: Vec<char> = Vec::new();
        v.push(c);
        assert(v@ =~= seq![crate::net::hex_digit(n as int)]);
        v
    } else {
        let mut v = hex_u128(n / 16);
        v.push(c);
        v
    }
}

/// A minted id: the clock's nanoseconds and a process-wide sequence number,
/// both in hex, joined by `-`.
pub fn format_id(nanos: u128, seq: u64) -> (s: String)
    ensures
        s@ == hex_text(nanos as nat) + "-"@ + hex_text(seq as nat),
{
    let mut v = hex_u128(nanos);
    extend_str(&mut v, "-");
    let t = hex_u128(seq as u128);
    extend_chars(&mut v, t.as_slice());
    string_of(v.as_slice())
}

/// `prefix-` then a minted id.
pub fn prefixed_id(prefix: &str, id: &str) -> (s: String)
    ensures
        s@ == prefix@ + "-"@ + id@,
{
    let mut v = chars_of(prefix);
    extend_str(&mut v, "-");
    extend_str(&mut v, id);
    string_of(v.as_slice())
}

proof fn lemma_hex_chars(n: nat)
    ensures
        forall|i: int| 0 <= i < hex_text(n).len() ==> {
            let c = #[trigger] hex_text(n)[i];
            ('0' <= c && c <= '9') || ('a' <= c && c <= 'f')
        },
        hex_text(n).len() >= 1,
    decreases n,
{
    if n >= 16 {
        lemma_hex_chars(n / 16);
    }
}

/// `16` to the power `k`.
spec fn pow16(k: nat) -> nat
    decreases k,
{
    if k == 0 {
        1
    } else {
        16 * pow16((k - 1) as nat)
    }
}

proof fn lemma_hex_len(n: nat, k: nat)
    requires
        k >= 1,
        n < pow16(k),
    ensures
        hex_text(n).len() <= k,
    decreases k,
{
    if n >= 16 {
        if k == 1 {
            assert(pow16(1) == 16 * pow16(0));
            assert(false);
        }
        assert(n / 16 < pow16((k - 1) as nat));
        lemma_hex_len(n / 16, (k - 1) as nat);
    }
}

/// Every id minted here is one the request-id check accepts, so an id
/// handed out is echoed unchanged when a caller sends it back.
pub proof fn law_minted_ids_are_accepted(nanos: u128, seq: u64)
    ensures
        acceptable_id(hex_text(nanos as nat) + "-"@ + hex_text(seq as nat)),
{
    reveal_strlit("-");
    let a = hex_text(nanos as nat);
    let b = hex_text(seq as nat);
    let s = a + "-"@ + b;
    lemma_hex_chars(nanos as nat);
    lemma_hex_chars(seq as nat);
    assert(pow16(16) == 0x1_0000_0000_0000_0000) by {
        reveal_with_fuel(pow16, 17);
    }
    assert(pow16(32) == 0x1_0000_0000_0000_0000_0000_0000_0000_0000) by {
        reveal_with_fuel(pow16, 33);
    }
    lemma_hex_len(nanos as nat, 32);
    lemma_hex_len(seq as nat, 16);
    assert forall|i: int| 0 <= i < s.len() implies id_char(#[trigger] s[i]) && !in_class(
        CharClass::Whitespace,
        s[i],
    ) by {
        if i < a.len() {
            assert(s[i] == a[i]);
        } else if i == a.len() {
            assert(s[i] == '-');
        } else {
            assert(s[i] == b[i - a.len() - 1]);
        }
    }
    lemma_trim_start_at(s, CharClass::Whitespace, 0);
    assert(s.skip(0) =~= s);
    lemma_trim_end_at(s, CharClass::Whitespace, s.len() as int);
    assert(s.take(s.len() as int) =~= s);
}

proof fn lemma_hex_digit_injective(a: int, b: int)
    requires
        0 <= a < 16,
        0 <= b < 16,
        hex_digit(a) == hex_digit(b),
    ensures
        a == b,
{
}

proof fn lemma_hex_text_injective(n: nat, m: nat)
    requires
        hex_text(n) == hex_text(m),
    ensures
        n == m,
    decreases n,
{
    lemma_hex_chars(n);
    lemma_hex_chars(m);
    if n >= 16 {
        lemma_hex_chars(n / 16);
    }
    if m >= 16 {
        lemma_hex_chars(m / 16);
    }
    let t = hex_text(n);
    if n < 16 && m < 16 {
        assert(t[0] == hex_digit(n as int));
        assert(hex_text(m)[0] == hex_digit(m as int));
        lemma_hex_digit_injective(n as int, m as int);
    } else if n >= 16 && m >= 16 {
        assert(t.last() == hex_digit((n % 16) as int));
        assert(hex_text(m).last() == hex_digit((m % 16) as int));
        lemma_hex_digit_injective((n % 16) as int, (m % 16) as int);
        assert(t.drop_last() =~= hex_text(n / 16));
        assert(hex_text(m).drop_last() =~= hex_text(m / 16));
        lemma_hex_text_injective(n / 16, m / 16);
    } else {
        assert(false);
    }
}

/// Minting is one to one: two different clock and counter pairs never give
/// the same id, so ids minted under one process-wide counter stay distinct.
pub proof fn law_distinct_pairs_give_distinct_ids(n1: u128, s1: u64, n2: u128, s2: u64)
    requires
        n1 != n2 || s1 != s2,
    ensures
        hex_text(n1 as nat) + "-"@ + hex_text(s1 as nat) != hex_text(n2 as nat) + "-"@
            + hex_text(s2 as nat),
{
    reveal_strlit("-");
    let a1 = hex_text(n1 as nat);
    let b1 = hex_text(s1 as nat);
    let a2 = hex_text(n2 as nat);
    let b2 = hex_text(s2 as nat);
    let x = a1 + "-"@ + b1;
    let y = a2 + "-"@ + b2;
    lemma_hex_chars(n1 as nat);
    lemma_hex_chars(s1 as nat);
    lemma_hex_chars(n2 as nat);
    lemma_hex_chars(s2 as nat);
    if x == y {
        if a1.len() < a2.len() {
            assert(x[a1.len() as int] == '-');
            assert(y[a1.len() as int] == a2[a1.len() as int]);
            assert(false);
        } else if a2.len() < a1.len() {
            assert(y[a2.len() as int] == '-');
            assert(x[a2.len() as int] == a1[a2.len() as int]);
            assert(false);
        }
        assert(a1 =~= x.take(a1.len() as int));
        assert(a2 =~= y.take(a2.len() as int));
        assert(b1 =~= x.skip(a1.len() + 1int));
        assert(b2 =~= y.skip(a2.len() + 1int));
        lemma_hex_text_injective(n1 as nat, n2 as nat);
        lemma_hex_text_injective(s1 as nat, s2 as nat);
    }
}

} // verus!
