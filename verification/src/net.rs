//! IP and socket addresses as plain values, with the address classes the
//! standard library names, and their text form.
use vstd::prelude::*;

use crate::num::{dec_text, u64_text};

verus! {

/// An IP address: four octets, or eight 16-bit segments.
#[derive(Clone, Copy, Debug, PartialEq, Eq)]
pub enum IpAddr {
    V4(u8, u8, u8, u8),
    V6(u16, u16, u16, u16, u16, u16, u16, u16),
}

/// An IP address and a port.
#[derive(Clone, Copy, Debug, PartialEq, Eq)]
pub struct SocketAddr {
    pub ip: IpAddr,
    pub port: u16,
}

impl SocketAddr {
    pub fn new(ip: IpAddr, port: u16) -> (s: Self)
        ensures
            s.ip == ip,
            s.port == port,
    {
        SocketAddr { ip, port }
    }

    pub fn ip(&self) -> (ip: IpAddr)
        ensures
            ip == self.ip,
    {
        self.ip
    }

    pub fn port(&self) -> (p: u16)
        ensures
            p == self.port,
    {
        self.port
    }
}

pub open spec fn v6_loopback(s: (u16, u16, u16, u16, u16, u16, u16, u16)) -> bool {
    s.0 == 0 && s.1 == 0 && s.2 == 0 && s.3 == 0 && s.4 == 0 && s.5 == 0 && s.6 == 0 && s.7 == 1
}

pub open spec fn v6_unspecified(s: (u16, u16, u16, u16, u16, u16, u16, u16)) -> bool {
    s.0 == 0 && s.1 == 0 && s.2 == 0 && s.3 == 0 && s.4 == 0 && s.5 == 0 && s.6 == 0 && s.7 == 0
}

/// `is_loopback`: `127.0.0.0/8` or `::1`.
pub open spec fn is_loopback(ip: IpAddr) -> bool {
    match ip {
        IpAddr::V4(a, _, _, _) => a == 127,
        IpAddr::V6(a, b, c, d, e, f, g, h) => v6_loopback((a, b, c, d, e, f, g, h)),
    }
}

/// `is_unspecified`: `0.0.0.0` or `::`.
pub open spec fn is_unspecified(ip: IpAddr) -> bool {
    match ip {
        IpAddr::V4(a, b, c, d) => a == 0 && b == 0 && c == 0 && d == 0,
        IpAddr::V6(a, b, c, d, e, f, g, h) => v6_unspecified((a, b, c, d, e, f, g, h)),
    }
}

pub fn ip_is_loopback(ip: IpAddr) -> (b: bool)
    ensures
        b == is_loopback(ip),
{
    match ip {
        IpAddr::V4(a, _, _, _) => a == 127,
        IpAddr::V6(a, b, c, d, e, f, g, h) => a == 0 && b == 0 && c == 0 && d == 0 && e == 0 && f
            == 0 && g == 0 && h == 1,
    }
}

pub fn ip_is_unspecified(ip: IpAddr) -> (b: bool)
    ensures
        b == is_unspecified(ip),
{
    match ip {
        IpAddr::V4(a, b, c, d) => a == 0 && b == 0 && c == 0 && d == 0,
        IpAddr::V6(a, b, c, d, e, f, g, h) => a == 0 && b == 0 && c == 0 && d == 0 && e == 0 && f
            == 0 && g == 0 && h == 0,
    }
}

/// Dotted-quad text of an IPv4 address.
pub open spec fn v4_text(a: u8, b: u8, c: u8, d: u8) -> Seq<char> {
    dec_text(a as nat) + seq!['.'] + dec_text(b as nat) + seq!['.'] + dec_text(c as nat) + seq![
        '.',
    ] + dec_text(d as nat)
}

fn push_all(out: &mut Vec<char>, s: &[char])
    ensures
        final(out)@ == old(out)@ + s@,
{
    let mut i: usize = 0;
    let ghost start = out@;
    while i < s.len()
        invariant
            i <= s@.len(),
            out@ == start + s@.take(i as int),
        decreases s@.len() - i,
    {
        out.push(s[i]);
        i = i + 1;
        assert(out@ =~= start + s@.take(i as int));
    }
    assert(s@.take(s@.len() as int) =~= s@);
}

pub fn v4_chars(a: u8, b: u8, c: u8, d: u8) -> (r: Vec<char>)
    ensures
        r@ == v4_text(a, b, c, d),
{
    let mut out: Vec<char> = Vec::new();
    let ta = u64_text(a as u64);
    push_all(&mut out, ta.as_slice());
    out.push('.');
    let tb = u64_text(b as u64);
    push_all(&mut out, tb.as_slice());
    out.push('.');
    let tc = u64_text(c as u64);
    push_all(&mut out, tc.as_slice());
    out.push('.');
    let td = u64_text(d as u64);
    push_all(&mut out, td.as_slice());
    assert(out@ =~= v4_text(a, b, c, d));
    out
}


pub open spec fn hex_digit(d: int) -> char {
    if d < 10 {
        (('0' as u32) + d) as char
    } else {
        (('a' as u32) + d - 10) as char
    }
}

/// Lower-case hexadecimal without leading zeros (`{:x}`).
pub open spec fn hex_text(n: nat) -> Seq<char>
    decreases n,
{
    if n < 16 {
        seq![hex_digit(n as int)]
    } else {
        hex_text(n / 16).push(hex_digit((n % 16) as int))
    }
}

fn hex_chars(n: u16) -> (r: Vec<char>)
    ensures
        r@ == hex_text(n as nat),
    decreases n,
{
    let d = n % 16;
    let c: char = if d < 10 {
        ((48u8 + d as u8) as char)
    } else {
        ((97u8 + (d as u8 - 10)) as char)
    };
    if n < 16 {
        let mut v: Vec<char> = Vec::new();
        v.push(c);
        assert(v@ =~= seq![hex_digit(n as int)]);
        v
    } else {
        let mut v = hex_chars(n / 16);
        v.push(c);
        v
    }
}

/// Segments in hex joined with `:`.
pub open spec fn join_hex(s: Seq<u16>) -> Seq<char>
    decreases s.len(),
{
    if s.len() == 0 {
        Seq::empty()
    } else if s.len() == 1 {
        hex_text(s[0] as nat)
    } else {
        join_hex(s.drop_last()) + seq![':'] + hex_text(s.last() as nat)
    }
}

/// The longest run of zero segments, the first when several are longest:
/// `(start, len)`, scanning from `i` with the current run `(cs, cl)` and
/// the best so far `(bs, bl)`.
pub open spec fn zero_scan(s: Seq<u16>, i: int, cs: int, cl: int, bs: int, bl: int) -> (int, int)
    decreases s.len() - i,
{
    if i >= s.len() || i < 0 {
        (bs, bl)
    } else if s[i] == 0 {
        let ncs = if cl == 0 {
            i
        } else {
            cs
        };
        let ncl = cl + 1;
        if ncl > bl {
            zero_scan(s, i + 1, ncs, ncl, ncs, ncl)
        } else {
            zero_scan(s, i + 1, ncs, ncl, bs, bl)
        }
    } else {
        zero_scan(s, i + 1, 0, 0, bs, bl)
    }
}

pub open spec fn segs(
    a: u16,
    b: u16,
    c: u16,
    d: u16,
    e: u16,
    f: u16,
    g: u16,
    h: u16,
) -> Seq<u16> {
    seq![a, b, c, d, e, f, g, h]
}

/// `Ipv6Addr`'s text: IPv4-mapped addresses as `::ffff:a.b.c.d`, otherwise
/// lower-case hex segments with the longest run of two or more zero
/// segments written `::`.
pub open spec fn v6_text(s: Seq<u16>) -> Seq<char> {
    if s[0] == 0 && s[1] == 0 && s[2] == 0 && s[3] == 0 && s[4] == 0 && s[5] == 0xffff {
        "::ffff:"@ + v4_text(
            (s[6] / 256) as u8,
            (s[6] % 256) as u8,
            (s[7] / 256) as u8,
            (s[7] % 256) as u8,
        )
    } else {
        let (st, ln) = zero_scan(s, 0, 0, 0, 0, 0);
        if ln > 1 {
            join_hex(s.take(st)) + "::"@ + join_hex(s.skip(st + ln))
        } else {
            join_hex(s)
        }
    }
}

/// The text of an address, as `Display` writes it.
pub open spec fn ip_text(ip: IpAddr) -> Seq<char> {
    match ip {
        IpAddr::V4(a, b, c, d) => v4_text(a, b, c, d),
        IpAddr::V6(a, b, c, d, e, f, g, h) => v6_text(segs(a, b, c, d, e, f, g, h)),
    }
}

fn join_hex_chars(s: &[u16]) -> (r: Vec<char>)
    ensures
        r@ == join_hex(s@),
{
    let mut out: Vec<char> = Vec::new();
    let mut i: usize = 0;
    assert(join_hex(s@.take(0)) =~= Seq::<char>::empty());
    while i < s.len()
        invariant
            i <= s@.len(),
            out@ == join_hex(s@.take(i as int)),
        decreases s@.len() - i,
    {
        assert(s@.take(i + 1).drop_last() =~= s@.take(i as int));
        assert(s@.take(i + 1).last() == s@[i as int]);
        if i > 0 {
            out.push(':');
        }
        let h = hex_chars(s[i]);
        push_all(&mut out, h.as_slice());
        proof {
            if i == 0 {
                assert(s@.take(1) =~= seq![s@[0]]);
            }
        }
        i = i + 1;
    }
    assert(s@.take(s@.len() as int) =~= s@);
    out
}

/// The text of an address.
pub fn ip_string(ip: IpAddr) -> (r: Vec<char>)
    ensures
        r@ == ip_text(ip),
{
    match ip {
        IpAddr::V4(a, b, c, d) => v4_chars(a, b, c, d),
        IpAddr::V6(a, b, c, d, e, f, g, h) => {
            let s: [u16; 8] = [a, b, c, d, e, f, g, h];
            assert(s@ =~= segs(a, b, c, d, e, f, g, h));
            if a == 0 && b == 0 && c == 0 && d == 0 && e == 0 && f == 0xffff {
                let mut out: Vec<char> = Vec::new();
                out.push(':');
                out.push(':');
                out.push('f');
                out.push('f');
                out.push('f');
                out.push('f');
                out.push(':');
                let t = v4_chars((g / 256) as u8, (g % 256) as u8, (h / 256) as u8, (h % 256) as u8);
                push_all(&mut out, t.as_slice());
                proof {
                    reveal_strlit("::ffff:");
                }
                assert(out@ =~= v6_text(s@));
                return out;
            }
            let mut cs: usize = 0;
            let mut cl: usize = 0;
            let mut bs: usize = 0;
            let mut bl: usize = 0;
            let mut i: usize = 0;
            while i < 8
                invariant
                    i <= 8,
                    s@.len() == 8,
                    cl <= i,
                    bl <= i,
                    bs <= 8,
                    bs + bl <= i,
                    cs + cl <= i,
                    zero_scan(s@, 0, 0, 0, 0, 0) == zero_scan(
                        s@,
                        i as int,
                        cs as int,
                        cl as int,
                        bs as int,
                        bl as int,
                    ),
                decreases 8 - i,
            {
                if s[i] == 0 {
                    if cl == 0 {
                        cs = i;
                    }
                    cl = cl + 1;
                    if cl > bl {
                        bs = cs;
                        bl = cl;
                    }
                } else {
                    cs = 0;
                    cl = 0;
                }
                i = i + 1;
            }
            if bl > 1 {
                let mut out = join_hex_chars(&s[0..bs]);
                out.push(':');
                out.push(':');
                let tail = join_hex_chars(&s[bs + bl..8]);
                push_all(&mut out, tail.as_slice());
                proof {
                    reveal_strlit("::");
                }
                assert(s@.subrange(0, bs as int) =~= s@.take(bs as int));
                assert(s@.subrange(bs + bl, 8) =~= s@.skip(bs + bl));
                assert(out@ =~= v6_text(s@));
                out
            } else {
                join_hex_chars(&s)
            }
        },
    }
}

} // verus!
