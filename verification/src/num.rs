//! Decimal text for unsigned and signed integers: `str::parse` and `Display`.
use vstd::prelude::*;

verus! {

pub open spec fn is_digit(c: char) -> bool {
    '0' <= c && c <= '9'
}

pub open spec fn digit_val(c: char) -> int {
    (c as u32) - ('0' as u32)
}

pub open spec fn all_digits(s: Seq<char>) -> bool {
    forall|i: int| 0 <= i < s.len() ==> is_digit(#[trigger] s[i])
}

/// The value of a run of decimal digits.
pub open spec fn dec_value(s: Seq<char>) -> int
    decreases s.len(),
{
    if s.len() == 0 {
        0
    } else {
        dec_value(s.drop_last()) * 10 + digit_val(s.last())
    }
}

/// The digits after an optional leading `+`, as the standard library's
/// unsigned `from_str` reads them.
pub open spec fn unsigned_body(s: Seq<char>) -> Seq<char> {
    if s.len() > 0 && s[0] == '+' {
        s.drop_first()
    } else {
        s
    }
}

/// `str::parse::<uN>()` where `max` is `uN::MAX`.
pub open spec fn parse_unsigned(s: Seq<char>, max: int) -> Option<int> {
    let b = unsigned_body(s);
    if b.len() > 0 && all_digits(b) && dec_value(b) <= max {
        Some(dec_value(b))
    } else {
        None
    }
}

pub proof fn lemma_dec_nonneg(s: Seq<char>)
    requires
        all_digits(s),
    ensures
        dec_value(s) >= 0,
    decreases s.len(),
{
    if s.len() > 0 {
        lemma_dec_nonneg(s.drop_last());
    }
}

pub proof fn lemma_dec_prefix_grows(s: Seq<char>, i: int)
    requires
        all_digits(s),
        0 <= i <= s.len(),
    ensures
        dec_value(s.take(i)) <= dec_value(s),
    decreases s.len() - i,
{
    if i < s.len() {
        lemma_dec_prefix_grows(s, i + 1);
        let t = s.take(i + 1);
        assert(t.drop_last() =~= s.take(i));
        lemma_dec_nonneg(s.take(i));
        assert(all_digits(s.take(i)));
    } else {
        assert(s.take(i) =~= s);
    }
}

/// Parse the unsigned decimal text of a value no larger than `max`.
pub fn parse_bounded(s: &[char], max: u64) -> (r: Option<u64>)
    ensures
        match r {
            Some(v) => parse_unsigned(s@, max as int) == Some(v as int),
            None => parse_unsigned(s@, max as int) is None,
        },
{
    let start: usize = if s.len() > 0 && s[0] == '+' {
        1
    } else {
        0
    };
    let ghost b = unsigned_body(s@);
    assert(b =~= s@.skip(start as int));
    if start >= s.len() {
        return None;
    }
    let mut acc: u64 = 0;
    let mut i: usize = start;
    while i < s.len()
        invariant
            start <= i <= s@.len(),
            b == unsigned_body(s@),
            b =~= s@.skip(start as int),
            all_digits(b.take(i - start)),
            acc as int == dec_value(b.take(i - start)),
            acc <= max,
        decreases s@.len() - i,
    {
        let c = s[i];
        if !('0' <= c && c <= '9') {
            assert(b[i - start] == c);
            assert(!is_digit(b[i - start]));
            assert(!all_digits(b));
            return None;
        }
        let d = (c as u32 - '0' as u32) as u64;
        proof {
            let t = b.take(i - start + 1);
            assert(t.drop_last() =~= b.take(i - start));
            assert(t.last() == c);
        }
        if d > max || acc > (max - d) / 10 {
            proof {
                let t = b.take(i - start + 1);
                assert(all_digits(t));
                assert(dec_value(t) > max) by (nonlinear_arith)
                    requires
                        dec_value(t) == acc * 10 + d,
                        d > max || acc > (max - d) / 10,
                        0 <= d <= 9,
                        acc >= 0,
                ;
                if all_digits(b) {
                    lemma_dec_prefix_grows(b, i - start + 1);
                }
            }
            return None;
        }
        proof {
            assert(acc * 10 + d <= max) by (nonlinear_arith)
                requires
                    acc <= (max - d) / 10,
                    0 <= d <= 9,
                    d <= max,
            ;
        }
        acc = acc * 10 + d;
        i = i + 1;
    }
    assert(b.take(i - start) =~= b);
    Some(acc)
}

/// `str::parse::<u16>()`.
pub fn parse_u16(s: &[char]) -> (r: Option<u16>)
    ensures
        match r {
            Some(v) => parse_unsigned(s@, 65535) == Some(v as int),
            None => parse_unsigned(s@, 65535) is None,
        },
{
    match parse_bounded(s, 65535) {
        Some(v) => Some(v as u16),
        None => None,
    }
}

/// `str::parse::<u64>()`.
pub fn parse_u64(s: &[char]) -> (r: Option<u64>)
    ensures
        match r {
            Some(v) => parse_unsigned(s@, u64::MAX as int) == Some(v as int),
            None => parse_unsigned(s@, u64::MAX as int) is None,
        },
{
    parse_bounded(s, u64::MAX)
}

pub open spec fn digit_char(d: int) -> char {
    (('0' as u32) + d) as char
}

/// `Display` of a natural number.
pub open spec fn dec_text(n: nat) -> Seq<char>
    decreases n,
{
    if n < 10 {
        seq![digit_char(n as int)]
    } else {
        dec_text(n / 10).push(digit_char((n % 10) as int))
    }
}

/// `Display` of a signed number.
pub open spec fn int_text(n: int) -> Seq<char> {
    if n < 0 {
        seq!['-'] + dec_text((-n) as nat)
    } else {
        dec_text(n as nat)
    }
}

fn digit(d: u64) -> (c: char)
    requires
        d < 10,
    ensures
        c == digit_char(d as int),
{
    let b = (d as u8) + 48u8;
    b as char
}

/// Decimal text of a `u64`.
pub fn u64_text(n: u64) -> (r: Vec<char>)
    ensures
        r@ == dec_text(n as nat),
    decreases n,
{
    if n < 10 {
        let mut v: Vec<char> = Vec::new();
        v.push(digit(n));
        assert(v@ =~= seq![digit_char(n as int)]);
        v
    } else {
        let mut v = u64_text(n / 10);
        v.push(digit(n % 10));
        v
    }
}

/// Decimal text of an `i64`.
pub fn i64_text(n: i64) -> (r: Vec<char>)
    ensures
        r@ == int_text(n as int),
{
    if n < 0 {
        let m: u64 = if n == i64::MIN {
            9223372036854775808u64
        } else {
            (-n) as u64
        };
        let t = u64_text(m);
        let mut v: Vec<char> = Vec::new();
        v.push('-');
        let mut i: usize = 0;
        while i < t.len()
            invariant
                i <= t@.len(),
                v@ == seq!['-'] + t@.take(i as int),
            decreases t@.len() - i,
        {
            v.push(t[i]);
            i = i + 1;
            assert(v@ =~= seq!['-'] + t@.take(i as int));
        }
        assert(t@.take(t@.len() as int) =~= t@);
        v
    } else {
        u64_text(n as u64)
    }
}


/// `i64::to_string`.
pub fn int_string(n: i64) -> (s: String)
    ensures
        s@ == int_text(n as int),
{
    let v = i64_text(n);
    crate::text::string_of(v.as_slice())
}

/// `u64::to_string`.
pub fn nat_string(n: u64) -> (s: String)
    ensures
        s@ == dec_text(n as nat),
{
    let v = u64_text(n);
    crate::text::string_of(v.as_slice())
}

/// The decimal text of a number is a non-empty run of digits that reads
/// back as the number.
pub proof fn lemma_dec_text_reads_back(n: nat)
    ensures
        dec_text(n).len() > 0,
        all_digits(dec_text(n)),
        dec_value(dec_text(n)) == n,
    decreases n,
{
    let d = (n % 10) as int;
    assert(digit_val(digit_char(d)) == d && is_digit(digit_char(d)));
    if n < 10 {
        let t = dec_text(n);
        assert(t.drop_last() =~= Seq::<char>::empty());
        assert(dec_value(Seq::<char>::empty()) == 0);
        assert(t.last() == digit_char(d));
        assert(dec_value(t) == dec_value(t.drop_last()) * 10 + digit_val(t.last()));
    } else {
        lemma_dec_text_reads_back(n / 10);
        let t = dec_text(n);
        assert(t.drop_last() =~= dec_text(n / 10));
        assert(n == (n / 10) * 10 + n % 10);
        assert(t.last() == digit_char(d));
        assert(dec_value(t) == dec_value(t.drop_last()) * 10 + digit_val(t.last()));
        assert forall|i: int| 0 <= i < t.len() implies is_digit(#[trigger] t[i]) by {
            if i < t.len() - 1 {
                assert(t[i] == dec_text(n / 10)[i]);
            }
        }
    }
}

} // verus!
