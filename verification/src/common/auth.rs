//! Bearer tokens: reading one from an `Authorization` value, and comparing
//! it with the configured token in time that does not depend on where the
//! two first differ.
use vstd::prelude::*;

use crate::text::{chars_of, has_prefix, string_of, trim, trim_class, CharClass};

verus! {

/// The token of `Bearer <token>`, trimmed; nothing when the scheme is
/// missing or the token is blank.
pub open spec fn bearer_of(value: Seq<char>) -> Option<Seq<char>> {
    if has_prefix(value, "Bearer "@) {
        let t = trim(value.skip(7), CharClass::Whitespace);
        if t.len() > 0 {
            Some(t)
        } else {
            None
        }
    } else {
        None
    }
}

/// The token an `Authorization` header value presents.
pub fn bearer_token(value: &str) -> (r: Option<String>)
    ensures
        match bearer_of(value@) {
            Some(t) => r is Some && r->Some_0@ == t,
            None => r is None,
        },
{
    let v = chars_of(value);
    let scheme = chars_of("Bearer ");
    proof {
        reveal_strlit("Bearer ");
    }
    if !crate::text::starts_with(v.as_slice(), scheme.as_slice()) {
        return None;
    }
    let rest = crate::text::copy_range(v.as_slice(), 7, v.len());
    assert(rest@ =~= value@.skip(7));
    let t = trim_class(rest.as_slice(), CharClass::Whitespace);
    if t.len() == 0 {
        return None;
    }
    Some(string_of(t.as_slice()))
}

/// The two tokens are the same text. Every byte is looked at whenever the
/// lengths agree, so the time taken does not tell how long a matching
/// prefix was.
pub fn tokens_equal(presented: &str, expected: &str) -> (b: bool)
    ensures
        b == (presented@ == expected@),
{
    let a = presented.as_bytes();
    let e = expected.as_bytes();
    proof {
        vstd::utf8::encode_utf8_decode_utf8(presented@);
        vstd::utf8::encode_utf8_decode_utf8(expected@);
    }
    if a.len() != e.len() {
        return false;
    }
    let mut diff: u8 = 0;
    let mut i: usize = 0;
    assert(a@.take(0) =~= e@.take(0));
    while i < a.len()
        invariant
            i <= a@.len(),
            a@.len() == e@.len(),
            (diff == 0) == (a@.take(i as int) == e@.take(i as int)),
        decreases a@.len() - i,
    {
        let x = a[i];
        let y = e[i];
        let d = diff | (x ^ y);
        assert((d == 0) == (diff == 0 && x == y)) by (bit_vector)
            requires
                d == diff | (x ^ y),
        ;
        proof {
            assert(a@.take(i + 1) =~= a@.take(i as int).push(x));
            assert(e@.take(i + 1) =~= e@.take(i as int).push(y));
            if a@.take(i as int) == e@.take(i as int) && x == y {
                assert(a@.take(i + 1) == e@.take(i + 1));
            }
            if a@.take(i + 1) == e@.take(i + 1) {
                assert(a@.take(i + 1)[i as int] == e@.take(i + 1)[i as int]);
                assert(a@.take(i as int) =~= a@.take(i + 1).take(i as int));
                assert(e@.take(i as int) =~= e@.take(i + 1).take(i as int));
            }
        }
        diff = d;
        i = i + 1;
    }
    assert(a@.take(a@.len() as int) =~= a@);
    assert(e@.take(e@.len() as int) =~= e@);
    diff == 0
}

} // verus!
