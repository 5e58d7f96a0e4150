//! Browser origins for the daemons' CORS layer. None by default:
//! server-to-server callers need no CORS. `BOX_CORS_ORIGINS` is an explicit
//! list, and `*` in it is ignored, so the layer is never permissive.
use vstd::prelude::*;

use crate::text::{chars_eq, chars_of, split, split_class, string_of, trim, trim_class, CharClass};

verus! {

/// A character that may stand in an HTTP header value: visible ASCII, a
/// space or a tab, or anything beyond ASCII (whose UTF-8 bytes are all
/// `0x80` or above).
pub open spec fn header_char_ok(c: char) -> bool {
    (c as u32 >= 32 && c as u32 != 127) || c == '\t'
}

/// An entry of the list that names an origin.
pub open spec fn origin_ok(o: Seq<char>) -> bool {
    &&& o.len() > 0
    &&& o != seq!['*']
    &&& forall|i: int| 0 <= i < o.len() ==> header_char_ok(#[trigger] o[i])
}

/// The origins named by the entries, trimmed, in order.
pub open spec fn origins_of(ps: Seq<Seq<char>>) -> Seq<Seq<char>>
    decreases ps.len(),
{
    if ps.len() == 0 {
        Seq::empty()
    } else {
        let t = trim(ps.last(), CharClass::Whitespace);
        origins_of(ps.drop_last()) + if origin_ok(t) {
            seq![t]
        } else {
            Seq::empty()
        }
    }
}

/// The origins a comma-separated setting names.
pub open spec fn cors_list(raw: Seq<char>) -> Seq<Seq<char>> {
    origins_of(split(raw, CharClass::Is(',')))
}

/// Whether `s` can stand as an HTTP header value: the rule of
/// `http::HeaderValue::from_str`, which accepts a value exactly when each of
/// its bytes is a tab or at least 32 and not 127, read per character.
fn header_value_ok(s: &[char]) -> (b: bool)
    ensures
        b == (forall|i: int| 0 <= i < s@.len() ==> header_char_ok(#[trigger] s@[i])),
{
    let mut i: usize = 0;
    while i < s.len()
        invariant
            i <= s@.len(),
            forall|j: int| 0 <= j < i ==> header_char_ok(#[trigger] s@[j]),
        decreases s@.len() - i,
    {
        let c = s[i];
        let code = c as u32;
        if !((code >= 32 && code != 127) || c == '\t') {
            assert(!header_char_ok(s@[i as int]));
            return false;
        }
        i = i + 1;
    }
    true
}

/// The browser origins `BOX_CORS_ORIGINS` allows: each comma-separated
/// entry trimmed, empty entries, `*` and entries that cannot be a header
/// value left out.
pub fn cors_origins(raw: &str) -> (r: Vec<String>)
    ensures
        r@.map_values(|s: String| s@) == cors_list(raw@),
{
    let chars = chars_of(raw);
    let parts = split_class(chars.as_slice(), CharClass::Is(','));
    let ghost ps = parts.deep_view();
    let mut out: Vec<String> = Vec::new();
    let star = ['*'];
    assert(star@ =~= seq!['*']);
    let mut i: usize = 0;
    assert(ps.take(0) =~= Seq::<Seq<char>>::empty());
    assert(out@.map_values(|s: String| s@) =~= Seq::<Seq<char>>::empty());
    while i < parts.len()
        invariant
            i <= parts@.len(),
            ps == parts.deep_view(),
            ps == split(raw@, CharClass::Is(',')),
            star@ == seq!['*'],
            out@.map_values(|s: String| s@) == origins_of(ps.take(i as int)),
        decreases parts@.len() - i,
    {
        let ghost before = out@.map_values(|s: String| s@);
        assert(ps.take(i + 1).drop_last() =~= ps.take(i as int));
        assert(ps.take(i + 1).last() == parts@[i as int]@);
        let t = trim_class(parts[i].as_slice(), CharClass::Whitespace);
        if t.len() > 0 && !chars_eq(t.as_slice(), star.as_slice()) {
            if header_value_ok(t.as_slice()) {
                let s = string_of(t.as_slice());
                out.push(s);
                assert(out@.map_values(|s: String| s@) =~= before + seq![t@]);
            } else {
                assert(!origin_ok(t@));
                assert(before + Seq::<Seq<char>>::empty() =~= before);
            }
        } else {
            assert(!origin_ok(t@));
            assert(before + Seq::<Seq<char>>::empty() =~= before);
        }
        i = i + 1;
    }
    assert(ps.take(parts@.len() as int) =~= ps);
    out
}

/// `*` never reaches the layer: every origin it is given names one site.
pub proof fn law_star_is_never_an_origin(raw: Seq<char>)
    ensures
        forall|i: int| 0 <= i < cors_list(raw).len() ==> origin_ok(#[trigger] cors_list(raw)[i]),
{
    lemma_origins_ok(split(raw, CharClass::Is(',')));
}

proof fn lemma_origins_ok(ps: Seq<Seq<char>>)
    ensures
        forall|i: int| 0 <= i < origins_of(ps).len() ==> origin_ok(#[trigger] origins_of(ps)[i]),
    decreases ps.len(),
{
    if ps.len() > 0 {
        lemma_origins_ok(ps.drop_last());
        let a = origins_of(ps.drop_last());
        let t = trim(ps.last(), CharClass::Whitespace);
        assert forall|i: int| 0 <= i < origins_of(ps).len() implies origin_ok(
            #[trigger] origins_of(ps)[i],
        ) by {
            if i < a.len() {
                assert(origins_of(ps)[i] == a[i]);
            } else {
                assert(origins_of(ps)[i] == t);
            }
        }
    }
}

} // verus!
