//! Optional CONNECT / relay host allowlist (`BOX_EGRESS_RELAY_HOSTS`).
use vstd::prelude::*;

use crate::text::{
    chars_eq, chars_of, ends_with, has_prefix, has_suffix, lower, lower_all, split, split_class,
    starts_with, trim, trim_class, CharClass,
};

verus! {

/// One host pattern, as the contracts see it.
pub enum Pat {
    Exact(Seq<char>),
    /// `*.example.com`: the suffix, which also matches on its own.
    Suffix(Seq<char>),
}

#[derive(Clone, Debug)]
enum Pattern {
    Exact(Vec<char>),
    Suffix(Vec<char>),
}

impl Pattern {
    spec fn model(&self) -> Pat {
        match self {
            Pattern::Exact(e) => Pat::Exact(e@),
            Pattern::Suffix(s) => Pat::Suffix(s@),
        }
    }
}

/// Hostname patterns. An empty list means allow all (the operator opted in
/// by attaching the client). Matching is on the CONNECT host string, not the
/// resolved address.
#[derive(Clone, Debug)]
pub struct Allowlist {
    patterns: Vec<Pattern>,
}

impl View for Allowlist {
    type V = Seq<Pat>;

    closed spec fn view(&self) -> Seq<Pat> {
        self.patterns@.map_values(|p: Pattern| p.model())
    }
}

pub open spec fn star() -> Seq<char> {
    seq!['*']
}

pub open spec fn star_dot() -> Seq<char> {
    seq!['*', '.']
}

/// What one trimmed, non-empty entry of the list contributes.
pub open spec fn entry_pats(p: Seq<char>) -> Seq<Pat> {
    if has_prefix(p, star_dot()) {
        let s = lower(trim(p.skip(2), CharClass::Is('.')));
        if s.len() > 0 {
            seq![Pat::Suffix(s)]
        } else {
            seq![]
        }
    } else {
        seq![Pat::Exact(lower(trim(p, CharClass::Is('.'))))]
    }
}

/// The patterns of a list of entries; `None` when an entry is a lone `*`.
pub open spec fn parse_entries(ps: Seq<Seq<char>>) -> Option<Seq<Pat>>
    decreases ps.len(),
{
    if ps.len() == 0 {
        Some(seq![])
    } else {
        let p = trim(ps[0], CharClass::Whitespace);
        if p.len() == 0 {
            parse_entries(ps.drop_first())
        } else if p == star() {
            None
        } else {
            match parse_entries(ps.drop_first()) {
                Some(r) => Some(entry_pats(p) + r),
                None => None,
            }
        }
    }
}

/// The patterns of a comma-separated list.
pub open spec fn parse_list(raw: Seq<char>) -> Seq<Pat> {
    match parse_entries(split(raw, CharClass::Is(','))) {
        Some(r) => r,
        None => seq![],
    }
}

/// The host as it is compared: trimmed, outer dots dropped, lower case.
pub open spec fn host_key(host: Seq<char>) -> Seq<char> {
    lower(trim(trim(host, CharClass::Whitespace), CharClass::Is('.')))
}

pub open spec fn pat_matches(p: Pat, h: Seq<char>) -> bool {
    match p {
        Pat::Exact(e) => h == e,
        Pat::Suffix(s) => h == s || has_suffix(h, seq!['.'] + s),
    }
}

/// Does a list of patterns let `host` through?
pub open spec fn list_allows(pats: Seq<Pat>, host: Seq<char>) -> bool {
    ||| pats.len() == 0
    ||| {
        let h = host_key(host);
        &&& h.len() > 0
        &&& exists|i: int| 0 <= i < pats.len() && pat_matches(#[trigger] pats[i], h)
    }
}

impl Allowlist {
    pub fn any() -> (a: Self)
        ensures
            a@ == Seq::<Pat>::empty(),
    {
        let a = Allowlist { patterns: Vec::new() };
        assert(a@ =~= Seq::<Pat>::empty());
        a
    }

    fn entry(p: &[char], out: &mut Vec<Pattern>)
        requires
            !(p@ == star()),
        ensures
            final(out)@.map_values(|q: Pattern| q.model()) == old(out)@.map_values(
                |q: Pattern| q.model(),
            ) + entry_pats(p@),
    {
        let ghost before = out@.map_values(|q: Pattern| q.model());
        let prefix = ['*', '.'];
        assert(prefix@ =~= star_dot());
        if starts_with(p, prefix.as_slice()) {
            let rest = crate::text::copy_range(p, 2, p.len());
            assert(rest@ =~= p@.skip(2));
            let t = trim_class(rest.as_slice(), CharClass::Is('.'));
            let s = lower_all(t.as_slice());
            if s.len() > 0 {
                out.push(Pattern::Suffix(s));
                assert(out@.map_values(|q: Pattern| q.model()) =~= before + entry_pats(p@));
            } else {
                assert(before + entry_pats(p@) =~= before);
            }
        } else {
            let t = trim_class(p, CharClass::Is('.'));
            let e = lower_all(t.as_slice());
            out.push(Pattern::Exact(e));
            assert(out@.map_values(|q: Pattern| q.model()) =~= before + entry_pats(p@));
        }
    }

    /// Comma-separated list. `*` (alone) or an empty string means allow all.
    pub fn parse(raw: &str) -> (a: Self)
        ensures
            a@ == parse_list(raw@),
    {
        let chars = chars_of(raw);
        let parts = split_class(chars.as_slice(), CharClass::Is(','));
        let ghost ps = parts.deep_view();
        let mut out: Vec<Pattern> = Vec::new();
        let mut i: usize = 0;
        assert(ps.skip(0) =~= ps);
        assert(Seq::<Pat>::empty() + Seq::<Pat>::empty() =~= Seq::<Pat>::empty());
        while i < parts.len()
            invariant
                i <= parts@.len(),
                ps == parts.deep_view(),
                ps == split(raw@, CharClass::Is(',')),
                parse_entries(ps) == match parse_entries(ps.skip(i as int)) {
                    Some(r) => Some(out@.map_values(|q: Pattern| q.model()) + r),
                    None => None,
                },
            decreases parts@.len() - i,
        {
            let ghost acc = out@.map_values(|q: Pattern| q.model());
            let p = trim_class(parts[i].as_slice(), CharClass::Whitespace);
            proof {
                assert(parts@[i as int]@ == ps[i as int]);
                let rest = ps.skip(i as int);
                assert(rest[0] == ps[i as int]);
                assert(rest.drop_first() =~= ps.skip(i + 1));
            }
            let star_c = ['*'];
            assert(star_c@ =~= star());
            if p.len() == 0 {
            } else if chars_eq(p.as_slice(), star_c.as_slice()) {
                let a = Allowlist::any();
                assert(parse_list(raw@) =~= Seq::<Pat>::empty());
                return a;
            } else {
                Allowlist::entry(p.as_slice(), &mut out);
                proof {
                    match parse_entries(ps.skip(i + 1)) {
                        Some(r) => {
                            assert(acc + (entry_pats(p@) + r) =~= (acc + entry_pats(p@)) + r);
                        },
                        None => {},
                    }
                }
            }
            i = i + 1;
        }
        assert(ps.skip(i as int) =~= Seq::<Seq<char>>::empty());
        assert(out@.map_values(|q: Pattern| q.model()) + Seq::<Pat>::empty() =~= out@.map_values(
            |q: Pattern| q.model(),
        ));
        Allowlist { patterns: out }
    }

    pub fn is_open(&self) -> (b: bool)
        ensures
            b == (self@.len() == 0),
    {
        self.patterns.len() == 0
    }

    fn pattern_matches(p: &Pattern, h: &[char]) -> (b: bool)
        ensures
            b == pat_matches(p.model(), h@),
    {
        match p {
            Pattern::Exact(e) => chars_eq(h, e.as_slice()),
            Pattern::Suffix(s) => {
                if chars_eq(h, s.as_slice()) {
                    return true;
                }
                let mut dotted: Vec<char> = Vec::new();
                dotted.push('.');
                let mut j: usize = 0;
                while j < s.len()
                    invariant
                        j <= s@.len(),
                        dotted@ == seq!['.'] + s@.take(j as int),
                    decreases s@.len() - j,
                {
                    dotted.push(s[j]);
                    j = j + 1;
                    assert(dotted@ =~= seq!['.'] + s@.take(j as int));
                }
                assert(s@.take(s@.len() as int) =~= s@);
                ends_with(h, dotted.as_slice())
            },
        }
    }

    pub fn allows(&self, host: &str) -> (b: bool)
        ensures
            b == list_allows(self@, host@),
    {
        if self.patterns.len() == 0 {
            return true;
        }
        assert(self@.len() == self.patterns@.len());
        let chars = chars_of(host);
        let t1 = trim_class(chars.as_slice(), CharClass::Whitespace);
        let t2 = trim_class(t1.as_slice(), CharClass::Is('.'));
        let h = lower_all(t2.as_slice());
        if h.len() == 0 {
            return false;
        }
        let mut i: usize = 0;
        while i < self.patterns.len()
            invariant
                i <= self.patterns@.len(),
                h@ == host_key(host@),
                h@.len() > 0,
                self@.len() == self.patterns@.len(),
                forall|j: int| 0 <= j < i ==> !pat_matches(#[trigger] self@[j], h@),
            decreases self.patterns@.len() - i,
        {
            assert(self@[i as int] == self.patterns@[i as int].model());
            if Allowlist::pattern_matches(&self.patterns[i], h.as_slice()) {
                assert(pat_matches(self@[i as int], h@));
                return true;
            }
            i = i + 1;
        }
        false
    }
}

impl Default for Allowlist {
    fn default() -> (a: Self)
        ensures
            a@ == Seq::<Pat>::empty(),
    {
        Allowlist::any()
    }
}

/// A list with no patterns lets every host through.
pub proof fn law_open_list_allows_every_host(host: Seq<char>)
    ensures
        list_allows(Seq::<Pat>::empty(), host),
{
}

proof fn lemma_star_entry(ps: Seq<Seq<char>>, i: int)
    requires
        0 <= i < ps.len(),
        trim(ps[i], CharClass::Whitespace) == star(),
    ensures
        parse_entries(ps) is None,
    decreases ps.len(),
{
    if i > 0 {
        let t = ps.drop_first();
        assert(t[i - 1] == ps[i]);
        lemma_star_entry(t, i - 1);
    }
}

/// A lone `*` anywhere in the list opens it, whatever else the list names.
pub proof fn law_lone_star_opens_the_list(raw: Seq<char>, i: int)
    requires
        0 <= i < split(raw, CharClass::Is(',')).len(),
        trim(split(raw, CharClass::Is(','))[i], CharClass::Whitespace) == star(),
    ensures
        parse_list(raw) == Seq::<Pat>::empty(),
        forall|host: Seq<char>| #[trigger] list_allows(parse_list(raw), host),
{
    lemma_star_entry(split(raw, CharClass::Is(',')), i);
}

/// A `*.domain` pattern lets the domain itself through, and every name
/// below it.
pub proof fn law_suffix_covers_domain_and_subdomains(
    pats: Seq<Pat>,
    i: int,
    domain: Seq<char>,
    below: Seq<char>,
    host: Seq<char>,
)
    requires
        0 <= i < pats.len(),
        pats[i] == Pat::Suffix(domain),
        domain.len() > 0,
        host_key(host) == domain || host_key(host) == below + seq!['.'] + domain,
    ensures
        list_allows(pats, host),
{
    let h = host_key(host);
    if h != domain {
        let d = seq!['.'] + domain;
        assert(h.skip(h.len() - d.len()) =~= d);
    }
    assert(pat_matches(pats[i], h));
}

proof fn lemma_entry_in_list(ps: Seq<Seq<char>>, i: int, k: int)
    requires
        0 <= i < ps.len(),
        parse_entries(ps) is Some,
        trim(ps[i], CharClass::Whitespace).len() > 0,
        0 <= k < entry_pats(trim(ps[i], CharClass::Whitespace)).len(),
    ensures
        exists|j: int|
            0 <= j < parse_entries(ps)->0.len() && #[trigger] parse_entries(ps)->0[j]
                == entry_pats(trim(ps[i], CharClass::Whitespace))[k],
    decreases ps.len(),
{
    let p = trim(ps[0], CharClass::Whitespace);
    let r = parse_entries(ps)->0;
    if i == 0 {
        assert(r[k] == entry_pats(p)[k]);
    } else {
        let t = ps.drop_first();
        assert(t[i - 1] == ps[i]);
        lemma_entry_in_list(t, i - 1, k);
        let rt = parse_entries(t)->0;
        let want = entry_pats(trim(ps[i], CharClass::Whitespace))[k];
        let j = choose|j: int| 0 <= j < rt.len() && #[trigger] rt[j] == want;
        if p.len() == 0 {
            assert(r[j] == want);
        } else {
            assert(r[entry_pats(p).len() + j] == want);
        }
    }
}

/// A `*.domain` entry of the raw list lets the domain through, and every
/// name below it; compared without case and outer dots, as hosts are.
pub proof fn law_wildcard_entry_covers_domain_and_subdomains(
    raw: Seq<char>,
    i: int,
    below: Seq<char>,
    host: Seq<char>,
)
    requires
        0 <= i < split(raw, CharClass::Is(',')).len(),
        has_prefix(trim(split(raw, CharClass::Is(','))[i], CharClass::Whitespace), star_dot()),
        lower(
            trim(
                trim(split(raw, CharClass::Is(','))[i], CharClass::Whitespace).skip(2),
                CharClass::Is('.'),
            ),
        ).len() > 0,
        ({
            let d = lower(
                trim(
                    trim(split(raw, CharClass::Is(','))[i], CharClass::Whitespace).skip(2),
                    CharClass::Is('.'),
                ),
            );
            host_key(host) == d || host_key(host) == below + seq!['.'] + d
        }),
    ensures
        list_allows(parse_list(raw), host),
{
    let ps = split(raw, CharClass::Is(','));
    let p = trim(ps[i], CharClass::Whitespace);
    let d = lower(trim(p.skip(2), CharClass::Is('.')));
    if parse_entries(ps) is Some {
        assert(entry_pats(p) == seq![Pat::Suffix(d)]);
        lemma_entry_in_list(ps, i, 0);
        let r = parse_entries(ps)->0;
        let j = choose|j: int| 0 <= j < r.len() && #[trigger] r[j] == entry_pats(p)[0];
        law_suffix_covers_domain_and_subdomains(r, j, d, below, host);
    }
}

/// A `*.domain` pattern matches on a label boundary only: a name that merely
/// ends with the domain text, with no `.` before it, is not matched.
pub proof fn law_suffix_needs_a_label_boundary(domain: Seq<char>, front: Seq<char>)
    requires
        front.len() > 0,
        front.last() != '.',
    ensures
        !pat_matches(Pat::Suffix(domain), front + domain),
{
    let h = front + domain;
    let d = seq!['.'] + domain;
    if has_suffix(h, d) {
        assert(h.skip(h.len() - d.len())[0] == d[0]);
        assert(h[front.len() - 1] == '.');
    }
}

/// The list ignores ASCII case: a host and its upper-cased form are let
/// through alike. An empty host is let through only by the open list.
pub proof fn law_allowlist_ignores_case_and_refuses_empty(pats: Seq<Pat>, host: Seq<char>)
    ensures
        list_allows(pats, crate::text::upper(host)) == list_allows(pats, host),
        list_allows(pats, Seq::<char>::empty()) == (pats.len() == 0),
{
    assert(crate::text::case_blind(CharClass::Whitespace)) by {
        assert forall|c: char| #[trigger] crate::text::in_class(
            CharClass::Whitespace,
            crate::text::upper_char(c),
        ) == crate::text::in_class(CharClass::Whitespace, c) by {
            if 'a' <= c && c <= 'z' {
                assert(crate::text::upper_char(c) as u32 == (c as u32) - 32);
            }
        }
    }
    assert(crate::text::case_blind(CharClass::Is('.'))) by {
        assert forall|c: char| #[trigger] crate::text::in_class(
            CharClass::Is('.'),
            crate::text::upper_char(c),
        ) == crate::text::in_class(CharClass::Is('.'), c) by {
            if 'a' <= c && c <= 'z' {
                assert(crate::text::upper_char(c) as u32 == (c as u32) - 32);
            }
        }
    }
    let t1 = trim(host, CharClass::Whitespace);
    crate::text::lemma_trim_upper(host, CharClass::Whitespace);
    crate::text::lemma_trim_upper(t1, CharClass::Is('.'));
    crate::text::lemma_lower_upper(trim(t1, CharClass::Is('.')));
    assert(host_key(crate::text::upper(host)) == host_key(host));
    let e = Seq::<char>::empty();
    crate::text::lemma_trim_start_at(e, CharClass::Whitespace, 0);
    crate::text::lemma_trim_end_at(e, CharClass::Whitespace, 0);
    assert(e.skip(0) =~= e);
    assert(e.take(0) =~= e);
    crate::text::lemma_trim_start_at(e, CharClass::Is('.'), 0);
    crate::text::lemma_trim_end_at(e, CharClass::Is('.'), 0);
    assert(host_key(e).len() == 0);
}

proof fn lemma_blank_entries(ps: Seq<Seq<char>>)
    requires
        forall|i: int| 0 <= i < ps.len() ==> trim(#[trigger] ps[i], CharClass::Whitespace).len() == 0,
    ensures
        parse_entries(ps) == Some(Seq::<Pat>::empty()),
    decreases ps.len(),
{
    if ps.len() > 0 {
        assert(trim(ps[0], CharClass::Whitespace).len() == 0);
        assert forall|i: int| 0 <= i < ps.drop_first().len() implies trim(
            #[trigger] ps.drop_first()[i],
            CharClass::Whitespace,
        ).len() == 0 by {
            assert(ps.drop_first()[i] == ps[i + 1]);
        }
        lemma_blank_entries(ps.drop_first());
    }
}

/// A list whose entries are all blank (the empty setting, or only commas
/// and spaces) is the open list, the same as `Allowlist::any()`.
pub proof fn law_blank_list_is_the_open_list(raw: Seq<char>)
    requires
        forall|i: int|
            0 <= i < split(raw, CharClass::Is(',')).len() ==> trim(
                #[trigger] split(raw, CharClass::Is(','))[i],
                CharClass::Whitespace,
            ).len() == 0,
    ensures
        parse_list(raw) == Seq::<Pat>::empty(),
{
    lemma_blank_entries(split(raw, CharClass::Is(',')));
}

} // verus!
