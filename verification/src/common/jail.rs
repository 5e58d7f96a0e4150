//! The workspace jail, lexically: a user path joined to the root, its `.`
//! and `..` resolved without touching the disk, and the result checked to
//! stay under the root component by component.
//!
//! What the disk says about symlinks is the caller's to ask; each answer it
//! gets is checked here again with [`is_inside`].
use vstd::prelude::*;

use crate::cua::recipe::utf8_len_upto;
use crate::text::{
    find, in_class, lemma_find_at, lemma_find_bounds,
    chars_eq, chars_of, contains_class, extend_chars, split, split_class, string_of, CharClass,
};

verus! {

/// Longest user path accepted, in bytes.
pub const MAX_PATH_BYTES: usize = 4096;

/// Why a path was refused.
#[derive(Debug, Clone)]
pub enum JailError {
    Empty,
    Escape,
    TooLong,
    Invalid,
    Io(String),
}

pub open spec fn dot() -> Seq<char> {
    seq!['.']
}

pub open spec fn dotdot() -> Seq<char> {
    seq!['.', '.']
}

pub open spec fn is_abs(p: Seq<char>) -> bool {
    p.len() > 0 && p[0] == '/'
}

/// The `/`-separated pieces that name something: not empty, not `.`.
pub open spec fn named(ps: Seq<Seq<char>>) -> Seq<Seq<char>>
    decreases ps.len(),
{
    if ps.len() == 0 {
        ps
    } else if ps.last().len() == 0 || ps.last() == dot() {
        named(ps.drop_last())
    } else {
        named(ps.drop_last()).push(ps.last())
    }
}

/// `Path::components` on Unix, with the root as a flag: repeated and
/// trailing separators vanish, `.` vanishes except as the first component
/// of a relative path, `..` stays.
pub open spec fn comps(p: Seq<char>) -> Seq<Seq<char>> {
    let ps = split(p, CharClass::Is('/'));
    if !is_abs(p) && ps[0] == dot() {
        seq![dot()] + named(ps)
    } else {
        named(ps)
    }
}

/// Components folded as `normalize_lexical` folds them: `.` is dropped and
/// `..` removes the component before it, if any.
pub open spec fn fold(cs: Seq<Seq<char>>) -> Seq<Seq<char>>
    decreases cs.len(),
{
    if cs.len() == 0 {
        cs
    } else {
        let a = fold(cs.drop_last());
        let c = cs.last();
        if c == dot() {
            a
        } else if c == dotdot() {
            if a.len() > 0 {
                a.drop_last()
            } else {
                a
            }
        } else {
            a.push(c)
        }
    }
}

/// Components joined with `/`.
pub open spec fn join(parts: Seq<Seq<char>>) -> Seq<char>
    decreases parts.len(),
{
    if parts.len() == 0 {
        Seq::empty()
    } else if parts.len() == 1 {
        parts[0]
    } else {
        join(parts.drop_last()) + seq!['/'] + parts.last()
    }
}

/// A path's text from its root flag and components.
pub open spec fn render(abs: bool, parts: Seq<Seq<char>>) -> Seq<char> {
    if abs {
        seq!['/'] + join(parts)
    } else {
        join(parts)
    }
}

/// `Path::starts_with`: the same root, and `root`'s components lead `p`'s.
pub open spec fn starts_with_path(p: Seq<char>, root: Seq<char>) -> bool {
    &&& is_abs(p) == is_abs(root)
    &&& comps(root).len() <= comps(p).len()
    &&& comps(p).take(comps(root).len() as int) == comps(root)
}

/// `Path::join`: an absolute `p` replaces the base.
pub open spec fn path_join(root: Seq<char>, p: Seq<char>) -> Seq<char> {
    if is_abs(p) {
        p
    } else if root.len() == 0 {
        p
    } else if root.last() == '/' {
        root + p
    } else {
        root + seq!['/'] + p
    }
}

fn is_dot(p: &[char]) -> (b: bool)
    ensures
        b == (p@ == dot()),
{
    let r = p.len() == 1 && p[0] == '.';
    proof {
        if p@.len() == 1 && p@[0] == '.' {
            assert(p@ =~= dot());
        }
    }
    r
}

fn is_dotdot(p: &[char]) -> (b: bool)
    ensures
        b == (p@ == dotdot()),
{
    let r = p.len() == 2 && p[0] == '.' && p[1] == '.';
    proof {
        if p@.len() == 2 && p@[0] == '.' && p@[1] == '.' {
            assert(p@ =~= dotdot());
        }
    }
    r
}

/// The components of a path, `Path::components` style.
pub fn components_of(p: &[char]) -> (r: Vec<Vec<char>>)
    ensures
        r.deep_view() == comps(p@),
{
    let ps = split_class(p, CharClass::Is('/'));
    let ghost d = ps.deep_view();
    proof {
        crate::text::lemma_split_nonempty(p@, CharClass::Is('/'));
    }
    let mut out: Vec<Vec<char>> = Vec::new();
    let abs = p.len() > 0 && p[0] == '/';
    assert(ps@[0]@ == d[0]);
    let lead = !abs && is_dot(ps[0].as_slice());
    if lead {
        let mut d1: Vec<char> = Vec::new();
        d1.push('.');
        proof {
            crate::text::lemma_deep_chars(d1);
        }
        assert(d1@ =~= dot());
        out.push(d1);
        assert(out.deep_view() =~= seq![dot()]);
    }
    let ghost start = out.deep_view();
    let mut i: usize = 0;
    assert(named(d.take(0)) =~= Seq::<Seq<char>>::empty());
    assert(start + named(d.take(0)) =~= start);
    while i < ps.len()
        invariant
            i <= ps@.len(),
            d == ps.deep_view(),
            out.deep_view() == start + named(d.take(i as int)),
        decreases ps@.len() - i,
    {
        assert(d.take(i + 1).drop_last() =~= d.take(i as int));
        assert(d.take(i + 1).last() == ps@[i as int]@);
        let piece = &ps[i];
        if piece.len() > 0 && !is_dot(piece.as_slice()) {
            let ghost o = out.deep_view();
            let c = piece.clone();
            proof {
                crate::text::lemma_deep_chars(c);
            }
            out.push(c);
            assert(out.deep_view() =~= o.push(d[i as int]));
        }
        i = i + 1;
    }
    assert(d.take(ps@.len() as int) =~= d);
    out
}

/// Fold `.` and `..` away.
pub fn fold_components(cs: &Vec<Vec<char>>) -> (r: Vec<Vec<char>>)
    ensures
        r.deep_view() == fold(cs.deep_view()),
{
    let ghost d = cs.deep_view();
    let mut out: Vec<Vec<char>> = Vec::new();
    let mut i: usize = 0;
    assert(fold(d.take(0)) =~= Seq::<Seq<char>>::empty());
    while i < cs.len()
        invariant
            i <= cs@.len(),
            d == cs.deep_view(),
            out.deep_view() == fold(d.take(i as int)),
        decreases cs@.len() - i,
    {
        assert(d.take(i + 1).drop_last() =~= d.take(i as int));
        assert(d.take(i + 1).last() == cs@[i as int]@);
        let c = &cs[i];
        if is_dot(c.as_slice()) {
        } else if is_dotdot(c.as_slice()) {
            if out.len() > 0 {
                let ghost o = out.deep_view();
                out.pop();
                assert(out.deep_view() =~= o.drop_last());
            }
        } else {
            let ghost o = out.deep_view();
            let k = c.clone();
            proof {
                crate::text::lemma_deep_chars(k);
            }
            out.push(k);
            assert(out.deep_view() =~= o.push(d[i as int]));
        }
        i = i + 1;
    }
    assert(d.take(cs@.len() as int) =~= d);
    out
}

/// The text of a path from its root flag and components.
pub fn render_path(abs: bool, parts: &Vec<Vec<char>>) -> (r: Vec<char>)
    ensures
        r@ == render(abs, parts.deep_view()),
{
    let ghost d = parts.deep_view();
    let mut body: Vec<char> = Vec::new();
    let mut i: usize = 0;
    assert(join(d.take(0)) =~= Seq::<char>::empty());
    while i < parts.len()
        invariant
            i <= parts@.len(),
            d == parts.deep_view(),
            body@ == join(d.take(i as int)),
        decreases parts@.len() - i,
    {
        assert(d.take(i + 1).drop_last() =~= d.take(i as int));
        assert(d.take(i + 1).last() == parts@[i as int]@);
        if i > 0 {
            body.push('/');
        }
        extend_chars(&mut body, parts[i].as_slice());
        proof {
            if i == 0 {
                assert(d.take(1) =~= seq![d[0]]);
                assert(body@ =~= d[0]);
            } else {
                assert(body@ =~= join(d.take(i as int)) + seq!['/'] + d[i as int]);
            }
        }
        i = i + 1;
    }
    assert(d.take(parts@.len() as int) =~= d);
    if abs {
        let mut r: Vec<char> = Vec::new();
        r.push('/');
        extend_chars(&mut r, body.as_slice());
        assert(r@ =~= seq!['/'] + join(d));
        r
    } else {
        body
    }
}

/// `normalize_lexical`: resolve `.` and `..` on the text alone.
pub fn normalize_lexical(path: &str) -> (r: String)
    ensures
        r@ == render(is_abs(path@), fold(comps(path@))),
{
    let p = chars_of(path);
    let cs = components_of(p.as_slice());
    let f = fold_components(&cs);
    let abs = p.len() > 0 && p[0] == '/';
    string_of(render_path(abs, &f).as_slice())
}

fn prefix_parts(p: &Vec<Vec<char>>, root: &Vec<Vec<char>>) -> (b: bool)
    ensures
        b == (root.deep_view().len() <= p.deep_view().len() && p.deep_view().take(
            root.deep_view().len() as int,
        ) == root.deep_view()),
{
    if root.len() > p.len() {
        return false;
    }
    let mut i: usize = 0;
    while i < root.len()
        invariant
            i <= root@.len() <= p@.len(),
            forall|j: int| 0 <= j < i ==> p.deep_view()[j] == root.deep_view()[j],
        decreases root@.len() - i,
    {
        assert(p.deep_view()[i as int] == p@[i as int]@);
        assert(root.deep_view()[i as int] == root@[i as int]@);
        if !chars_eq(p[i].as_slice(), root[i].as_slice()) {
            assert(p.deep_view().take(root@.len() as int)[i as int] != root.deep_view()[i as int]);
            return false;
        }
        i = i + 1;
    }
    assert(p.deep_view().take(root@.len() as int) =~= root.deep_view());
    true
}

/// `Path::starts_with`: whether `path` lies at or under `root`.
pub fn is_inside(path: &str, root: &str) -> (b: bool)
    ensures
        b == starts_with_path(path@, root@),
{
    let p = chars_of(path);
    let r = chars_of(root);
    let pa = p.len() > 0 && p[0] == '/';
    let ra = r.len() > 0 && r[0] == '/';
    if pa != ra {
        return false;
    }
    let pc = components_of(p.as_slice());
    let rc = components_of(r.as_slice());
    prefix_parts(&pc, &rc)
}

/// What a user path is refused for before any root or disk is looked at:
/// a NUL is invalid, and more than `MAX_PATH_BYTES` is too long.
pub open spec fn path_refusal(user: Seq<char>) -> Option<JailError> {
    if user.contains('\0') {
        Some(JailError::Invalid)
    } else if crate::cua::recipe::utf8_len(user) > MAX_PATH_BYTES {
        Some(JailError::TooLong)
    } else {
        None
    }
}

/// The checks made on a user path before the root is created and
/// canonicalized.
pub fn path_precheck(user_path: &str) -> (r: Option<JailError>)
    ensures
        match path_refusal(user_path@) {
            Some(e) => r matches Some(e2) && same_jail_error(e2, e),
            None => r is None,
        },
{
    match resolve_lexically("/", user_path) {
        Err(JailError::Invalid) => Some(JailError::Invalid),
        Err(JailError::TooLong) => Some(JailError::TooLong),
        _ => None,
    }
}

/// Resolving against a root that is created and canonicalized first agrees
/// with resolving against the canonical root: the checks made before the
/// root is touched refuse exactly what the walk over the canonical root
/// would refuse for the same reason, and an empty root refuses every path
/// those checks pass.
pub proof fn law_precheck_agrees_with_the_walk(root: Seq<char>, user: Seq<char>)
    ensures
        path_refusal(user) matches Some(e) ==> (lexical_jail(root, user) matches Err(e2)
            && same_jail_error(e2, e)),
        path_refusal(user) is None && root.len() > 0 ==> !(lexical_jail(root, user) matches Err(
            JailError::Invalid,
        )) && !(lexical_jail(root, user) matches Err(JailError::TooLong)),
        path_refusal(user) is None && root.len() == 0 ==> (lexical_jail(root, user) matches Err(
            JailError::Empty,
        )),
{
}

/// What resolving `user` against the canonical `root` gives lexically.
pub open spec fn lexical_jail(root: Seq<char>, user: Seq<char>) -> Result<Seq<char>, JailError> {
    if user.contains('\0') {
        Err(JailError::Invalid)
    } else if crate::cua::recipe::utf8_len(user) > MAX_PATH_BYTES {
        Err(JailError::TooLong)
    } else if root.len() == 0 {
        Err(JailError::Empty)
    } else if user.len() == 0 {
        Ok(root)
    } else {
        let joined = path_join(root, user);
        let parts = fold(comps(joined));
        let rc = comps(root);
        if is_abs(joined) == is_abs(root) && rc.len() <= parts.len() && parts.take(rc.len() as int)
            == rc {
            Ok(render(is_abs(joined), parts))
        } else {
            Err(JailError::Escape)
        }
    }
}

pub open spec fn same_jail_error(a: JailError, b: JailError) -> bool {
    match (a, b) {
        (JailError::Empty, JailError::Empty) => true,
        (JailError::Escape, JailError::Escape) => true,
        (JailError::TooLong, JailError::TooLong) => true,
        (JailError::Invalid, JailError::Invalid) => true,
        _ => false,
    }
}

/// The lexical part of resolving `user_path` inside the canonical `root`:
/// a NUL is invalid, more than `MAX_PATH_BYTES` is too long, an empty root
/// is refused, an empty path is the root itself; otherwise the path is
/// joined to the root, `.` and `..` are folded, and a result that leaves the
/// root is an escape.
pub fn resolve_lexically(root: &str, user_path: &str) -> (r: Result<String, JailError>)
    ensures
        match lexical_jail(root@, user_path@) {
            Ok(p) => r is Ok && r->Ok_0@ == p,
            Err(e) => r is Err && same_jail_error(r->Err_0, e),
        },
{
    let u = chars_of(user_path);
    let nul = contains_class(u.as_slice(), CharClass::Is('\0'));
    proof {
        if nul {
            let k = choose|k: int|
                0 <= k < u@.len() && crate::text::in_class(CharClass::Is('\0'), #[trigger] u@[k]);
            assert(u@[k] == '\0');
        }
        if u@.contains('\0') {
            let k = choose|k: int| 0 <= k < u@.len() && u@[k] == '\0';
            assert(crate::text::in_class(CharClass::Is('\0'), u@[k]));
        }
    }
    if nul {
        return Err(JailError::Invalid);
    }
    if utf8_len_upto(u.as_slice(), MAX_PATH_BYTES).is_none() {
        return Err(JailError::TooLong);
    }
    let rc = chars_of(root);
    if rc.len() == 0 {
        return Err(JailError::Empty);
    }
    if u.len() == 0 {
        return Ok(root.to_owned());
    }
    let mut joined: Vec<char> = Vec::new();
    if u[0] == '/' {
        extend_chars(&mut joined, u.as_slice());
    } else if rc[rc.len() - 1] == '/' {
        extend_chars(&mut joined, rc.as_slice());
        extend_chars(&mut joined, u.as_slice());
    } else {
        extend_chars(&mut joined, rc.as_slice());
        joined.push('/');
        extend_chars(&mut joined, u.as_slice());
    }
    assert(joined@ =~= path_join(root@, user_path@));
    let jabs = joined.len() > 0 && joined[0] == '/';
    let rabs = rc[0] == '/';
    let parts = fold_components(&components_of(joined.as_slice()));
    let rparts = components_of(rc.as_slice());
    if jabs != rabs || !prefix_parts(&parts, &rparts) {
        return Err(JailError::Escape);
    }
    Ok(string_of(render_path(jabs, &parts).as_slice()))
}

/// A path shown relative to the workspace it lies in: the workspace itself,
/// or the workspace text, `/` and the components below it; a path outside is
/// shown as it is.
pub open spec fn shown_under(ws: Seq<char>, p: Seq<char>) -> Seq<char> {
    if starts_with_path(p, ws) {
        let rest = comps(p).skip(comps(ws).len() as int);
        if rest.len() == 0 {
            ws
        } else {
            ws + seq!['/'] + join(rest)
        }
    } else {
        p
    }
}

/// `display_under_workspace`: how a resolved path is reported back.
pub fn display_under_workspace(workspace: &str, resolved: &str) -> (s: String)
    ensures
        s@ == shown_under(workspace@, resolved@),
{
    if !is_inside(resolved, workspace) {
        return resolved.to_owned();
    }
    let pc = components_of(chars_of(resolved).as_slice());
    let wc = components_of(chars_of(workspace).as_slice());
    let mut rest: Vec<Vec<char>> = Vec::new();
    let mut i = wc.len();
    let ghost pd = pc.deep_view();
    let ghost n = wc.deep_view().len();
    assert(pd.subrange(n as int, n as int) =~= Seq::<Seq<char>>::empty());
    while i < pc.len()
        invariant
            n <= i <= pc@.len(),
            pd == pc.deep_view(),
            n == wc.deep_view().len(),
            rest.deep_view() == pd.subrange(n as int, i as int),
        decreases pc@.len() - i,
    {
        let ghost o = rest.deep_view();
        assert(pd[i as int] == pc@[i as int]@);
        let c = pc[i].clone();
        proof {
            crate::text::lemma_deep_chars(c);
        }
        rest.push(c);
        assert(rest.deep_view() =~= o.push(pd[i as int]));
        assert(rest.deep_view() =~= pd.subrange(n as int, i + 1));
        i = i + 1;
    }
    assert(pd.subrange(n as int, pd.len() as int) =~= pd.skip(n as int));
    if rest.len() == 0 {
        return workspace.to_owned();
    }
    let mut v = chars_of(workspace);
    v.push('/');
    let body = render_path(false, &rest);
    extend_chars(&mut v, body.as_slice());
    string_of(v.as_slice())
}

} // verus!

verus! {

/// A component as folding leaves it: a name, neither `.` nor `..`, with no
/// separator in it.
pub open spec fn plain_part(c: Seq<char>) -> bool {
    c.len() > 0 && c != dot() && c != dotdot() && !c.contains('/')
}

proof fn lemma_no_sep_find(s: Seq<char>)
    requires
        !s.contains('/'),
    ensures
        find(s, CharClass::Is('/')) == -1,
        split(s, CharClass::Is('/')) == seq![s],
{
    assert forall|j: int| 0 <= j < s.len() implies !in_class(CharClass::Is('/'), #[trigger] s[j]) by {
        if s[j] == '/' {
            assert(s.contains('/'));
        }
    }
    lemma_find_at(s, CharClass::Is('/'), s.len() as int);
}

proof fn lemma_split_no_sep(s: Seq<char>)
    ensures
        forall|i: int|
            0 <= i < split(s, CharClass::Is('/')).len() ==> !(#[trigger] split(
                s,
                CharClass::Is('/'),
            )[i]).contains('/'),
    decreases s.len(),
{
    let k = CharClass::Is('/');
    lemma_find_bounds(s, k);
    let f = find(s, k);
    if f < 0 || f >= s.len() {
        assert forall|i: int|
            0 <= i < split(s, k).len() implies !(#[trigger] split(s, k)[i]).contains('/') by {
            assert(split(s, k)[i] == s);
            if s.contains('/') {
                let j = choose|j: int| 0 <= j < s.len() && s[j] == '/';
                assert(in_class(k, s[j]));
            }
        }
    } else {
        lemma_split_no_sep(s.skip(f + 1));
        assert forall|i: int|
            0 <= i < split(s, k).len() implies !(#[trigger] split(s, k)[i]).contains('/') by {
            if i == 0 {
                let h = s.take(f);
                assert(split(s, k)[0] == h);
                if h.contains('/') {
                    let j = choose|j: int| 0 <= j < h.len() && h[j] == '/';
                    assert(h[j] == s[j]);
                    assert(in_class(k, s[j]));
                }
            } else {
                assert(split(s, k)[i] == split(s.skip(f + 1), k)[i - 1]);
            }
        }
    }
}

proof fn lemma_named_parts(ps: Seq<Seq<char>>)
    requires
        forall|i: int| 0 <= i < ps.len() ==> !(#[trigger] ps[i]).contains('/'),
    ensures
        forall|i: int|
            0 <= i < named(ps).len() ==> (#[trigger] named(ps)[i]).len() > 0 && named(ps)[i]
                != dot() && !named(ps)[i].contains('/'),
    decreases ps.len(),
{
    if ps.len() > 0 {
        let d = ps.drop_last();
        assert forall|i: int| 0 <= i < d.len() implies !(#[trigger] d[i]).contains('/') by {
            assert(d[i] == ps[i]);
        }
        lemma_named_parts(d);
        let c = ps.last();
        assert(!ps[ps.len() - 1].contains('/'));
        assert forall|i: int| 0 <= i < named(ps).len() implies (#[trigger] named(ps)[i]).len() > 0
            && named(ps)[i] != dot() && !named(ps)[i].contains('/') by {
            if c.len() == 0 || c == dot() {
                assert(named(ps) == named(d));
            } else {
                assert(named(ps) == named(d).push(c));
                if i < named(d).len() {
                    assert(named(ps)[i] == named(d)[i]);
                } else {
                    assert(named(ps)[i] == c);
                }
            }
        }
    }
}

proof fn lemma_comps_parts(p: Seq<char>)
    ensures
        forall|i: int|
            0 <= i < comps(p).len() ==> (#[trigger] comps(p)[i]).len() > 0 && !comps(p)[i].contains(
                '/',
            ),
{
    let ps = split(p, CharClass::Is('/'));
    lemma_split_no_sep(p);
    lemma_named_parts(ps);
    if !is_abs(p) && ps[0] == dot() {
        assert forall|i: int|
            0 <= i < comps(p).len() implies (#[trigger] comps(p)[i]).len() > 0 && !comps(
            p,
        )[i].contains('/') by {
            if i == 0 {
                assert(comps(p)[0] == dot());
                if dot().contains('/') {
                    let j = choose|j: int| 0 <= j < dot().len() && dot()[j] == '/';
                }
            } else {
                assert(comps(p)[i] == named(ps)[i - 1]);
            }
        }
    }
}

proof fn lemma_fold_plain(cs: Seq<Seq<char>>)
    requires
        forall|i: int| 0 <= i < cs.len() ==> (#[trigger] cs[i]).len() > 0 && !cs[i].contains('/'),
    ensures
        forall|i: int| 0 <= i < fold(cs).len() ==> plain_part(#[trigger] fold(cs)[i]),
    decreases cs.len(),
{
    if cs.len() > 0 {
        let d = cs.drop_last();
        assert forall|i: int| 0 <= i < d.len() implies (#[trigger] d[i]).len() > 0 && !d[i].contains(
            '/',
        ) by {
            assert(d[i] == cs[i]);
        }
        lemma_fold_plain(d);
        let c = cs.last();
        assert(c == cs[cs.len() - 1]);
        let a = fold(d);
        assert forall|i: int| 0 <= i < fold(cs).len() implies plain_part(#[trigger] fold(cs)[i]) by {
            if c == dot() {
                assert(fold(cs) == a);
            } else if c == dotdot() {
                if a.len() > 0 {
                    assert(fold(cs) == a.drop_last());
                    assert(fold(cs)[i] == a[i]);
                } else {
                    assert(fold(cs) == a);
                }
            } else {
                assert(fold(cs) == a.push(c));
                if i < a.len() {
                    assert(fold(cs)[i] == a[i]);
                } else {
                    assert(fold(cs)[i] == c);
                }
            }
        }
    }
}

proof fn lemma_split_append(x: Seq<char>, c: Seq<char>)
    requires
        !c.contains('/'),
    ensures
        split(x + seq!['/'] + c, CharClass::Is('/')) == split(x, CharClass::Is('/')).push(c),
    decreases x.len(),
{
    let k = CharClass::Is('/');
    let y = x + seq!['/'] + c;
    lemma_find_bounds(x, k);
    let f = find(x, k);
    if f < 0 {
        assert forall|j: int| 0 <= j < x.len() implies !in_class(k, #[trigger] y[j]) by {
            assert(y[j] == x[j]);
        }
        assert(y[x.len() as int] == '/');
        lemma_find_at(y, k, x.len() as int);
        assert(y.take(x.len() as int) =~= x);
        assert(y.skip(x.len() as int + 1) =~= c);
        lemma_no_sep_find(c);
        assert(split(x, k) == seq![x]);
        assert(split(y, k) =~= split(x, k).push(c));
    } else {
        assert forall|j: int| 0 <= j < f implies !in_class(k, #[trigger] y[j]) by {
            assert(y[j] == x[j]);
        }
        assert(y[f] == x[f]);
        lemma_find_at(y, k, f);
        let r = x.skip(f + 1);
        lemma_split_append(r, c);
        assert(y.take(f) =~= x.take(f));
        assert(y.skip(f + 1) =~= r + seq!['/'] + c);
        assert(split(y, k) =~= split(x, k).push(c));
    }
}

proof fn lemma_split_join(parts: Seq<Seq<char>>)
    requires
        parts.len() > 0,
        forall|i: int| 0 <= i < parts.len() ==> plain_part(#[trigger] parts[i]),
    ensures
        split(join(parts), CharClass::Is('/')) == parts,
        join(parts).len() > 0,
        join(parts)[0] == parts[0][0],
    decreases parts.len(),
{
    assert(plain_part(parts[0]));
    if parts.len() == 1 {
        lemma_no_sep_find(parts[0]);
        assert(seq![parts[0]] =~= parts);
    } else {
        let d = parts.drop_last();
        assert forall|i: int| 0 <= i < d.len() implies plain_part(#[trigger] d[i]) by {
            assert(d[i] == parts[i]);
        }
        lemma_split_join(d);
        assert(plain_part(parts[parts.len() - 1]));
        lemma_split_append(join(d), parts.last());
        assert(d.push(parts.last()) =~= parts);
        assert(d[0] == parts[0]);
    }
}

proof fn lemma_named_plain(ps: Seq<Seq<char>>)
    requires
        forall|i: int| 0 <= i < ps.len() ==> plain_part(#[trigger] ps[i]),
    ensures
        named(ps) == ps,
    decreases ps.len(),
{
    if ps.len() > 0 {
        let d = ps.drop_last();
        assert forall|i: int| 0 <= i < d.len() implies plain_part(#[trigger] d[i]) by {
            assert(d[i] == ps[i]);
        }
        lemma_named_plain(d);
        assert(plain_part(ps[ps.len() - 1]));
        assert(d.push(ps.last()) =~= ps);
    }
}

proof fn lemma_named_lead_empty(ps: Seq<Seq<char>>)
    ensures
        named(seq![Seq::<char>::empty()] + ps) == named(ps),
    decreases ps.len(),
{
    let e = Seq::<char>::empty();
    let s = seq![e] + ps;
    if ps.len() == 0 {
        assert(s.last() == e);
        assert(s.drop_last() =~= Seq::<Seq<char>>::empty());
        assert(named(s) == named(s.drop_last()));
        assert(named(ps) == ps);
    } else {
        lemma_named_lead_empty(ps.drop_last());
        assert(s.drop_last() =~= seq![e] + ps.drop_last());
        assert(s.last() == ps.last());
        if ps.last().len() == 0 || ps.last() == dot() {
            assert(named(s) == named(s.drop_last()));
            assert(named(ps) == named(ps.drop_last()));
        } else {
            assert(named(s) == named(s.drop_last()).push(s.last()));
            assert(named(ps) == named(ps.drop_last()).push(ps.last()));
        }
    }
}

proof fn lemma_comps_render(abs: bool, parts: Seq<Seq<char>>)
    requires
        forall|i: int| 0 <= i < parts.len() ==> plain_part(#[trigger] parts[i]),
    ensures
        comps(render(abs, parts)) == parts,
        is_abs(render(abs, parts)) == abs,
{
    let k = CharClass::Is('/');
    let e = Seq::<char>::empty();
    let r = render(abs, parts);
    lemma_named_plain(parts);
    if parts.len() > 0 {
        lemma_split_join(parts);
        assert(plain_part(parts[0]));
        if parts[0][0] == '/' {
            assert(parts[0].contains('/'));
        }
    }
    if abs {
        assert(r[0] == '/');
        lemma_find_at(r, k, 0);
        assert(r.take(0) =~= e);
        assert(r.skip(1) =~= join(parts));
        if parts.len() == 0 {
            assert(join(parts) =~= e);
            lemma_no_sep_find(e);
            assert(split(r, k) == seq![e] + split(e, k));
            assert(split(r, k) =~= seq![e] + seq![e]);
            lemma_named_lead_empty(seq![e]);
            lemma_named_lead_empty(Seq::<Seq<char>>::empty());
            assert(seq![e] =~= seq![e] + Seq::<Seq<char>>::empty());
        } else {
            assert(split(r, k) =~= seq![e] + parts);
            lemma_named_lead_empty(parts);
        }
    } else {
        if parts.len() == 0 {
            assert(r =~= e);
            lemma_no_sep_find(e);
            assert(split(r, k) =~= seq![e]);
            assert(e != dot());
            lemma_named_lead_empty(Seq::<Seq<char>>::empty());
            assert(seq![e] =~= seq![e] + Seq::<Seq<char>>::empty());
        } else {
            assert(split(r, k)[0] == parts[0]);
        }
    }
}

/// A path that the lexical jail accepts lies at or under the root, and
/// nothing below the root in it is `.` or `..`.
pub proof fn law_jail_result_stays_under_root(root: Seq<char>, user: Seq<char>)
    requires
        lexical_jail(root, user) is Ok,
    ensures
        starts_with_path(lexical_jail(root, user)->Ok_0, root),
        forall|i: int|
            comps(root).len() <= i < comps(lexical_jail(root, user)->Ok_0).len() ==> plain_part(
                #[trigger] comps(lexical_jail(root, user)->Ok_0)[i],
            ),
{
    let p = lexical_jail(root, user)->Ok_0;
    if user.len() == 0 {
        assert(comps(root).take(comps(root).len() as int) =~= comps(root));
    } else {
        let joined = path_join(root, user);
        let parts = fold(comps(joined));
        lemma_comps_parts(joined);
        lemma_fold_plain(comps(joined));
        lemma_comps_render(is_abs(joined), parts);
    }
}

} // verus!

verus! {

/// What resolving a path needs to know from the disk next, or how it ended.
#[derive(Debug)]
pub enum JailAsk {
    /// Does this path exist?
    Exists(String),
    /// The canonical form of this (existing) path, or the I/O error.
    Canonicalize(String),
    Done(Result<String, JailError>),
}

/// `base` with `names` pushed onto it, last name first: the nearest missing
/// name was found last.
pub open spec fn pushed(base: Seq<char>, names: Seq<Seq<char>>) -> Seq<char>
    decreases names.len(),
{
    if names.len() == 0 {
        base
    } else {
        pushed(path_join(base, names.last()), names.drop_last())
    }
}

/// `base` and every path on the way to `pushed(base, names)` lie under
/// `root`.
pub open spec fn all_inside(base: Seq<char>, names: Seq<Seq<char>>, root: Seq<char>) -> bool
    decreases names.len(),
{
    &&& starts_with_path(base, root)
    &&& names.len() > 0 ==> all_inside(path_join(base, names.last()), names.drop_last(), root)
}

proof fn lemma_all_inside_end(base: Seq<char>, names: Seq<Seq<char>>, root: Seq<char>)
    requires
        all_inside(base, names, root),
    ensures
        starts_with_path(pushed(base, names), root),
    decreases names.len(),
{
    if names.len() > 0 {
        lemma_all_inside_end(path_join(base, names.last()), names.drop_last(), root);
    }
}

/// Resolving a user path inside a canonical root against the disk: the
/// lexical check first, then up from the lexical result to the nearest
/// path that exists, whose canonical form must lie under the root, and the
/// missing names put back one at a time, each step checked again.
pub struct JailWalk {
    root: Vec<char>,
    abs: bool,
    parts: Vec<Vec<char>>,
    missing: Vec<Vec<char>>,
}

impl JailWalk {
    pub closed spec fn root(&self) -> Seq<char> {
        self.root@
    }

    /// The path asked about now.
    pub closed spec fn ancestor(&self) -> Seq<char> {
        render(self.abs, self.parts.deep_view())
    }

    /// The names taken off the lexical path so far, nearest first.
    pub closed spec fn missing(&self) -> Seq<Seq<char>> {
        self.missing.deep_view()
    }

    pub closed spec fn wf(&self) -> bool {
        forall|i: int|
            0 <= i < self.parts.deep_view().len() ==> plain_part(#[trigger] self.parts.deep_view()[i])
    }

    /// Begin with the lexical check. An empty path is the root itself; any
    /// other accepted path is asked about first.
    pub fn start(root: &str, user_path: &str) -> (r: (JailWalk, JailAsk))
        ensures
            r.0.wf(),
            r.0.root() == root@,
            r.0.missing() == Seq::<Seq<char>>::empty(),
            match lexical_jail(root@, user_path@) {
                Err(e) => (r.1 matches JailAsk::Done(Err(e2)) && same_jail_error(e2, e)),
                Ok(p) => if user_path@.len() == 0 {
                    (r.1 matches JailAsk::Done(Ok(q)) && q@ == root@)
                } else {
                    (r.1 matches JailAsk::Exists(q) && q@ == p) && r.0.ancestor() == p
                },
            },
            r.1 matches JailAsk::Done(Ok(q)) ==> starts_with_path(q@, root@),
    {
        let rc = chars_of(root);
        let lex = resolve_lexically(root, user_path);
        let mut walk = JailWalk { root: rc, abs: false, parts: Vec::new(), missing: Vec::new() };
        proof {
            assert(walk.missing.deep_view() =~= Seq::<Seq<char>>::empty());
        }
        match lex {
            Err(e) => (walk, JailAsk::Done(Err(e))),
            Ok(p) => {
                let uc = chars_of(user_path);
                if uc.len() == 0 {
                    proof {
                        assert(comps(root@).take(comps(root@).len() as int) =~= comps(root@));
                    }
                    return (walk, JailAsk::Done(Ok(p)));
                }
                proof {
                    let joined = path_join(root@, user_path@);
                    lemma_comps_parts(joined);
                    lemma_fold_plain(comps(joined));
                    lemma_comps_render(is_abs(joined), fold(comps(joined)));
                }
                let pc = chars_of(p.as_str());
                walk.abs = pc.len() > 0 && pc[0] == '/';
                walk.parts = components_of(pc.as_slice());
                (walk, JailAsk::Exists(p))
            },
        }
    }

    /// The disk answered whether the path asked about exists. If it does,
    /// its canonical form is asked for; if not, its last name is set aside
    /// and its parent asked about, unless it has no name, the name is `.` or
    /// `..`, or more than 64 names are missing, which is an escape.
    pub fn on_exists(&mut self, exists: bool) -> (ask: JailAsk)
        requires
            old(self).wf(),
        ensures
            final(self).wf(),
            final(self).root() == old(self).root(),
            exists ==> (ask matches JailAsk::Canonicalize(q) && q@ == old(self).ancestor())
                && final(self).ancestor() == old(self).ancestor() && final(self).missing() == old(
                self,
            ).missing(),
            !exists && comps(old(self).ancestor()).len() == 0 ==> (ask matches JailAsk::Done(
                Err(JailError::Escape),
            )),
            !exists && comps(old(self).ancestor()).len() > 0 ==> {
                let name = comps(old(self).ancestor()).last();
                let parent = render(
                    is_abs(old(self).ancestor()),
                    comps(old(self).ancestor()).drop_last(),
                );
                &&& final(self).missing() == old(self).missing().push(name)
                &&& final(self).ancestor() == parent
                &&& old(self).missing().len() + 1 > 64 ==> (ask matches JailAsk::Done(
                    Err(JailError::Escape),
                ))
                &&& old(self).missing().len() + 1 <= 64 ==> (ask matches JailAsk::Exists(q) && q@
                    == parent)
            },
            !(ask is Done && ask->Done_0 is Ok),
    {
        let ghost d = self.parts.deep_view();
        proof {
            lemma_comps_render(self.abs, d);
        }
        if exists {
            let t = render_path(self.abs, &self.parts);
            return JailAsk::Canonicalize(string_of(t.as_slice()));
        }
        if self.parts.len() == 0 {
            return JailAsk::Done(Err(JailError::Escape));
        }
        let ghost m = self.missing.deep_view();
        let name = self.parts.pop().unwrap();
        proof {
            assert(self.parts.deep_view() =~= d.drop_last());
            assert(name@ == d.last());
            crate::text::lemma_deep_chars(name);
            assert forall|i: int| 0 <= i < self.parts.deep_view().len() implies plain_part(
                #[trigger] self.parts.deep_view()[i],
            ) by {
                assert(self.parts.deep_view()[i] == d[i]);
            }
            assert(plain_part(d[d.len() - 1]));
        }
        if is_dot(name.as_slice()) || is_dotdot(name.as_slice()) {
            return JailAsk::Done(Err(JailError::Escape));
        }
        self.missing.push(name);
        proof {
            assert(self.missing.deep_view() =~= m.push(d.last()));
        }
        if self.missing.len() > 64 {
            return JailAsk::Done(Err(JailError::Escape));
        }
        let t = render_path(self.abs, &self.parts);
        JailAsk::Exists(string_of(t.as_slice()))
    }

    /// The disk gave the canonical form of the nearest existing path (or
    /// failed). It must lie under the root; then the missing names are put
    /// back nearest-last, and each path on the way must lie under the root
    /// too.
    pub fn on_canonical(&self, canon: Result<String, JailError>) -> (ask: JailAsk)
        ensures
            canon is Err ==> (ask matches JailAsk::Done(Err(e)) && e == canon->Err_0),
            canon matches Ok(c) ==> {
                &&& all_inside(c@, self.missing(), self.root()) ==> (ask matches JailAsk::Done(
                    Ok(q),
                ) && q@ == pushed(c@, self.missing()))
                &&& !all_inside(c@, self.missing(), self.root()) ==> (ask matches JailAsk::Done(
                    Err(JailError::Escape),
                ))
            },
            ask matches JailAsk::Done(Ok(q)) ==> starts_with_path(q@, self.root()),
    {
        let c = match canon {
            Err(e) => {
                return JailAsk::Done(Err(e));
            },
            Ok(c) => c,
        };
        let root = string_of(self.root.as_slice());
        let ghost m = self.missing.deep_view();
        if !is_inside(c.as_str(), root.as_str()) {
            return JailAsk::Done(Err(JailError::Escape));
        }
        let mut cur = chars_of(c.as_str());
        let mut i: usize = self.missing.len();
        assert(m.take(i as int) =~= m);
        while i > 0
            invariant
                i <= m.len(),
                m == self.missing.deep_view(),
                root@ == self.root@,
                canon is Ok,
                canon->Ok_0@ == c@,
                starts_with_path(cur@, root@),
                all_inside(c@, m, root@) == all_inside(cur@, m.take(i as int), root@),
                pushed(c@, m) == pushed(cur@, m.take(i as int)),
            decreases i,
        {
            let ghost t = m.take(i as int);
            assert(t.drop_last() =~= m.take(i - 1));
            assert(t.last() == m[i - 1]);
            assert(self.missing@[i - 1]@ == m[i - 1]);
            let name = &self.missing[i - 1];
            let mut next: Vec<char> = Vec::new();
            if cur.len() == 0 {
                extend_chars(&mut next, name.as_slice());
            } else if cur[cur.len() - 1] == '/' {
                extend_chars(&mut next, cur.as_slice());
                extend_chars(&mut next, name.as_slice());
            } else {
                extend_chars(&mut next, cur.as_slice());
                next.push('/');
                extend_chars(&mut next, name.as_slice());
            }
            if name.len() > 0 && name[0] == '/' {
                next = name.clone();
                proof {
                    crate::text::lemma_deep_chars(next);
                }
            }
            assert(next@ =~= path_join(cur@, m[i - 1]));
            assert(all_inside(cur@, t, root@) == (starts_with_path(cur@, root@) && all_inside(
                path_join(cur@, t.last()),
                t.drop_last(),
                root@,
            )));
            assert(pushed(cur@, t) == pushed(path_join(cur@, t.last()), t.drop_last()));
            let s = string_of(next.as_slice());
            if !is_inside(s.as_str(), root.as_str()) {
                assert(!all_inside(next@, m.take(i - 1), root@));
                return JailAsk::Done(Err(JailError::Escape));
            }
            cur = next;
            i = i - 1;
        }
        proof {
            assert(m.take(0) =~= Seq::<Seq<char>>::empty());
        }
        JailAsk::Done(Ok(string_of(cur.as_slice())))
    }
}

} // verus!
