//! Character-level helpers shared by the parsers: whitespace, trimming,
//! ASCII case folding and splitting, each stated over `Seq<char>`.
use vstd::prelude::*;

verus! {

/// A class of characters that trimming and splitting act on.
#[derive(Clone, Copy, PartialEq, Eq, Debug)]
pub enum CharClass {
    /// Unicode `White_Space`, as `char::is_whitespace` decides it.
    Whitespace,
    /// Exactly this character.
    Is(char),
}

/// Unicode `White_Space` code points.
pub open spec fn is_ws(c: char) -> bool {
    let u = c as u32;
    ||| 0x09 <= u <= 0x0d
    ||| u == 0x20
    ||| u == 0x85
    ||| u == 0xa0
    ||| u == 0x1680
    ||| 0x2000 <= u <= 0x200a
    ||| u == 0x2028
    ||| u == 0x2029
    ||| u == 0x202f
    ||| u == 0x205f
    ||| u == 0x3000
}

pub open spec fn in_class(k: CharClass, c: char) -> bool {
    match k {
        CharClass::Whitespace => is_ws(c),
        CharClass::Is(d) => c == d,
    }
}

pub fn is_whitespace(c: char) -> (b: bool)
    ensures
        b == is_ws(c),
{
    let u = c as u32;
    (0x09 <= u && u <= 0x0d) || u == 0x20 || u == 0x85 || u == 0xa0 || u == 0x1680 || (0x2000
        <= u && u <= 0x200a) || u == 0x2028 || u == 0x2029 || u == 0x202f || u == 0x205f || u
        == 0x3000
}

pub fn class_has(k: CharClass, c: char) -> (b: bool)
    ensures
        b == in_class(k, c),
{
    match k {
        CharClass::Whitespace => is_whitespace(c),
        CharClass::Is(d) => c == d,
    }
}

/// Drop leading characters of the class.
pub open spec fn trim_start(s: Seq<char>, k: CharClass) -> Seq<char>
    decreases s.len(),
{
    if s.len() > 0 && in_class(k, s[0]) {
        trim_start(s.drop_first(), k)
    } else {
        s
    }
}

/// Drop trailing characters of the class.
pub open spec fn trim_end(s: Seq<char>, k: CharClass) -> Seq<char>
    decreases s.len(),
{
    if s.len() > 0 && in_class(k, s.last()) {
        trim_end(s.drop_last(), k)
    } else {
        s
    }
}

/// Drop the class from both ends (`str::trim`, `str::trim_matches`).
pub open spec fn trim(s: Seq<char>, k: CharClass) -> Seq<char> {
    trim_end(trim_start(s, k), k)
}

pub open spec fn lower_char(c: char) -> char {
    if 'A' <= c && c <= 'Z' {
        ((c as u32) + 32) as char
    } else {
        c
    }
}

/// `str::to_ascii_lowercase`.
pub open spec fn lower(s: Seq<char>) -> Seq<char> {
    s.map_values(|c: char| lower_char(c))
}

/// `eq_ignore_ascii_case`.
pub open spec fn eq_nocase(a: Seq<char>, b: Seq<char>) -> bool {
    lower(a) == lower(b)
}

/// Index of the first character of the class, or `-1`.
pub open spec fn find(s: Seq<char>, k: CharClass) -> int
    decreases s.len(),
{
    if s.len() == 0 {
        -1
    } else if in_class(k, s[0]) {
        0
    } else {
        let r = find(s.drop_first(), k);
        if r < 0 {
            -1
        } else {
            r + 1
        }
    }
}

/// `str::split` on a class: every piece, empty ones included.
pub open spec fn split(s: Seq<char>, k: CharClass) -> Seq<Seq<char>>
    decreases s.len(),
{
    let i = find(s, k);
    if i < 0 || i >= s.len() {
        seq![s]
    } else {
        seq![s.take(i)] + split(s.skip(i + 1), k)
    }
}

/// The pieces that are not empty, in order.
pub open spec fn nonempty(ps: Seq<Seq<char>>) -> Seq<Seq<char>>
    decreases ps.len(),
{
    if ps.len() == 0 {
        ps
    } else if ps.last().len() > 0 {
        nonempty(ps.drop_last()).push(ps.last())
    } else {
        nonempty(ps.drop_last())
    }
}

/// `str::split_whitespace`.
pub open spec fn split_ws(s: Seq<char>) -> Seq<Seq<char>> {
    nonempty(split(s, CharClass::Whitespace))
}

/// `s` starts with `p`.
pub open spec fn has_prefix(s: Seq<char>, p: Seq<char>) -> bool {
    p.len() <= s.len() && s.take(p.len() as int) == p
}

/// `s` ends with `p`.
pub open spec fn has_suffix(s: Seq<char>, p: Seq<char>) -> bool {
    p.len() <= s.len() && s.skip(s.len() - p.len()) == p
}

/// `s` contains `p` as a contiguous run.
pub open spec fn contains_run(s: Seq<char>, p: Seq<char>) -> bool {
    exists|i: int| 0 <= i <= s.len() - p.len() && #[trigger] s.subrange(i, i + p.len()) == p
}

pub proof fn lemma_deep_chars(v: Vec<char>)
    ensures
        v.deep_view() == v@,
{
    assert(v.deep_view() =~= v@);
}

pub proof fn lemma_find_at(s: Seq<char>, k: CharClass, n: int)
    requires
        0 <= n <= s.len(),
        forall|j: int| 0 <= j < n ==> !in_class(k, #[trigger] s[j]),
    ensures
        n < s.len() && in_class(k, s[n]) ==> find(s, k) == n,
        n == s.len() ==> find(s, k) == -1,
    decreases n,
{
    if n > 0 {
        let t = s.drop_first();
        assert forall|j: int| 0 <= j < n - 1 implies !in_class(k, #[trigger] t[j]) by {
            assert(t[j] == s[j + 1]);
        }
        lemma_find_at(t, k, n - 1);
        assert(!in_class(k, s[0]));
    }
}

pub proof fn lemma_trim_start_at(s: Seq<char>, k: CharClass, n: int)
    requires
        0 <= n <= s.len(),
        forall|j: int| 0 <= j < n ==> in_class(k, #[trigger] s[j]),
        n == s.len() || !in_class(k, s[n]),
    ensures
        trim_start(s, k) == s.skip(n),
    decreases n,
{
    if n > 0 {
        let t = s.drop_first();
        assert forall|j: int| 0 <= j < n - 1 implies in_class(k, #[trigger] t[j]) by {
            assert(t[j] == s[j + 1]);
        }
        if n - 1 < t.len() {
            assert(t[n - 1] == s[n]);
        }
        assert(in_class(k, s[0]));
        lemma_trim_start_at(t, k, n - 1);
        assert(t.skip(n - 1) =~= s.skip(n));
    } else {
        assert(s.skip(0) =~= s);
    }
}

pub proof fn lemma_trim_end_at(s: Seq<char>, k: CharClass, n: int)
    requires
        0 <= n <= s.len(),
        forall|j: int| n <= j < s.len() ==> in_class(k, #[trigger] s[j]),
        n == 0 || !in_class(k, s[n - 1]),
    ensures
        trim_end(s, k) == s.take(n),
    decreases s.len() - n,
{
    if n < s.len() {
        let t = s.drop_last();
        assert forall|j: int| n <= j < t.len() implies in_class(k, #[trigger] t[j]) by {
            assert(t[j] == s[j]);
        }
        if n > 0 {
            assert(t[n - 1] == s[n - 1]);
        }
        assert(in_class(k, s[s.len() - 1]));
        lemma_trim_end_at(t, k, n);
        assert(t.take(n) =~= s.take(n));
    } else {
        assert(s.take(n) =~= s);
    }
}

/// A copy of `s[lo..hi]`.
pub fn copy_range(s: &[char], lo: usize, hi: usize) -> (r: Vec<char>)
    requires
        lo <= hi <= s@.len(),
    ensures
        r@ == s@.subrange(lo as int, hi as int),
{
    let mut r: Vec<char> = Vec::new();
    let mut i = lo;
    while i < hi
        invariant
            lo <= i <= hi <= s@.len(),
            r@ == s@.subrange(lo as int, i as int),
        decreases hi - i,
    {
        r.push(s[i]);
        i = i + 1;
        assert(r@ =~= s@.subrange(lo as int, i as int));
    }
    r
}

/// Trim the class from both ends.
pub fn trim_class(s: &[char], k: CharClass) -> (r: Vec<char>)
    ensures
        r@ == trim(s@, k),
{
    let len = s.len();
    let mut lo: usize = 0;
    while lo < len && class_has(k, s[lo])
        invariant
            lo <= len == s@.len(),
            forall|j: int| 0 <= j < lo ==> in_class(k, #[trigger] s@[j]),
        decreases len - lo,
    {
        lo = lo + 1;
    }
    proof {
        lemma_trim_start_at(s@, k, lo as int);
    }
    let ghost t = s@.skip(lo as int);
    let mut hi: usize = len;
    while hi > lo && class_has(k, s[hi - 1])
        invariant
            lo <= hi <= len == s@.len(),
            forall|j: int| hi <= j < len ==> in_class(k, #[trigger] s@[j]),
        decreases hi - lo,
    {
        hi = hi - 1;
    }
    proof {
        assert forall|j: int| (hi - lo) <= j < t.len() implies in_class(k, #[trigger] t[j]) by {
            assert(t[j] == s@[j + lo]);
        }
        if hi > lo {
            assert(t[hi - lo - 1] == s@[hi - 1]);
        }
        lemma_trim_end_at(t, k, hi - lo);
        assert(t.take(hi - lo) =~= s@.subrange(lo as int, hi as int));
    }
    copy_range(s, lo, hi)
}

pub fn lower_one(c: char) -> (r: char)
    ensures
        r == lower_char(c),
{
    if 'A' <= c && c <= 'Z' {
        let u = (c as u32) + 32;
        proof {
            assert(0x61 <= u <= 0x7a);
        }
        char_from_ascii(u)
    } else {
        c
    }
}

/// The character with an ASCII code point.
pub fn char_from_ascii(u: u32) -> (c: char)
    requires
        u < 0x80,
    ensures
        c == u as char,
        c as u32 == u,
{
    let b = u as u8;
    b as char
}

/// `to_ascii_lowercase`.
pub fn lower_all(s: &[char]) -> (r: Vec<char>)
    ensures
        r@ == lower(s@),
{
    let mut r: Vec<char> = Vec::new();
    let mut i: usize = 0;
    while i < s.len()
        invariant
            i <= s@.len(),
            r@ == lower(s@.take(i as int)),
        decreases s@.len() - i,
    {
        r.push(lower_one(s[i]));
        i = i + 1;
        assert(r@ =~= lower(s@.take(i as int)));
    }
    assert(s@.take(s@.len() as int) =~= s@);
    r
}

/// Character-wise equality of two runs.
pub fn chars_eq(a: &[char], b: &[char]) -> (r: bool)
    ensures
        r == (a@ == b@),
{
    if a.len() != b.len() {
        return false;
    }
    let mut i: usize = 0;
    while i < a.len()
        invariant
            i <= a@.len() == b@.len(),
            forall|j: int| 0 <= j < i ==> a@[j] == b@[j],
        decreases a@.len() - i,
    {
        if a[i] != b[i] {
            return false;
        }
        i = i + 1;
    }
    assert(a@ =~= b@);
    true
}

/// `eq_ignore_ascii_case`.
pub fn eq_ignore_case(a: &[char], b: &[char]) -> (r: bool)
    ensures
        r == eq_nocase(a@, b@),
{
    let la = lower_all(a);
    let lb = lower_all(b);
    chars_eq(la.as_slice(), lb.as_slice())
}

/// `starts_with`.
pub fn starts_with(s: &[char], p: &[char]) -> (r: bool)
    ensures
        r == has_prefix(s@, p@),
{
    if p.len() > s.len() {
        return false;
    }
    let mut i: usize = 0;
    while i < p.len()
        invariant
            i <= p@.len() <= s@.len(),
            forall|j: int| 0 <= j < i ==> s@[j] == p@[j],
        decreases p@.len() - i,
    {
        if s[i] != p[i] {
            assert(s@.take(p@.len() as int)[i as int] == s@[i as int]);
            return false;
        }
        i = i + 1;
    }
    assert(s@.take(p@.len() as int) =~= p@);
    true
}

/// `ends_with`.
pub fn ends_with(s: &[char], p: &[char]) -> (r: bool)
    ensures
        r == has_suffix(s@, p@),
{
    if p.len() > s.len() {
        return false;
    }
    let off = s.len() - p.len();
    let mut j: usize = off;
    while j < s.len()
        invariant
            off <= j <= s@.len(),
            off == s@.len() - p@.len(),
            forall|m: int| 0 <= m < j - off ==> s@[off + m] == p@[m],
        decreases s@.len() - j,
    {
        if s[j] != p[j - off] {
            assert(s@.skip(off as int)[j - off] == s@[j as int]);
            return false;
        }
        j = j + 1;
    }
    assert(s@.skip(off as int) =~= p@);
    true
}

/// Index of the first character of the class, if any.
pub fn find_class(s: &[char], k: CharClass) -> (r: Option<usize>)
    ensures
        match r {
            Some(i) => i < s@.len() && find(s@, k) == i,
            None => find(s@, k) == -1,
        },
{
    let mut i: usize = 0;
    while i < s.len()
        invariant
            i <= s@.len(),
            forall|j: int| 0 <= j < i ==> !in_class(k, #[trigger] s@[j]),
        decreases s@.len() - i,
    {
        if class_has(k, s[i]) {
            proof {
                lemma_find_at(s@, k, i as int);
            }
            return Some(i);
        }
        i = i + 1;
    }
    proof {
        lemma_find_at(s@, k, i as int);
    }
    None
}

pub proof fn lemma_find_bounds(s: Seq<char>, k: CharClass)
    ensures
        -1 <= find(s, k) < s.len(),
        0 <= find(s, k) ==> in_class(k, s[find(s, k)]),
        forall|j: int| 0 <= j < find(s, k) ==> !in_class(k, #[trigger] s[j]),
        find(s, k) == -1 ==> forall|j: int| 0 <= j < s.len() ==> !in_class(k, #[trigger] s[j]),
    decreases s.len(),
{
    if s.len() > 0 && !in_class(k, s[0]) {
        let t = s.drop_first();
        lemma_find_bounds(t, k);
        assert forall|j: int| 0 <= j < find(s, k) implies !in_class(k, #[trigger] s[j]) by {
            if j > 0 {
                assert(s[j] == t[j - 1]);
            }
        }
        if find(s, k) == -1 {
            assert forall|j: int| 0 <= j < s.len() implies !in_class(k, #[trigger] s[j]) by {
                if j > 0 {
                    assert(s[j] == t[j - 1]);
                }
            }
        }
        if find(s, k) >= 0 {
            assert(s[find(s, k)] == t[find(t, k)]);
        }
    }
}

/// `s` holds a character of the class.
pub open spec fn has_class(s: Seq<char>, k: CharClass) -> bool {
    exists|j: int| 0 <= j < s.len() && in_class(k, #[trigger] s[j])
}

pub proof fn lemma_find_has(s: Seq<char>, k: CharClass)
    ensures
        find(s, k) >= 0 <==> has_class(s, k),
{
    lemma_find_bounds(s, k);
}

/// Does `s` hold a character of the class?
pub fn contains_class(s: &[char], k: CharClass) -> (b: bool)
    ensures
        b == has_class(s@, k),
{
    proof {
        lemma_find_has(s@, k);
    }
    find_class(s, k).is_some()
}

/// `str::split`, keeping empty pieces.
pub fn split_class(s: &[char], k: CharClass) -> (r: Vec<Vec<char>>)
    ensures
        r.deep_view() == split(s@, k),
{
    let mut out: Vec<Vec<char>> = Vec::new();
    let mut st: usize = 0;
    let mut j: usize = 0;
    assert(s@.skip(0) =~= s@);
    assert(out.deep_view() + split(s@, k) =~= split(s@, k));
    while j < s.len()
        invariant
            st <= j <= s@.len(),
            out.deep_view() + split(s@.skip(st as int), k) == split(s@, k),
            forall|m: int| st <= m < j ==> !in_class(k, #[trigger] s@[m]),
        decreases s@.len() - j,
    {
        if class_has(k, s[j]) {
            let piece = copy_range(s, st, j);
            proof {
                let t = s@.skip(st as int);
                assert forall|m: int| 0 <= m < j - st implies !in_class(k, #[trigger] t[m]) by {
                    assert(t[m] == s@[st + m]);
                }
                assert(t[j - st] == s@[j as int]);
                lemma_find_at(t, k, j - st);
                assert(t.take(j - st) =~= piece@);
                assert(t.skip(j - st + 1) =~= s@.skip(j + 1));
                assert(split(t, k) == seq![piece@] + split(s@.skip(j + 1), k));
            }
            let ghost old_out = out.deep_view();
            proof { lemma_deep_chars(piece); }
            out.push(piece);
            proof {
                assert(out.deep_view() =~= old_out.push(piece@));
                assert(old_out + (seq![piece@] + split(s@.skip(j + 1), k)) =~= old_out.push(
                    piece@,
                ) + split(s@.skip(j + 1), k));
            }
            st = j + 1;
        }
        j = j + 1;
    }
    let last = copy_range(s, st, s.len());
    proof {
        let t = s@.skip(st as int);
        assert forall|m: int| 0 <= m < t.len() implies !in_class(k, #[trigger] t[m]) by {
            assert(t[m] == s@[st + m]);
        }
        lemma_find_at(t, k, t.len() as int);
        assert(t =~= last@);
    }
    let ghost old_out = out.deep_view();
    proof { lemma_deep_chars(last); }
    out.push(last);
    proof {
        assert(out.deep_view() =~= old_out.push(last@));
        assert(old_out + seq![last@] =~= old_out.push(last@));
    }
    out
}

/// Keep only the non-empty pieces.
pub fn drop_empty(ps: Vec<Vec<char>>) -> (r: Vec<Vec<char>>)
    ensures
        r.deep_view() == nonempty(ps.deep_view()),
{
    let mut out: Vec<Vec<char>> = Vec::new();
    let mut i: usize = 0;
    let ghost d = ps.deep_view();
    while i < ps.len()
        invariant
            i <= ps@.len(),
            d == ps.deep_view(),
            out.deep_view() == nonempty(d.take(i as int)),
        decreases ps@.len() - i,
    {
        let p = ps[i].clone();
        proof {
            assert(p@ == d[i as int]);
            assert(d.take(i + 1).drop_last() =~= d.take(i as int));
            assert(d.take(i + 1).last() == d[i as int]);
        }
        proof { lemma_deep_chars(p); }
        if p.len() > 0 {
            let ghost o = out.deep_view();
            out.push(p);
            assert(out.deep_view() =~= o.push(d[i as int]));
        }
        i = i + 1;
    }
    assert(d.take(ps@.len() as int) =~= d);
    out
}

/// `str::split_whitespace`.
pub fn split_whitespace(s: &[char]) -> (r: Vec<Vec<char>>)
    ensures
        r.deep_view() == split_ws(s@),
{
    drop_empty(split_class(s, CharClass::Whitespace))
}

/// Index of the last character of the class, or `-1`.
pub open spec fn rfind(s: Seq<char>, k: CharClass) -> int
    decreases s.len(),
{
    if s.len() == 0 {
        -1
    } else if in_class(k, s.last()) {
        s.len() - 1
    } else {
        rfind(s.drop_last(), k)
    }
}

pub proof fn lemma_rfind_at(s: Seq<char>, k: CharClass, n: int)
    requires
        -1 <= n < s.len(),
        forall|j: int| n < j < s.len() ==> !in_class(k, #[trigger] s[j]),
        n == -1 || in_class(k, s[n]),
    ensures
        rfind(s, k) == n,
    decreases s.len(),
{
    if s.len() > 0 && n < s.len() - 1 {
        let t = s.drop_last();
        assert forall|j: int| n < j < t.len() implies !in_class(k, #[trigger] t[j]) by {
            assert(t[j] == s[j]);
        }
        if n >= 0 {
            assert(t[n] == s[n]);
        }
        assert(!in_class(k, s[s.len() - 1]));
        lemma_rfind_at(t, k, n);
    }
}

/// Trimming the start drops a prefix.
pub proof fn lemma_trim_start_skip(s: Seq<char>, k: CharClass) -> (n: int)
    ensures
        0 <= n <= s.len(),
        trim_start(s, k) == s.skip(n),
    decreases s.len(),
{
    if s.len() > 0 && in_class(k, s[0]) {
        let m = lemma_trim_start_skip(s.drop_first(), k);
        assert(s.drop_first().skip(m) =~= s.skip(m + 1));
        m + 1
    } else {
        assert(s.skip(0) =~= s);
        0
    }
}

/// Trimming the end keeps a prefix.
pub proof fn lemma_trim_end_take(s: Seq<char>, k: CharClass) -> (n: int)
    ensures
        0 <= n <= s.len(),
        trim_end(s, k) == s.take(n),
    decreases s.len(),
{
    if s.len() > 0 && in_class(k, s.last()) {
        let m = lemma_trim_end_take(s.drop_last(), k);
        assert(s.drop_last().take(m) =~= s.take(m));
        m
    } else {
        assert(s.take(s.len() as int) =~= s);
        s.len() as int
    }
}

/// Trimming keeps a run of the text: its characters are the text's.
pub proof fn lemma_trim_run(s: Seq<char>, k: CharClass) -> (a: int)
    ensures
        0 <= a,
        a + trim(s, k).len() <= s.len(),
        forall|i: int| 0 <= i < trim(s, k).len() ==> #[trigger] trim(s, k)[i] == s[a + i],
{
    let a = lemma_trim_start_skip(s, k);
    let b = lemma_trim_end_take(trim_start(s, k), k);
    a
}

pub open spec fn upper_char(c: char) -> char {
    if 'a' <= c && c <= 'z' {
        ((c as u32) - 32) as char
    } else {
        c
    }
}

/// `str::to_ascii_uppercase`.
pub open spec fn upper(s: Seq<char>) -> Seq<char> {
    s.map_values(|c: char| upper_char(c))
}

/// Whitespace and `.` are the same before and after ASCII upper-casing.
pub open spec fn case_blind(k: CharClass) -> bool {
    forall|c: char| #[trigger] in_class(k, upper_char(c)) == in_class(k, c)
}

pub proof fn lemma_trim_upper(s: Seq<char>, k: CharClass)
    requires
        case_blind(k),
    ensures
        trim(upper(s), k) == upper(trim(s, k)),
{
    lemma_trim_start_upper(s, k);
    lemma_trim_end_upper(trim_start(s, k), k);
}

proof fn lemma_trim_start_upper(s: Seq<char>, k: CharClass)
    requires
        case_blind(k),
    ensures
        trim_start(upper(s), k) == upper(trim_start(s, k)),
    decreases s.len(),
{
    if s.len() > 0 {
        assert(upper(s)[0] == upper_char(s[0]));
        assert(in_class(k, upper_char(s[0])) == in_class(k, s[0]));
        if in_class(k, s[0]) {
            assert(upper(s).drop_first() =~= upper(s.drop_first()));
            lemma_trim_start_upper(s.drop_first(), k);
        }
    } else {
        assert(upper(s) =~= s);
    }
}

proof fn lemma_trim_end_upper(s: Seq<char>, k: CharClass)
    requires
        case_blind(k),
    ensures
        trim_end(upper(s), k) == upper(trim_end(s, k)),
    decreases s.len(),
{
    if s.len() > 0 {
        assert(upper(s).last() == upper_char(s.last()));
        assert(in_class(k, upper_char(s.last())) == in_class(k, s.last()));
        if in_class(k, s.last()) {
            assert(upper(s).drop_last() =~= upper(s.drop_last()));
            lemma_trim_end_upper(s.drop_last(), k);
        }
    } else {
        assert(upper(s) =~= s);
    }
}

/// Lower-casing forgets an earlier upper-casing.
pub proof fn lemma_lower_upper(s: Seq<char>)
    ensures
        lower(upper(s)) == lower(s),
{
    assert forall|i: int| 0 <= i < s.len() implies #[trigger] lower(upper(s))[i] == lower(s)[i] by {
        let c = s[i];
        if 'a' <= c && c <= 'z' {
            assert(upper_char(c) as u32 == (c as u32) - 32);
        }
    }
    assert(lower(upper(s)) =~= lower(s));
}

pub proof fn lemma_rfind_bounds(s: Seq<char>, k: CharClass)
    ensures
        -1 <= rfind(s, k) < s.len(),
        0 <= rfind(s, k) ==> in_class(k, s[rfind(s, k)]),
        forall|j: int| rfind(s, k) < j < s.len() ==> !in_class(k, #[trigger] s[j]),
    decreases s.len(),
{
    if s.len() > 0 && !in_class(k, s.last()) {
        let t = s.drop_last();
        lemma_rfind_bounds(t, k);
        assert forall|j: int| rfind(s, k) < j < s.len() implies !in_class(k, #[trigger] s[j]) by {
            if j < s.len() - 1 {
                assert(s[j] == t[j]);
            }
        }
        if rfind(s, k) >= 0 {
            assert(s[rfind(s, k)] == t[rfind(t, k)]);
        }
    }
}

/// Index of the last character of the class, if any.
pub fn rfind_class(s: &[char], k: CharClass) -> (r: Option<usize>)
    ensures
        match r {
            Some(i) => i < s@.len() && rfind(s@, k) == i,
            None => rfind(s@, k) == -1,
        },
{
    let mut i: usize = s.len();
    while i > 0
        invariant
            i <= s@.len(),
            forall|j: int| i <= j < s@.len() ==> !in_class(k, #[trigger] s@[j]),
        decreases i,
    {
        if class_has(k, s[i - 1]) {
            proof {
                lemma_rfind_at(s@, k, i - 1);
            }
            return Some(i - 1);
        }
        i = i - 1;
    }
    proof {
        lemma_rfind_at(s@, k, -1);
    }
    None
}

/// `str::chars`, collected.
#[verifier::external_body]
pub(crate) fn chars_of(s: &str) -> (v: Vec<char>)
    ensures
        v@ == s@,
{
    Vec::from_iter(s.chars())
}

/// `String::from_iter` over characters.
#[verifier::external_body]
pub(crate) fn string_of(v: &[char]) -> (s: String)
    ensures
        s@ == v@,
{
    String::from_iter(v.iter())
}


/// The character views of a list of strings.
pub open spec fn views(v: Seq<String>) -> Seq<Seq<char>> {
    v.map_values(|s: String| s@)
}

/// Append `s` to `v`.
pub fn extend_chars(v: &mut Vec<char>, s: &[char])
    ensures
        final(v)@ == old(v)@ + s@,
{
    let ghost start = v@;
    let mut i: usize = 0;
    while i < s.len()
        invariant
            i <= s@.len(),
            v@ == start + s@.take(i as int),
        decreases s@.len() - i,
    {
        v.push(s[i]);
        i = i + 1;
        assert(v@ =~= start + s@.take(i as int));
    }
    assert(s@.take(s@.len() as int) =~= s@);
}

/// Append the characters of `s` to `v`.
pub fn extend_str(v: &mut Vec<char>, s: &str)
    ensures
        final(v)@ == old(v)@ + s@,
{
    let c = chars_of(s);
    extend_chars(v, c.as_slice());
}

/// The string of `a` followed by `b`.
pub fn join2(a: &[char], b: &[char]) -> (s: String)
    ensures
        s@ == a@ + b@,
{
    let mut v: Vec<char> = Vec::new();
    extend_chars(&mut v, a);
    extend_chars(&mut v, b);
    assert(v@ =~= a@ + b@);
    string_of(v.as_slice())
}


/// Trim the class from the end only.
pub fn trim_end_class(s: &[char], k: CharClass) -> (r: Vec<char>)
    ensures
        r@ == trim_end(s@, k),
{
    let mut hi: usize = s.len();
    while hi > 0 && class_has(k, s[hi - 1])
        invariant
            hi <= s@.len(),
            forall|j: int| hi <= j < s@.len() ==> in_class(k, #[trigger] s@[j]),
        decreases hi,
    {
        hi = hi - 1;
    }
    proof {
        lemma_trim_end_at(s@, k, hi as int);
    }
    copy_range(s, 0, hi)
}


/// `split` always yields at least one piece.
pub proof fn lemma_split_nonempty(s: Seq<char>, k: CharClass)
    ensures
        split(s, k).len() >= 1,
    decreases s.len(),
{
    lemma_find_bounds(s, k);
}

} // verus!
