//! One-call recipes: a planned list of pointer and keyboard steps run in a
//! single request, the checks made before any step runs, and the receipt.
use vstd::prelude::*;

use crate::cua::{
    button_ok, is_invalid, key_chars_ok, on_display, validate_button, validate_key,
    validate_point, CuaConfig, CuaError, CuaPoint, KeyAction, ScreenshotResponse, MAX_MOTION_PATH,
    MAX_TYPE_BYTES,
};
use crate::num::{dec_text, nat_string};
use crate::text::{
    chars_eq, chars_of, extend_chars, extend_str, in_class, is_ws, split, split_class, starts_with,
    string_of, trim, trim_class, CharClass,
};

verus! {

/// Most steps one recipe may hold.
pub const MAX_RECIPE_STEPS: usize = 256;

/// Longest single `wait`, in milliseconds.
pub const MAX_WAIT_MS: u64 = 10_000;

/// When the recipe captures the screen.
#[derive(Debug, Clone, Copy, PartialEq, Eq, Structural)]
pub enum RecipeScreenshot {
    /// No capture at all (`"none"` on the wire).
    Never,
    End,
    Each,
}

impl Default for RecipeScreenshot {
    fn default() -> (s: Self)
        ensures
            s == RecipeScreenshot::End,
    {
        RecipeScreenshot::End
    }
}

/// How long to wait for Chromium and page paint between steps.
#[derive(Debug, Clone, Copy, PartialEq, Eq, Structural)]
pub enum RecipeSettle {
    Off,
    Compressed,
    Raw,
}

impl Default for RecipeSettle {
    fn default() -> (s: Self)
        ensures
            s == RecipeSettle::Compressed,
    {
        RecipeSettle::Compressed
    }
}

/// One planned step.
#[derive(Debug, Clone)]
pub enum RecipeStep {
    Click { x: i32, y: i32, button: Option<u8> },
    DoubleClick { x: i32, y: i32, button: Option<u8> },
    Move { x: i32, y: i32 },
    Press { x: i32, y: i32, button: Option<u8> },
    Release { x: Option<i32>, y: Option<i32>, button: Option<u8>, path: Option<Vec<CuaPoint>> },
    Drag { x1: i32, y1: i32, x2: i32, y2: i32, button: Option<u8> },
    Type { text: String },
    Key { key: String, action: Option<KeyAction> },
    Scroll { x: i32, y: i32, dx: i32, dy: i32 },
    Wait { ms: u64 },
    Screenshot {},
    ResetDesktop {},
}

/// The wire name of a step's operation.
pub open spec fn op_text(s: RecipeStep) -> Seq<char> {
    match s {
        RecipeStep::Click { .. } => "click"@,
        RecipeStep::DoubleClick { .. } => "double_click"@,
        RecipeStep::Move { .. } => "move"@,
        RecipeStep::Press { .. } => "press"@,
        RecipeStep::Release { .. } => "release"@,
        RecipeStep::Drag { .. } => "drag"@,
        RecipeStep::Type { .. } => "type"@,
        RecipeStep::Key { .. } => "key"@,
        RecipeStep::Scroll { .. } => "scroll"@,
        RecipeStep::Wait { .. } => "wait"@,
        RecipeStep::Screenshot {  } => "screenshot"@,
        RecipeStep::ResetDesktop {  } => "reset_desktop"@,
    }
}

impl RecipeStep {
    pub fn op_name(&self) -> (s: &'static str)
        ensures
            s@ == op_text(*self),
    {
        match self {
            RecipeStep::Click { .. } => "click",
            RecipeStep::DoubleClick { .. } => "double_click",
            RecipeStep::Move { .. } => "move",
            RecipeStep::Press { .. } => "press",
            RecipeStep::Release { .. } => "release",
            RecipeStep::Drag { .. } => "drag",
            RecipeStep::Type { .. } => "type",
            RecipeStep::Key { .. } => "key",
            RecipeStep::Scroll { .. } => "scroll",
            RecipeStep::Wait { .. } => "wait",
            RecipeStep::Screenshot {  } => "screenshot",
            RecipeStep::ResetDesktop {  } => "reset_desktop",
        }
    }
}

/// A recipe as a caller sends it.
#[derive(Debug, Clone)]
pub struct RecipeRequest {
    pub name: Option<String>,
    pub stop_on_error: Option<bool>,
    pub screenshot: Option<RecipeScreenshot>,
    pub record: Option<bool>,
    pub artifact_dir: Option<String>,
    pub settle: Option<RecipeSettle>,
    pub steps: Vec<RecipeStep>,
}

impl Default for RecipeRequest {
    fn default() -> (r: Self)
        ensures
            r.name is None,
            r.stop_on_error is None,
            r.screenshot is None,
            r.record is None,
            r.artifact_dir is None,
            r.settle is None,
            r.steps@.len() == 0,
    {
        RecipeRequest {
            name: None,
            stop_on_error: None,
            screenshot: None,
            record: None,
            artifact_dir: None,
            settle: None,
            steps: Vec::new(),
        }
    }
}

impl RecipeRequest {
    /// Stop after the first failing step, unless told otherwise.
    pub fn stop_on_error(&self) -> (b: bool)
        ensures
            b == match self.stop_on_error {
                Some(v) => v,
                None => true,
            },
    {
        match self.stop_on_error {
            Some(v) => v,
            None => true,
        }
    }

    pub fn screenshot_mode(&self) -> (m: RecipeScreenshot)
        ensures
            m == match self.screenshot {
                Some(v) => v,
                None => RecipeScreenshot::End,
            },
    {
        match self.screenshot {
            Some(v) => v,
            None => RecipeScreenshot::End,
        }
    }

    pub fn record(&self) -> (b: bool)
        ensures
            b == match self.record {
                Some(v) => v,
                None => false,
            },
    {
        match self.record {
            Some(v) => v,
            None => false,
        }
    }

    pub fn settle_mode(&self) -> (m: RecipeSettle)
        ensures
            m == match self.settle {
                Some(v) => v,
                None => RecipeSettle::Compressed,
            },
    {
        match self.settle {
            Some(v) => v,
            None => RecipeSettle::Compressed,
        }
    }
}

/// UTF-8 width of one character.
pub open spec fn utf8_width(c: char) -> nat {
    let u = c as u32;
    if u < 0x80 {
        1
    } else if u < 0x800 {
        2
    } else if u < 0x10000 {
        3
    } else {
        4
    }
}

/// Length of a text in UTF-8 bytes.
pub open spec fn utf8_len(s: Seq<char>) -> nat
    decreases s.len(),
{
    if s.len() == 0 {
        0
    } else {
        utf8_len(s.drop_last()) + utf8_width(s.last())
    }
}

/// `str::len`: the UTF-8 byte length of a text, or `None` past `limit`.
pub fn utf8_len_upto(s: &[char], limit: usize) -> (r: Option<usize>)
    ensures
        match r {
            Some(n) => n == utf8_len(s@) && n <= limit,
            None => utf8_len(s@) > limit,
        },
{
    let mut n: usize = 0;
    let mut i: usize = 0;
    while i < s.len()
        invariant
            i <= s@.len(),
            n == utf8_len(s@.take(i as int)),
            n <= limit,
        decreases s@.len() - i,
    {
        let u = s[i] as u32;
        let w: usize = if u < 0x80 {
            1
        } else if u < 0x800 {
            2
        } else if u < 0x10000 {
            3
        } else {
            4
        };
        proof {
            assert(s@.take(i + 1).drop_last() =~= s@.take(i as int));
            assert(s@.take(i + 1).last() == s@[i as int]);
        }
        if w > limit - n {
            proof {
                lemma_utf8_len_prefix(s@, i + 1);
            }
            return None;
        }
        n = n + w;
        i = i + 1;
    }
    assert(s@.take(s@.len() as int) =~= s@);
    Some(n)
}

/// The byte length of a text never shrinks as the text grows.
pub proof fn lemma_utf8_len_prefix(s: Seq<char>, i: int)
    requires
        0 <= i <= s.len(),
    ensures
        utf8_len(s.take(i)) <= utf8_len(s),
    decreases s.len() - i,
{
    if i < s.len() {
        lemma_utf8_len_prefix(s, i + 1);
        assert(s.take(i + 1).drop_last() =~= s.take(i));
    } else {
        assert(s.take(i) =~= s);
    }
}

/// What `validate_recipe` found wrong, before any step ran.
pub enum Fault {
    OutOfRange(i32, i32, u32, u32),
    Invalid(Seq<char>),
}

/// An error is the report of a fault.
pub open spec fn reports(e: CuaError, f: Fault) -> bool {
    match f {
        Fault::OutOfRange(x, y, w, h) => e == CuaError::OutOfRange(x, y, w, h),
        Fault::Invalid(m) => is_invalid(e, m),
    }
}

pub open spec fn point_fault(w: u32, h: u32, x: i32, y: i32) -> Option<Fault> {
    if on_display(w, h, x, y) {
        None
    } else {
        Some(Fault::OutOfRange(x, y, w, h))
    }
}

pub open spec fn button_fault(b: Option<u8>) -> Option<Fault> {
    match b {
        Some(v) => if button_ok(v) {
            None
        } else {
            Some(Fault::Invalid("button must be 1-7"@))
        },
        None => None,
    }
}

/// The first point of a release path that lies off the display.
pub open spec fn path_fault(w: u32, h: u32, p: Seq<CuaPoint>) -> Option<Fault>
    decreases p.len(),
{
    if p.len() == 0 {
        None
    } else {
        match point_fault(w, h, p[0].x, p[0].y) {
            Some(f) => Some(f),
            None => path_fault(w, h, p.drop_first()),
        }
    }
}

pub open spec fn or_else(a: Option<Fault>, b: Option<Fault>) -> Option<Fault> {
    match a {
        Some(f) => Some(f),
        None => b,
    }
}

pub open spec fn release_fault(
    w: u32,
    h: u32,
    x: Option<i32>,
    y: Option<i32>,
    b: Option<u8>,
    path: Option<Vec<CuaPoint>>,
) -> Option<Fault> {
    let xy = match (x, y) {
        (Some(px), Some(py)) => point_fault(w, h, px, py),
        (None, None) => None,
        _ => Some(Fault::Invalid("x and y must both be set or both omitted"@)),
    };
    or_else(
        xy,
        or_else(
            button_fault(b),
            match path {
                Some(p) => if p@.len() > MAX_MOTION_PATH {
                    Some(
                        Fault::Invalid(
                            "release path has "@ + dec_text(p@.len()) + " points; max is 64"@,
                        ),
                    )
                } else {
                    path_fault(w, h, p@)
                },
                None => None,
            },
        ),
    )
}

/// What is wrong with one step on a display of `w` by `h`, if anything.
pub open spec fn step_fault(w: u32, h: u32, s: RecipeStep) -> Option<Fault> {
    match s {
        RecipeStep::Click { x, y, button } => or_else(point_fault(w, h, x, y), button_fault(button)),
        RecipeStep::DoubleClick { x, y, button } => or_else(
            point_fault(w, h, x, y),
            button_fault(button),
        ),
        RecipeStep::Move { x, y } => point_fault(w, h, x, y),
        RecipeStep::Press { x, y, button } => or_else(point_fault(w, h, x, y), button_fault(button)),
        RecipeStep::Release { x, y, button, path } => release_fault(w, h, x, y, button, path),
        RecipeStep::Drag { x1, y1, x2, y2, button } => or_else(
            point_fault(w, h, x1, y1),
            or_else(point_fault(w, h, x2, y2), button_fault(button)),
        ),
        RecipeStep::Type { text } => if text@.len() == 0 {
            Some(Fault::Invalid("text must not be empty"@))
        } else if utf8_len(text@) > MAX_TYPE_BYTES {
            Some(Fault::Invalid("text is too long"@))
        } else {
            None
        },
        RecipeStep::Key { key, .. } => if key@.len() == 0 {
            Some(Fault::Invalid("key must not be empty"@))
        } else if !key_chars_ok(key@) {
            Some(Fault::Invalid("key contains invalid characters"@))
        } else {
            None
        },
        RecipeStep::Scroll { x, y, dx, dy } => or_else(
            point_fault(w, h, x, y),
            if dx == 0 && dy == 0 {
                Some(Fault::Invalid("dx and dy must not both be 0"@))
            } else {
                None
            },
        ),
        RecipeStep::Wait { ms } => if ms > MAX_WAIT_MS {
            Some(Fault::Invalid("wait "@ + dec_text(ms as nat) + "ms exceeds max 10000ms"@))
        } else {
            None
        },
        RecipeStep::Screenshot {  } => None,
        RecipeStep::ResetDesktop {  } => None,
    }
}

/// The fault of the first faulty step.
pub open spec fn first_fault(w: u32, h: u32, steps: Seq<RecipeStep>) -> Option<Fault>
    decreases steps.len(),
{
    if steps.len() == 0 {
        None
    } else {
        or_else(step_fault(w, h, steps[0]), first_fault(w, h, steps.drop_first()))
    }
}

} // verus!

verus! {

proof fn lemma_first_fault_step(w: u32, h: u32, steps: Seq<RecipeStep>, i: int)
    requires
        0 <= i < steps.len(),
        step_fault(w, h, steps[i]) is None,
    ensures
        first_fault(w, h, steps.skip(i)) == first_fault(w, h, steps.skip(i + 1)),
{
    assert(steps.skip(i)[0] == steps[i]);
    assert(steps.skip(i).drop_first() =~= steps.skip(i + 1));
}

proof fn lemma_path_fault_step(w: u32, h: u32, p: Seq<CuaPoint>, i: int)
    requires
        0 <= i < p.len(),
        point_fault(w, h, p[i].x, p[i].y) is None,
    ensures
        path_fault(w, h, p.skip(i)) == path_fault(w, h, p.skip(i + 1)),
{
    assert(p.skip(i)[0] == p[i]);
    assert(p.skip(i).drop_first() =~= p.skip(i + 1));
}

fn check_point(config: &CuaConfig, x: i32, y: i32) -> (r: Result<(), CuaError>)
    ensures
        match point_fault(config.width, config.height, x, y) {
            Some(f) => r is Err && reports(r->Err_0, f),
            None => r is Ok,
        },
{
    validate_point(config, x, y)
}

fn check_button(b: Option<u8>) -> (r: Result<(), CuaError>)
    ensures
        match button_fault(b) {
            Some(f) => r is Err && reports(r->Err_0, f),
            None => r is Ok,
        },
{
    match b {
        Some(v) => {
            if v < 1 || v > 7 {
                return Err(CuaError::Invalid("button must be 1-7".to_owned()));
            }
            Ok(())
        },
        None => Ok(()),
    }
}

fn check_release(
    config: &CuaConfig,
    x: Option<i32>,
    y: Option<i32>,
    button: Option<u8>,
    path: &Option<Vec<CuaPoint>>,
) -> (r: Result<(), CuaError>)
    ensures
        match release_fault(config.width, config.height, x, y, button, *path) {
            Some(f) => r is Err && reports(r->Err_0, f),
            None => r is Ok,
        },
{
    match (x, y) {
        (Some(px), Some(py)) => {
            check_point(config, px, py)?;
        },
        (None, None) => {},
        _ => {
            return Err(CuaError::Invalid("x and y must both be set or both omitted".to_owned()));
        },
    }
    check_button(button)?;
    if let Some(p) = path {
        if p.len() > MAX_MOTION_PATH {
            let mut v: Vec<char> = Vec::new();
            extend_str(&mut v, "release path has ");
            extend_str(&mut v, nat_string(p.len() as u64).as_str());
            extend_str(&mut v, " points; max is 64");
            return Err(CuaError::Invalid(string_of(v.as_slice())));
        }
        let mut i: usize = 0;
        assert(p@.skip(0) =~= p@);
        while i < p.len()
            invariant
                i <= p@.len(),
                release_fault(config.width, config.height, x, y, button, *path) == path_fault(
                    config.width,
                    config.height,
                    p@.skip(i as int),
                ),
            decreases p@.len() - i,
        {
            let pt = p[i];
            assert(p@.skip(i as int)[0] == pt);
            let c = check_point(config, pt.x, pt.y);
            if c.is_err() {
                return c;
            }
            proof {
                lemma_path_fault_step(config.width, config.height, p@, i as int);
            }
            i = i + 1;
        }
        assert(p@.skip(p@.len() as int).len() == 0);
    }
    Ok(())
}

/// Check one step against the display, as `validate_recipe` does.
pub fn check_step(config: &CuaConfig, step: &RecipeStep) -> (r: Result<(), CuaError>)
    ensures
        match step_fault(config.width, config.height, *step) {
            Some(f) => r is Err && reports(r->Err_0, f),
            None => r is Ok,
        },
{
    match step {
        RecipeStep::Click { x, y, button } => {
            check_point(config, *x, *y)?;
            check_button(*button)
        },
        RecipeStep::DoubleClick { x, y, button } => {
            check_point(config, *x, *y)?;
            check_button(*button)
        },
        RecipeStep::Move { x, y } => check_point(config, *x, *y),
        RecipeStep::Press { x, y, button } => {
            check_point(config, *x, *y)?;
            check_button(*button)
        },
        RecipeStep::Release { x, y, button, path } => check_release(config, *x, *y, *button, path),
        RecipeStep::Drag { x1, y1, x2, y2, button } => {
            check_point(config, *x1, *y1)?;
            check_point(config, *x2, *y2)?;
            check_button(*button)
        },
        RecipeStep::Type { text } => {
            let t = chars_of(text.as_str());
            if t.len() == 0 {
                return Err(CuaError::Invalid("text must not be empty".to_owned()));
            }
            match utf8_len_upto(t.as_slice(), MAX_TYPE_BYTES) {
                Some(_) => Ok(()),
                None => Err(CuaError::Invalid("text is too long".to_owned())),
            }
        },
        RecipeStep::Key { key, .. } => validate_key(key.as_str()),
        RecipeStep::Scroll { x, y, dx, dy } => {
            check_point(config, *x, *y)?;
            if *dx == 0 && *dy == 0 {
                return Err(CuaError::Invalid("dx and dy must not both be 0".to_owned()));
            }
            Ok(())
        },
        RecipeStep::Wait { ms } => {
            if *ms > MAX_WAIT_MS {
                let mut v: Vec<char> = Vec::new();
                extend_str(&mut v, "wait ");
                extend_str(&mut v, nat_string(*ms).as_str());
                extend_str(&mut v, "ms exceeds max 10000ms");
                return Err(CuaError::Invalid(string_of(v.as_slice())));
            }
            Ok(())
        },
        RecipeStep::Screenshot {  } => Ok(()),
        RecipeStep::ResetDesktop {  } => Ok(()),
    }
}

} // verus!

verus! {

/// `Path::join`: an absolute `p` replaces the base; otherwise one `/` goes
/// between them unless the base is empty or already ends in one.
pub open spec fn path_join(root: Seq<char>, p: Seq<char>) -> Seq<char> {
    if p.len() > 0 && p[0] == '/' {
        p
    } else if root.len() == 0 {
        p
    } else if root.last() == '/' {
        root + p
    } else {
        root + seq!['/'] + p
    }
}

/// `p` is the workspace root itself or a path under it.
pub open spec fn under_root(p: Seq<char>, root: Seq<char>) -> bool {
    let rn = crate::text::trim_end(root, CharClass::Is('/'));
    p == rn || crate::text::has_prefix(p, rn.push('/'))
}

pub open spec fn escapes(t: Seq<char>) -> bool {
    t.contains('\0') || split(t, CharClass::Is('/')).contains(seq!['.', '.'])
}

/// Where an `artifact_dir` lands under `root`, or why it is refused.
pub open spec fn artifact_dir(raw: Seq<char>, root: Seq<char>) -> Result<Seq<char>, Seq<char>> {
    let t = trim(raw, CharClass::Whitespace);
    if t.len() == 0 {
        Err("artifact_dir must not be empty"@)
    } else if escapes(t) || !under_root(path_join(root, t), root) {
        Err("artifact_dir must stay inside the workspace"@)
    } else {
        Ok(path_join(root, t))
    }
}

fn has_dotdot_piece(t: &[char]) -> (b: bool)
    ensures
        b == split(t@, CharClass::Is('/')).contains(seq!['.', '.']),
{
    let parts = split_class(t, CharClass::Is('/'));
    let dd: Vec<char> = vec!['.', '.'];
    assert(dd@ =~= seq!['.', '.']);
    let mut i: usize = 0;
    while i < parts.len()
        invariant
            i <= parts@.len(),
            parts.deep_view() == split(t@, CharClass::Is('/')),
            dd@ == seq!['.', '.'],
            forall|j: int| 0 <= j < i ==> parts.deep_view()[j] != seq!['.', '.'],
        decreases parts@.len() - i,
    {
        assert(parts.deep_view()[i as int] == parts@[i as int]@);
        if chars_eq(parts[i].as_slice(), dd.as_slice()) {
            return true;
        }
        i = i + 1;
    }
    false
}

/// Resolve a recipe's `artifact_dir` under the workspace root `root`.
pub fn resolve_artifact_dir(raw: &str, root: &str) -> (r: Result<String, CuaError>)
    ensures
        match artifact_dir(raw@, root@) {
            Ok(p) => r is Ok && r->Ok_0@ == p,
            Err(m) => r is Err && is_invalid(r->Err_0, m),
        },
{
    let t = trim_class(chars_of(raw).as_slice(), CharClass::Whitespace);
    if t.len() == 0 {
        return Err(CuaError::Invalid("artifact_dir must not be empty".to_owned()));
    }
    let nul = crate::text::contains_class(t.as_slice(), CharClass::Is('\0'));
    proof {
        if nul {
            let k = choose|k: int| 0 <= k < t@.len() && in_class(CharClass::Is('\0'), #[trigger] t@[k]);
            assert(t@[k] == '\0');
        }
        if t@.contains('\0') {
            let k = choose|k: int| 0 <= k < t@.len() && t@[k] == '\0';
            assert(in_class(CharClass::Is('\0'), t@[k]));
        }
    }
    if nul || has_dotdot_piece(t.as_slice()) {
        return Err(CuaError::Invalid("artifact_dir must stay inside the workspace".to_owned()));
    }
    let rc = chars_of(root);
    let mut joined: Vec<char> = Vec::new();
    if t[0] == '/' || rc.len() == 0 {
        extend_chars(&mut joined, t.as_slice());
    } else if rc[rc.len() - 1] == '/' {
        extend_chars(&mut joined, rc.as_slice());
        extend_chars(&mut joined, t.as_slice());
    } else {
        extend_chars(&mut joined, rc.as_slice());
        joined.push('/');
        extend_chars(&mut joined, t.as_slice());
    }
    assert(joined@ =~= path_join(root@, t@));
    let mut rn = crate::text::trim_end_class(rc.as_slice(), CharClass::Is('/'));
    let same = chars_eq(joined.as_slice(), rn.as_slice());
    rn.push('/');
    let below = starts_with(joined.as_slice(), rn.as_slice());
    if !same && !below {
        return Err(CuaError::Invalid("artifact_dir must stay inside the workspace".to_owned()));
    }
    Ok(string_of(joined.as_slice()))
}

/// What is wrong with a recipe, checked before any step runs: its size, its
/// artifact directory, then each step in order.
pub open spec fn recipe_fault(w: u32, h: u32, req: RecipeRequest, root: Seq<char>) -> Option<
    Fault,
> {
    let n = req.steps@.len();
    if n == 0 {
        Some(Fault::Invalid("recipe steps must not be empty"@))
    } else if n > MAX_RECIPE_STEPS {
        Some(Fault::Invalid("recipe has "@ + dec_text(n) + " steps; max is 256"@))
    } else {
        match req.artifact_dir {
            Some(d) => match artifact_dir(d@, root) {
                Err(m) => Some(Fault::Invalid(m)),
                Ok(_) => first_fault(w, h, req.steps@),
            },
            None => first_fault(w, h, req.steps@),
        }
    }
}

/// Check a whole recipe before running it; `workspace_root` is where
/// artifact directories must stay.
pub fn validate_recipe(config: &CuaConfig, req: &RecipeRequest, workspace_root: &str) -> (r:
    Result<(), CuaError>)
    ensures
        match recipe_fault(config.width, config.height, *req, workspace_root@) {
            Some(f) => r is Err && reports(r->Err_0, f),
            None => r is Ok,
        },
{
    let n = req.steps.len();
    if n == 0 {
        return Err(CuaError::Invalid("recipe steps must not be empty".to_owned()));
    }
    if n > MAX_RECIPE_STEPS {
        let mut v: Vec<char> = Vec::new();
        extend_str(&mut v, "recipe has ");
        extend_str(&mut v, nat_string(n as u64).as_str());
        extend_str(&mut v, " steps; max is 256");
        return Err(CuaError::Invalid(string_of(v.as_slice())));
    }
    if let Some(d) = &req.artifact_dir {
        match resolve_artifact_dir(d.as_str(), workspace_root) {
            Ok(_) => {},
            Err(e) => {
                return Err(e);
            },
        }
    }
    let mut i: usize = 0;
    assert(req.steps@.skip(0) =~= req.steps@);
    while i < req.steps.len()
        invariant
            i <= req.steps@.len(),
            recipe_fault(config.width, config.height, *req, workspace_root@) == first_fault(
                config.width,
                config.height,
                req.steps@.skip(i as int),
            ),
        decreases req.steps@.len() - i,
    {
        assert(req.steps@.skip(i as int)[0] == req.steps@[i as int]);
        let c = check_step(config, &req.steps[i]);
        if c.is_err() {
            return c;
        }
        proof {
            lemma_first_fault_step(config.width, config.height, req.steps@, i as int);
        }
        i = i + 1;
    }
    Ok(())
}

} // verus!

verus! {

/// What one step did, in the receipt.
#[derive(Debug, Clone)]
pub struct RecipeStepResult {
    pub index: usize,
    pub op: &'static str,
    pub ok: bool,
    pub ms: u64,
    pub error: Option<String>,
    pub screenshot: Option<ScreenshotResponse>,
}

/// A file the recipe left in the workspace.
#[derive(Debug, Clone)]
pub struct RecipeArtifact {
    pub kind: &'static str,
    pub label: String,
    pub path: String,
    pub mime: &'static str,
    pub bytes: u64,
    pub width: Option<u32>,
    pub height: Option<u32>,
    pub step_index: Option<usize>,
}

/// The receipt of a whole recipe.
#[derive(Debug, Clone)]
pub struct RecipeResponse {
    pub ok: bool,
    pub name: Option<String>,
    pub ran: usize,
    pub stopped_at: Option<usize>,
    pub duration_ms: u64,
    pub steps: Vec<RecipeStepResult>,
    pub screenshot: Option<ScreenshotResponse>,
    pub artifacts: Vec<RecipeArtifact>,
    pub recording_error: Option<String>,
}

/// A saved screenshot as an artifact; `None` when the frame was only inlined.
pub fn artifact_from_shot(shot: &ScreenshotResponse, label: &str, step_index: Option<usize>) -> (a:
    Option<RecipeArtifact>)
    ensures
        shot.path is None ==> a is None,
        shot.path is Some ==> (a matches Some(art) && art.kind@ == "screenshot"@ && art.label@
            == label@ && art.path@ == shot.path->Some_0@ && art.mime@ == "image/png"@ && art.bytes
            == shot.bytes && art.width == Some(shot.width) && art.height == Some(shot.height)
            && art.step_index == step_index),
{
    match &shot.path {
        None => None,
        Some(p) => Some(
            RecipeArtifact {
                kind: "screenshot",
                label: label.to_owned(),
                path: p.clone(),
                mime: "image/png",
                bytes: shot.bytes as u64,
                width: Some(shot.width),
                height: Some(shot.height),
                step_index,
            },
        ),
    }
}

/// How a step ended, as the receipt records it.
pub enum StepOutcome {
    /// The step returned an error.
    Failed(CuaError),
    /// The step ran; the capture taken after it, if one was wanted.
    Done(Option<Result<ScreenshotResponse, CuaError>>),
}

/// Whether a step that ran counts as succeeded.
pub open spec fn outcome_ok(step: RecipeStep, o: StepOutcome) -> bool {
    match o {
        StepOutcome::Failed(_) => false,
        StepOutcome::Done(Some(Err(_))) => !(step is Screenshot),
        StepOutcome::Done(_) => true,
    }
}

/// The error text a step's outcome leaves in the receipt.
pub open spec fn outcome_error(step: RecipeStep, o: StepOutcome) -> Option<Seq<char>> {
    match o {
        StepOutcome::Failed(e) => Some(crate::cua::error_text(e)),
        StepOutcome::Done(Some(Err(e))) => if step is Screenshot {
            Some(crate::cua::error_text(e))
        } else {
            None
        },
        StepOutcome::Done(_) => None,
    }
}

/// Number of results that succeeded.
pub open spec fn ok_count(s: Seq<RecipeStepResult>) -> nat
    decreases s.len(),
{
    if s.len() == 0 {
        0
    } else {
        ok_count(s.drop_last()) + if s.last().ok {
            1nat
        } else {
            0
        }
    }
}

pub open spec fn all_ok(s: Seq<RecipeStepResult>) -> bool {
    forall|i: int| 0 <= i < s.len() ==> (#[trigger] s[i]).ok
}

/// The bookkeeping of a running recipe: which step is next, and the receipt
/// so far. The caller performs each step and reports how it went.
pub struct RecipeRun {
    stop_on_error: bool,
    shot_mode: RecipeScreenshot,
    settle: RecipeSettle,
    total: usize,
    next: usize,
    ok: bool,
    halted: bool,
    ended: bool,
    stopped_at: Option<usize>,
    steps: Vec<RecipeStepResult>,
    artifacts: Vec<RecipeArtifact>,
    final_shot: Option<ScreenshotResponse>,
    recording_error: Option<String>,
}

impl RecipeRun {
    pub closed spec fn results(&self) -> Seq<RecipeStepResult> {
        self.steps@
    }

    pub closed spec fn artifacts(&self) -> Seq<RecipeArtifact> {
        self.artifacts@
    }

    /// Index of the next step to run, if the run goes on.
    pub closed spec fn pending(&self) -> Option<usize> {
        if !self.halted && !self.ended && self.next < self.total {
            Some(self.next)
        } else {
            None
        }
    }

    pub closed spec fn stops_on_error(&self) -> bool {
        self.stop_on_error
    }

    pub closed spec fn succeeded(&self) -> bool {
        self.ok
    }

    pub closed spec fn stop_index(&self) -> Option<usize> {
        self.stopped_at
    }

    pub closed spec fn steps_run(&self) -> nat {
        self.next as nat
    }

    pub closed spec fn step_total(&self) -> nat {
        self.total as nat
    }

    pub closed spec fn shot_mode(&self) -> RecipeScreenshot {
        self.shot_mode
    }

    pub closed spec fn settle_mode(&self) -> RecipeSettle {
        self.settle
    }

    pub closed spec fn finished(&self) -> bool {
        self.ended
    }

    /// Why the screen recording failed, if it did.
    pub closed spec fn recording_problem(&self) -> Option<Seq<char>> {
        opt_view(self.recording_error)
    }

    /// The receipt is consistent with the steps run so far.
    pub closed spec fn wf(&self) -> bool {
        &&& self.next <= self.total
        &&& self.steps@.len() == self.next + if self.ended {
            1nat
        } else {
            0
        } || (self.ended && self.steps@.len() == self.next)
        &&& forall|i: int| 0 <= i < self.steps@.len() ==> (#[trigger] self.steps@[i]).index == i
        &&& self.ok == all_ok(self.steps@)
        &&& (self.stopped_at matches Some(i) ==> i + 1 == self.steps@.len()
            && !self.steps@[i as int].ok)
        &&& self.stop_on_error && !self.ok ==> self.stopped_at is Some
        &&& self.halted && !self.ended ==> self.stop_on_error && self.next >= 1 && self.stopped_at == Some(
            (self.next - 1) as usize,
        ) && !self.steps@[self.next - 1].ok
        &&& !self.ended && self.stop_on_error && !self.ok ==> self.halted
        &&& self.stop_on_error ==> forall|i: int|
            0 <= i < self.steps@.len() - 1 ==> (#[trigger] self.steps@[i]).ok
        &&& !self.ended && !self.halted ==> self.stopped_at is None
    }

    /// A run about to start on `req`.
    pub fn start(req: &RecipeRequest) -> (r: Self)
        ensures
            r.wf(),
            r.results().len() == 0,
            r.artifacts().len() == 0,
            r.steps_run() == 0,
            r.step_total() == req.steps@.len(),
            r.succeeded(),
            r.stop_index() is None,
            !r.finished(),
            r.recording_problem() is None,
            r.pending() == if req.steps@.len() > 0 {
                Some(0usize)
            } else {
                None::<usize>
            },
            r.stops_on_error() == match req.stop_on_error {
                Some(v) => v,
                None => true,
            },
            r.shot_mode() == match req.screenshot {
                Some(v) => v,
                None => RecipeScreenshot::End,
            },
            r.settle_mode() == match req.settle {
                Some(v) => v,
                None => RecipeSettle::Compressed,
            },
    {
        RecipeRun {
            stop_on_error: req.stop_on_error(),
            shot_mode: req.screenshot_mode(),
            settle: req.settle_mode(),
            total: req.steps.len(),
            next: 0,
            ok: true,
            halted: false,
            ended: false,
            stopped_at: None,
            steps: Vec::new(),
            artifacts: Vec::new(),
            final_shot: None,
            recording_error: None,
        }
    }

    /// The index of the step to run next, or `None` when the run is over:
    /// every step ran, or one failed and the recipe stops on errors.
    pub fn next_index(&self) -> (r: Option<usize>)
        ensures
            r == self.pending(),
    {
        if !self.halted && !self.ended && self.next < self.total {
            Some(self.next)
        } else {
            None
        }
    }

    /// A capture is taken after a step that succeeded when the step is a
    /// `screenshot`, or when every step is captured and this one is not a
    /// `wait`.
    pub fn wants_shot(&self, step: &RecipeStep) -> (b: bool)
        ensures
            b == (step is Screenshot || (self.shot_mode() == RecipeScreenshot::Each
                && !(step is Wait))),
    {
        match step {
            RecipeStep::Screenshot {  } => true,
            RecipeStep::Wait { .. } => false,
            _ => self.shot_mode == RecipeScreenshot::Each,
        }
    }

    /// Record how the pending step went.
    pub fn step_done(&mut self, step: &RecipeStep, ms: u64, outcome: StepOutcome)
        requires
            old(self).wf(),
            old(self).pending() is Some,
        ensures
            final(self).recording_problem() == old(self).recording_problem(),
            final(self).wf(),
            !final(self).finished(),
            final(self).steps_run() == old(self).steps_run() + 1,
            final(self).step_total() == old(self).step_total(),
            final(self).stops_on_error() == old(self).stops_on_error(),
            final(self).shot_mode() == old(self).shot_mode(),
            final(self).settle_mode() == old(self).settle_mode(),
            final(self).results().len() == old(self).results().len() + 1,
            final(self).results().drop_last() == old(self).results(),
            ({
                let r = final(self).results().last();
                &&& r.index == old(self).steps_run()
                &&& r.op@ == op_text(*step)
                &&& r.ok == outcome_ok(*step, outcome)
                &&& r.ms == ms
                &&& match outcome_error(*step, outcome) {
                    Some(m) => r.error is Some && r.error->Some_0@ == m,
                    None => r.error is None,
                }
            }),
            final(self).succeeded() == (old(self).succeeded() && outcome_ok(*step, outcome)),
            !outcome_ok(*step, outcome) && old(self).stops_on_error() ==> final(self).pending()
                is None && final(self).stop_index() == Some(old(self).steps_run() as usize),
            outcome_ok(*step, outcome) || !old(self).stops_on_error() ==> final(self).stop_index()
                == old(self).stop_index(),
            (match outcome {
                StepOutcome::Done(Some(Ok(shot))) => shot.path is Some,
                _ => false,
            }) ==> final(self).artifacts().len() == old(self).artifacts().len() + 1
                && final(self).artifacts().drop_last() == old(self).artifacts(),
            !(match outcome {
                StepOutcome::Done(Some(Ok(shot))) => shot.path is Some,
                _ => false,
            }) ==> final(self).artifacts() == old(self).artifacts(),
    {
        let index = self.next;
        let op = step.op_name();
        let ghost old_steps = self.steps@;
        let result = match outcome {
            StepOutcome::Failed(e) => RecipeStepResult {
                index,
                op,
                ok: false,
                ms,
                error: Some(e.message()),
                screenshot: None,
            },
            StepOutcome::Done(None) => RecipeStepResult {
                index,
                op,
                ok: true,
                ms,
                error: None,
                screenshot: None,
            },
            StepOutcome::Done(Some(Ok(shot))) => {
                let label = {
                    let mut v: Vec<char> = Vec::new();
                    extend_str(&mut v, "step ");
                    extend_str(&mut v, nat_string(index as u64).as_str());
                    string_of(v.as_slice())
                };
                if let Some(art) = artifact_from_shot(&shot, label.as_str(), Some(index)) {
                    self.artifacts.push(art);
                }
                RecipeStepResult { index, op, ok: true, ms, error: None, screenshot: Some(shot) }
            },
            StepOutcome::Done(Some(Err(e))) => {
                let is_shot = match step {
                    RecipeStep::Screenshot {  } => true,
                    _ => false,
                };
                if is_shot {
                    RecipeStepResult {
                        index,
                        op,
                        ok: false,
                        ms,
                        error: Some(e.message()),
                        screenshot: None,
                    }
                } else {
                    RecipeStepResult { index, op, ok: true, ms, error: None, screenshot: None }
                }
            },
        };
        let step_ok = result.ok;
        self.steps.push(result);
        self.next = self.next + 1;
        self.ok = self.ok && step_ok;
        if !step_ok && self.stop_on_error {
            self.stopped_at = Some(index);
            self.halted = true;
        }
        proof {
            assert(self.steps@.drop_last() =~= old_steps);
            assert forall|i: int| 0 <= i < self.next implies (#[trigger] self.steps@[i]).index
                == i by {
                if i < index {
                    assert(self.steps@[i] == old_steps[i]);
                }
            }
            if self.ok {
                assert forall|i: int| 0 <= i < self.steps@.len() implies (
                #[trigger] self.steps@[i]).ok by {
                    if i < old_steps.len() {
                        assert(self.steps@[i] == old_steps[i]);
                    }
                }
            } else {
                if !old(self).ok {
                    let k = choose|k: int| 0 <= k < old_steps.len() && !(#[trigger] old_steps[k]).ok;
                    assert(self.steps@[k] == old_steps[k]);
                }
                assert(!self.steps@[self.steps@.len() - 1].ok || !old(self).ok);
            }
            if self.stop_on_error {
                assert forall|i: int| 0 <= i < self.steps@.len() - 1 implies (
                #[trigger] self.steps@[i]).ok by {
                    assert(self.steps@[i] == old_steps[i]);
                    assert(old(self).ok);
                }
            }
        }
    }

    /// A capture is taken once the steps are done when every step succeeded
    /// and the recipe asked for a capture at the end.
    pub fn wants_end_shot(&self) -> (b: bool)
        ensures
            b == (self.succeeded() && self.shot_mode() == RecipeScreenshot::End),
    {
        self.ok && self.shot_mode == RecipeScreenshot::End
    }

    /// After a raw-settle recipe whose steps all succeeded and whose last
    /// step is a click, the caller closes Chromium windows.
    pub fn closes_browser_after(&self, req: &RecipeRequest) -> (b: bool)
        ensures
            b == (self.succeeded() && self.settle_mode() == RecipeSettle::Raw
                && req.steps@.len() > 0 && req.steps@.last() is Click),
    {
        if !self.ok || self.settle != RecipeSettle::Raw || req.steps.len() == 0 {
            return false;
        }
        match &req.steps[req.steps.len() - 1] {
            RecipeStep::Click { .. } => true,
            _ => false,
        }
    }

    /// Record the capture taken at the end; a failure becomes one more
    /// failed `screenshot` result and ends the run unsuccessfully.
    pub fn end_shot(&mut self, outcome: Result<ScreenshotResponse, CuaError>)
        requires
            old(self).wf(),
            !old(self).finished(),
            old(self).succeeded(),
            old(self).shot_mode() == RecipeScreenshot::End,
        ensures
            final(self).recording_problem() == old(self).recording_problem(),
            final(self).wf(),
            final(self).finished(),
            final(self).steps_run() == old(self).steps_run(),
            final(self).stops_on_error() == old(self).stops_on_error(),
            outcome is Ok ==> final(self).results() == old(self).results(),
            outcome is Ok ==> final(self).succeeded() == old(self).succeeded(),
            outcome is Ok ==> final(self).stop_index() == old(self).stop_index(),
            outcome is Err ==> final(self).results().len() == old(self).results().len() + 1,
            outcome is Err ==> final(self).results().drop_last() == old(self).results(),
            outcome is Err ==> !final(self).succeeded(),
            outcome is Err ==> final(self).results().last().op@ == "screenshot"@,
            outcome is Err ==> !final(self).results().last().ok,
            outcome is Err ==> final(self).results().last().index == old(self).results().len(),
            outcome is Err ==> final(self).stop_index() == Some(old(self).results().len() as usize),
    {
        let ghost old_steps = self.steps@;
        match outcome {
            Ok(shot) => {
                if let Some(art) = artifact_from_shot(&shot, "end", None) {
                    self.artifacts.push(art);
                }
                self.final_shot = Some(shot);
            },
            Err(e) => {
                let index = self.steps.len();
                self.steps.push(
                    RecipeStepResult {
                        index,
                        op: "screenshot",
                        ok: false,
                        ms: 0,
                        error: Some(e.message()),
                        screenshot: None,
                    },
                );
                self.ok = false;
                self.stopped_at = Some(index);
                proof {
                    assert(self.steps@.drop_last() =~= old_steps);
                    assert(!self.steps@[self.steps@.len() - 1].ok);
                    assert forall|i: int| 0 <= i < self.next implies (
                    #[trigger] self.steps@[i]).index == i by {
                        assert(self.steps@[i] == old_steps[i]);
                    }
                }
            },
        }
        self.ended = true;
    }

    /// Add the screen recording to the artifacts.
    pub fn recorded(&mut self, art: RecipeArtifact)
        requires
            old(self).wf(),
        ensures
            final(self).recording_problem() == old(self).recording_problem(),
            final(self).wf(),
            final(self).results() == old(self).results(),
            final(self).succeeded() == old(self).succeeded(),
            final(self).artifacts() == old(self).artifacts().push(art),
            final(self).finished() == old(self).finished(),
    {
        self.artifacts.push(art);
    }

    /// The screen recording could not be started or finished.
    pub fn recording_failed(&mut self, message: String)
        requires
            old(self).wf(),
        ensures
            final(self).wf(),
            final(self).results() == old(self).results(),
            final(self).succeeded() == old(self).succeeded(),
            final(self).artifacts() == old(self).artifacts(),
            final(self).finished() == old(self).finished(),
            final(self).pending() == old(self).pending(),
            final(self).recording_problem() == Some(message@),
    {
        self.recording_error = Some(message);
    }

    /// The receipt: `ok` when no result failed, `ran` counts the results that
    /// succeeded, and every result recorded stays in it.
    pub fn finish(self, name: Option<String>, duration_ms: u64) -> (resp: RecipeResponse)
        requires
            self.wf(),
        ensures
            resp.ok == self.succeeded(),
            resp.ok == all_ok(resp.steps@),
            resp.steps@ == self.results(),
            resp.ran == ok_count(self.results()),
            resp.stopped_at == self.stop_index(),
            resp.artifacts@ == self.artifacts(),
            resp.name == name,
            resp.duration_ms == duration_ms,
            opt_view(resp.recording_error) == self.recording_problem(),
            forall|k: int| 0 <= k < resp.steps@.len() ==> (#[trigger] resp.steps@[k]).index == k,
            resp.steps@.len() <= self.step_total() + 1,
            (resp.stopped_at matches Some(i) ==> i + 1 == resp.steps@.len()
                && !resp.steps@[i as int].ok),
            self.stops_on_error() && !resp.ok ==> resp.stopped_at is Some,
            self.stops_on_error() ==> forall|k: int|
                0 <= k < resp.steps@.len() - 1 ==> (#[trigger] resp.steps@[k]).ok,
    {
        let mut ran: usize = 0;
        let mut i: usize = 0;
        while i < self.steps.len()
            invariant
                i <= self.steps@.len(),
                ran == ok_count(self.steps@.take(i as int)),
                ran <= i,
            decreases self.steps@.len() - i,
        {
            proof {
                assert(self.steps@.take(i + 1).drop_last() =~= self.steps@.take(i as int));
            }
            if self.steps[i].ok {
                ran = ran + 1;
            }
            i = i + 1;
        }
        assert(self.steps@.take(self.steps@.len() as int) =~= self.steps@);
        RecipeResponse {
            ok: self.ok,
            name,
            ran,
            stopped_at: self.stopped_at,
            duration_ms,
            steps: self.steps,
            screenshot: self.final_shot,
            artifacts: self.artifacts,
            recording_error: self.recording_error,
        }
    }
}

/// Once a step has failed in a recipe that stops on errors, no further step
/// is offered and every earlier step had succeeded; a recipe that does not
/// stop on errors is offered each step in turn until all have run.
pub proof fn law_run_stops_at_the_first_failure(run: RecipeRun)
    requires
        run.wf(),
        !run.finished(),
    ensures
        run.stops_on_error() && !all_ok(run.results()) ==> run.pending() is None,
        run.stops_on_error() ==> forall|i: int|
            0 <= i < run.results().len() - 1 ==> (#[trigger] run.results()[i]).ok,
        !run.stops_on_error() && run.steps_run() < run.step_total() ==> run.pending() == Some(
            run.steps_run() as usize,
        ),
        run.results().len() == run.steps_run(),
{
}

/// However a recipe that stops on errors ends, the end capture included,
/// every result but the last succeeded: it records at most one failure, as
/// its last entry.
pub proof fn law_stop_on_error_records_one_failure(run: RecipeRun)
    requires
        run.wf(),
    ensures
        run.stops_on_error() ==> forall|i: int|
            0 <= i < run.results().len() - 1 ==> (#[trigger] run.results()[i]).ok,
{
}

/// At every point of a run, and so in the receipt that `finish` hands out,
/// entry `k` reports step `k`, there is at most one entry per step plus the
/// end capture, a recorded stop points at the last entry, which failed, and a
/// recipe that stops on errors and has failed has recorded where it stopped.
pub proof fn law_receipt_shape(run: RecipeRun)
    requires
        run.wf(),
    ensures
        forall|k: int| 0 <= k < run.results().len() ==> (#[trigger] run.results()[k]).index == k,
        run.results().len() <= run.step_total() + 1,
        (run.stop_index() matches Some(i) ==> i + 1 == run.results().len()
            && !run.results()[i as int].ok),
        run.stops_on_error() && !all_ok(run.results()) ==> run.stop_index() is Some,
{
}

} // verus!

verus! {

pub open spec fn key_is_return(k: Seq<char>) -> bool {
    crate::text::eq_nocase(k, "Return"@) || crate::text::eq_nocase(k, "Enter"@)
}

pub open spec fn key_is_ctrl(k: Seq<char>) -> bool {
    crate::text::eq_nocase(k, "ctrl"@) || crate::text::eq_nocase(k, "control"@)
}

fn eq_ignore_ascii_case(a: &str, b: &str) -> (r: bool)
    ensures
        r == crate::text::eq_nocase(a@, b@),
{
    let ca = chars_of(a);
    let cb = chars_of(b);
    crate::text::eq_ignore_case(ca.as_slice(), cb.as_slice())
}

/// `Return` or `Enter`, in any case.
pub fn is_return_key(key: &str) -> (b: bool)
    ensures
        b == key_is_return(key@),
{
    eq_ignore_ascii_case(key, "Return") || eq_ignore_ascii_case(key, "Enter")
}

/// `ctrl` or `control`, in any case.
pub fn is_ctrl_key(key: &str) -> (b: bool)
    ensures
        b == key_is_ctrl(key@),
{
    eq_ignore_ascii_case(key, "ctrl") || eq_ignore_ascii_case(key, "control")
}

/// The modifier and last-key state after a step: a key step records its key
/// and moves Ctrl down or up; a wait leaves everything; any other step
/// forgets the last key, and a type, click or reset also lets Ctrl go.
pub open spec fn key_state_after(step: RecipeStep, ctrl: bool, last: Option<Seq<char>>) -> (
    bool,
    Option<Seq<char>>,
) {
    match step {
        RecipeStep::Key { key, action } => {
            let act = match action {
                Some(a) => a,
                None => KeyAction::Tap,
            };
            let c = if key_is_ctrl(key@) {
                match act {
                    KeyAction::Down => true,
                    KeyAction::Up => false,
                    KeyAction::Tap => ctrl,
                }
            } else {
                ctrl
            };
            (c, Some(key@))
        },
        RecipeStep::Wait { .. } => (ctrl, last),
        RecipeStep::Type { .. } | RecipeStep::Click { .. } | RecipeStep::ResetDesktop {  } => (
            false,
            None,
        ),
        _ => (ctrl, None),
    }
}

pub open spec fn opt_view(o: Option<String>) -> Option<Seq<char>> {
    match o {
        Some(s) => Some(s@),
        None => None,
    }
}

/// Track whether Ctrl is held and which key was pressed last.
pub fn track_key_state(step: &RecipeStep, ctrl_held: &mut bool, last_key: &mut Option<String>)
    ensures
        (*final(ctrl_held), opt_view(*final(last_key))) == key_state_after(
            *step,
            *old(ctrl_held),
            opt_view(*old(last_key)),
        ),
{
    match step {
        RecipeStep::Key { key, action } => {
            let act = match action {
                Some(a) => *a,
                None => KeyAction::Tap,
            };
            if is_ctrl_key(key.as_str()) {
                match act {
                    KeyAction::Down => {
                        *ctrl_held = true;
                    },
                    KeyAction::Up => {
                        *ctrl_held = false;
                    },
                    KeyAction::Tap => {},
                }
            }
            *last_key = Some(key.clone());
        },
        RecipeStep::Wait { .. } => {},
        RecipeStep::Type { .. } | RecipeStep::Click { .. } | RecipeStep::ResetDesktop {  } => {
            *last_key = None;
            *ctrl_held = false;
        },
        _ => {
            *last_key = None;
        },
    }
}

/// How long to wait for an application window after a dock click.
pub fn app_wait_ms(settle: RecipeSettle) -> (ms: u64)
    ensures
        ms == match settle {
            RecipeSettle::Raw => 6000u64,
            RecipeSettle::Compressed => 4000u64,
            RecipeSettle::Off => 0u64,
        },
{
    match settle {
        RecipeSettle::Raw => 6_000,
        RecipeSettle::Compressed => 4_000,
        RecipeSettle::Off => 0,
    }
}

/// How long to wait for the page to change after `Return`.
pub fn page_wait_ms(settle: RecipeSettle) -> (ms: u64)
    ensures
        ms == match settle {
            RecipeSettle::Raw => 5000u64,
            RecipeSettle::Compressed => 3000u64,
            RecipeSettle::Off => 0u64,
        },
{
    match settle {
        RecipeSettle::Raw => 5_000,
        RecipeSettle::Compressed => 3_000,
        RecipeSettle::Off => 0,
    }
}

/// The page is read before a step when settling is on and the step presses
/// `Return`, so a navigation can be waited for afterwards.
pub fn wants_page_snap(settle: RecipeSettle, step: &RecipeStep) -> (b: bool)
    ensures
        b == (settle != RecipeSettle::Off && (step matches RecipeStep::Key { key, .. }
            && key_is_return(key@))),
{
    if settle == RecipeSettle::Off {
        return false;
    }
    match step {
        RecipeStep::Key { key, .. } => is_return_key(key.as_str()),
        _ => false,
    }
}

/// The omnibox is being focused: `ctrl+l`, `l` while Ctrl is held, or Ctrl
/// released right after `l`. The caller then lets the omnibox settle.
pub fn focuses_omnibox(key: &str, action: Option<KeyAction>, ctrl_held: bool, last_key: &Option<
    String,
>) -> (b: bool)
    ensures
        b == (crate::text::eq_nocase(key@, "ctrl+l"@) || (crate::text::eq_nocase(key@, "l"@)
            && ctrl_held) || (key_is_ctrl(key@) && action == Some(KeyAction::Up) && (
        last_key matches Some(k) && crate::text::eq_nocase(k@, "l"@)))),
{
    if eq_ignore_ascii_case(key, "ctrl+l") {
        return true;
    }
    if eq_ignore_ascii_case(key, "l") && ctrl_held {
        return true;
    }
    let up = match action {
        Some(KeyAction::Up) => true,
        _ => false,
    };
    if is_ctrl_key(key) && up {
        match last_key {
            Some(k) => eq_ignore_ascii_case(k.as_str(), "l"),
            None => false,
        }
    } else {
        false
    }
}

/// How a file the recipe wrote is reported: under `/workspace/` when it lies
/// in the workspace root, else as it is.
pub open spec fn workspace_shown(root: Seq<char>, path: Seq<char>) -> Seq<char> {
    if crate::common::jail::starts_with_path(path, root) {
        "/workspace/"@ + crate::common::jail::join(
            crate::common::jail::comps(path).skip(crate::common::jail::comps(root).len() as int),
        )
    } else {
        path
    }
}

/// The path of an artifact as the caller sees it.
pub fn display_workspace_path(root: &str, path: &str) -> (s: String)
    ensures
        s@ == workspace_shown(root@, path@),
{
    if !crate::common::jail::is_inside(path, root) {
        return path.to_owned();
    }
    let pc = crate::common::jail::components_of(chars_of(path).as_slice());
    let rc = crate::common::jail::components_of(chars_of(root).as_slice());
    let ghost pd = pc.deep_view();
    let mut rest: Vec<Vec<char>> = Vec::new();
    let mut i: usize = rc.len();
    let n = rc.len();
    assert(pd.subrange(n as int, n as int) =~= Seq::<Seq<char>>::empty());
    while i < pc.len()
        invariant
            n <= i <= pc@.len(),
            pd == pc.deep_view(),
            n == rc.deep_view().len(),
            rest.deep_view() == pd.subrange(n as int, i as int),
        decreases pc@.len() - i,
    {
        let ghost o = rest.deep_view();
        assert(pd[i as int] == pc@[i as int]@);
        let c = pc[i].clone();
        proof {
            crate::text::lemma_deep_chars(c);
        }
        rest.push(c);
        assert(rest.deep_view() =~= o.push(pd[i as int]));
        assert(rest.deep_view() =~= pd.subrange(n as int, i + 1));
        i = i + 1;
    }
    assert(pd.subrange(n as int, pd.len() as int) =~= pd.skip(n as int));
    let mut v: Vec<char> = Vec::new();
    extend_str(&mut v, "/workspace/");
    let body = crate::common::jail::render_path(false, &rest);
    extend_chars(&mut v, body.as_slice());
    proof {
        reveal_strlit("/workspace/");
    }
    string_of(v.as_slice())
}

/// The screen recording as an artifact.
pub fn recording_artifact(config: &CuaConfig, path: String, mime: &'static str, bytes: u64) -> (a:
    RecipeArtifact)
    ensures
        a.kind@ == "recording"@,
        a.label@ == "cook"@,
        a.path == path,
        a.mime == mime,
        a.bytes == bytes,
        a.width == Some(config.width),
        a.height == Some(config.height),
        a.step_index is None,
{
    RecipeArtifact {
        kind: "recording",
        label: "cook".to_owned(),
        path,
        mime,
        bytes,
        width: Some(config.width),
        height: Some(config.height),
        step_index: None,
    }
}

} // verus!
