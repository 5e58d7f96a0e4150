//! Computer use: display geometry, the request shapes of the actuators, and
//! the checks every actuator runs before it touches the display.
use vstd::prelude::*;

use crate::num::{dec_text, int_string, int_text, nat_string, parse_unsigned};
use crate::text::{
    chars_of, extend_chars, extend_str, has_class, is_whitespace, split, string_of, trim,
    trim_class, views, CharClass,
};

pub mod encode;
pub mod keymap;
pub mod keys;
pub mod observe;
pub mod record;
pub mod recipe;
pub mod settle;

verus! {

/// Capability flag name advertised by the host gateway.
pub const CAPABILITY: &'static str = "cua";

/// Default framebuffer width of the box display.
pub const DISPLAY_WIDTH: u32 = 1280;

/// Default framebuffer height of the box display.
pub const DISPLAY_HEIGHT: u32 = 800;

/// Most points a release may travel through before letting go.
pub const MAX_MOTION_PATH: usize = 64;

/// Longest text one `type` may send, in bytes.
pub const MAX_TYPE_BYTES: usize = 16384;

/// The width and height a `BOX_DISPLAY_GEOM` value names: `WxH` or
/// `WxHxDEPTH`, both sizes positive decimal numbers.
pub open spec fn geometry_of(raw: Seq<char>) -> Option<(u32, u32)> {
    let ps = split(trim(raw, CharClass::Whitespace), CharClass::Is('x'));
    if ps.len() < 2 || ps.len() > 3 {
        None
    } else {
        match (parse_unsigned(ps[0], u32::MAX as int), parse_unsigned(ps[1], u32::MAX as int)) {
            (Some(w), Some(h)) => if w > 0 && h > 0 {
                Some((w as u32, h as u32))
            } else {
                None
            },
            _ => None,
        }
    }
}

/// Read a display geometry.
pub fn parse_geometry(raw: &str) -> (r: Option<(u32, u32)>)
    ensures
        r == geometry_of(raw@),
{
    let t = trim_class(chars_of(raw).as_slice(), CharClass::Whitespace);
    let ps = crate::text::split_class(t.as_slice(), CharClass::Is('x'));
    if ps.len() < 2 || ps.len() > 3 {
        return None;
    }
    assert(ps@[0]@ == ps.deep_view()[0]);
    assert(ps@[1]@ == ps.deep_view()[1]);
    let w = crate::num::parse_bounded(ps[0].as_slice(), 0xffff_ffff);
    let h = crate::num::parse_bounded(ps[1].as_slice(), 0xffff_ffff);
    match (w, h) {
        (Some(w), Some(h)) => {
            if w > 0 && h > 0 {
                Some((w as u32, h as u32))
            } else {
                None
            }
        },
        _ => None,
    }
}

/// Display geometry for the actuators.
#[derive(Clone, Debug)]
pub struct CuaConfig {
    pub display: String,
    pub width: u32,
    pub height: u32,
    pub enabled: bool,
}

impl CuaConfig {
    /// Computer use switched off, on the default display and geometry.
    pub fn disabled() -> (c: Self)
        ensures
            c.display@ == ":1"@,
            c.width == DISPLAY_WIDTH,
            c.height == DISPLAY_HEIGHT,
            !c.enabled,
    {
        CuaConfig {
            display: ":1".to_owned(),
            width: DISPLAY_WIDTH,
            height: DISPLAY_HEIGHT,
            enabled: false,
        }
    }

    /// True when computer use is enabled and the display socket is present.
    pub fn capability_ready(&self, display_up: bool) -> (b: bool)
        ensures
            b == (self.enabled && display_up),
    {
        self.enabled && display_up
    }
}

/// Why an actuator refused or failed.
#[derive(Debug, Clone)]
pub enum CuaError {
    Disabled,
    DisplayDown(String),
    OutOfRange(i32, i32, u32, u32),
    Invalid(String),
    Tool(String),
}

pub open spec fn is_invalid(e: CuaError, msg: Seq<char>) -> bool {
    e matches CuaError::Invalid(m) && m@ == msg
}

pub open spec fn is_tool(e: CuaError, msg: Seq<char>) -> bool {
    e matches CuaError::Tool(m) && m@ == msg
}

/// The sentence an error is shown as.
pub open spec fn error_text(e: CuaError) -> Seq<char> {
    match e {
        CuaError::Disabled => "computer use is disabled"@,
        CuaError::DisplayDown(d) => "display "@ + d@ + " is not available"@,
        CuaError::OutOfRange(x, y, w, h) => "coordinates ("@ + int_text(x as int) + ","@
            + int_text(y as int) + ") are outside "@ + dec_text(w as nat) + "x"@ + dec_text(
            h as nat,
        ),
        CuaError::Invalid(m) => "invalid request: "@ + m@,
        CuaError::Tool(m) => "tool failed: "@ + m@,
    }
}

impl CuaError {
    /// The sentence this error is shown as.
    pub fn message(&self) -> (s: String)
        ensures
            s@ == error_text(*self),
    {
        let mut v: Vec<char> = Vec::new();
        match self {
            CuaError::Disabled => {
                extend_str(&mut v, "computer use is disabled");
            },
            CuaError::DisplayDown(d) => {
                extend_str(&mut v, "display ");
                extend_str(&mut v, d.as_str());
                extend_str(&mut v, " is not available");
            },
            CuaError::OutOfRange(x, y, w, h) => {
                extend_str(&mut v, "coordinates (");
                extend_str(&mut v, int_string(*x as i64).as_str());
                extend_str(&mut v, ",");
                extend_str(&mut v, int_string(*y as i64).as_str());
                extend_str(&mut v, ") are outside ");
                extend_str(&mut v, nat_string(*w as u64).as_str());
                extend_str(&mut v, "x");
                extend_str(&mut v, nat_string(*h as u64).as_str());
            },
            CuaError::Invalid(m) => {
                extend_str(&mut v, "invalid request: ");
                extend_str(&mut v, m.as_str());
            },
            CuaError::Tool(m) => {
                extend_str(&mut v, "tool failed: ");
                extend_str(&mut v, m.as_str());
            },
        }
        string_of(v.as_slice())
    }
}

/// Whether a pointer button number is one X knows (1 to 7).
pub open spec fn button_ok(b: u8) -> bool {
    1 <= b <= 7
}

#[derive(Debug)]
pub struct ClickRequest {
    pub x: i32,
    pub y: i32,
    pub button: Option<u8>,
}

/// What a key step does with the key.
#[derive(Debug, Clone, Copy, PartialEq, Eq, Structural)]
pub enum KeyAction {
    Tap,
    Down,
    Up,
}

impl Default for KeyAction {
    fn default() -> (a: Self)
        ensures
            a == KeyAction::Tap,
    {
        KeyAction::Tap
    }
}

#[derive(Debug)]
pub struct TypeRequest {
    pub text: String,
}

#[derive(Debug)]
pub struct KeyRequest {
    pub key: String,
    pub action: Option<KeyAction>,
}

#[derive(Debug, Clone, Copy)]
pub struct CuaPoint {
    pub x: i32,
    pub y: i32,
}

#[derive(Debug)]
pub struct ReleaseRequest {
    pub x: Option<i32>,
    pub y: Option<i32>,
    pub button: Option<u8>,
    pub path: Option<Vec<CuaPoint>>,
}

#[derive(Debug)]
pub struct ScrollRequest {
    pub x: i32,
    pub y: i32,
    pub dx: i32,
    pub dy: i32,
}

#[derive(Debug)]
pub struct DragRequest {
    pub x1: i32,
    pub y1: i32,
    pub x2: i32,
    pub y2: i32,
    pub button: Option<u8>,
}

#[derive(Debug)]
pub struct MoveRequest {
    pub x: i32,
    pub y: i32,
}

/// A captured frame, inline as base64 and/or saved at `path`.
#[derive(Debug, Clone)]
pub struct ScreenshotResponse {
    pub encoding: &'static str,
    pub mime: &'static str,
    pub width: u32,
    pub height: u32,
    pub png_base64: String,
    pub bytes: usize,
    pub path: Option<String>,
}

#[derive(Debug)]
pub struct DisplayInfo {
    pub display: String,
    pub width: u32,
    pub height: u32,
    pub available: bool,
}

#[derive(Debug)]
pub struct OkResponse {
    pub ok: bool,
}

/// What the display reports of itself.
pub fn display_info(config: &CuaConfig, display_up: bool) -> (d: DisplayInfo)
    ensures
        d.display@ == config.display@,
        d.width == config.width,
        d.height == config.height,
        d.available == (config.enabled && display_up),
{
    DisplayInfo {
        display: config.display.clone(),
        width: config.width,
        height: config.height,
        available: config.enabled && display_up,
    }
}

/// A point lies on the display: both coordinates non-negative and below the
/// geometry, where a dimension past `i32::MAX` admits no point at all.
pub open spec fn on_display(w: u32, h: u32, x: i32, y: i32) -> bool {
    &&& 0 <= x && 0 <= y
    &&& w <= i32::MAX && h <= i32::MAX
    &&& x < w && y < h
}

pub fn validate_point(config: &CuaConfig, x: i32, y: i32) -> (r: Result<(), CuaError>)
    ensures
        r is Ok <==> on_display(config.width, config.height, x, y),
        r is Err ==> r == Err::<(), CuaError>(
            CuaError::OutOfRange(x, y, config.width, config.height),
        ),
{
    if x < 0 || y < 0 || config.width > 0x7fff_ffff || config.height > 0x7fff_ffff || (x as i64)
        >= (config.width as i64) || (y as i64) >= (config.height as i64) {
        return Err(CuaError::OutOfRange(x, y, config.width, config.height));
    }
    Ok(())
}

/// The button to press: `1` when none is named.
pub fn validate_button(button: Option<u8>) -> (r: Result<u8, CuaError>)
    ensures
        ({
            let b = match button {
                Some(b) => b,
                None => 1u8,
            };
            &&& button_ok(b) ==> r == Ok::<u8, CuaError>(b)
            &&& !button_ok(b) ==> r is Err && is_invalid(r->Err_0, "button must be 1-7"@)
        }),
{
    let b = match button {
        Some(b) => b,
        None => 1u8,
    };
    if b < 1 || b > 7 {
        return Err(CuaError::Invalid("button must be 1-7".to_owned()));
    }
    Ok(b)
}

/// A key name may be sent when it is not empty and holds no whitespace and
/// no `;`.
pub open spec fn key_chars_ok(k: Seq<char>) -> bool {
    forall|i: int| 0 <= i < k.len() ==> !crate::text::is_ws(#[trigger] k[i]) && k[i] != ';'
}

pub fn validate_key(key: &str) -> (r: Result<(), CuaError>)
    ensures
        key@.len() == 0 ==> r is Err && is_invalid(r->Err_0, "key must not be empty"@),
        key@.len() > 0 && !key_chars_ok(key@) ==> r is Err && is_invalid(
            r->Err_0,
            "key contains invalid characters"@,
        ),
        key@.len() > 0 && key_chars_ok(key@) ==> r is Ok,
{
    let k = chars_of(key);
    if k.len() == 0 {
        return Err(CuaError::Invalid("key must not be empty".to_owned()));
    }
    let mut i: usize = 0;
    while i < k.len()
        invariant
            i <= k@.len(),
            k@ == key@,
            forall|j: int| 0 <= j < i ==> !crate::text::is_ws(#[trigger] k@[j]) && k@[j] != ';',
        decreases k@.len() - i,
    {
        if is_whitespace(k[i]) || k[i] == ';' {
            return Err(CuaError::Invalid("key contains invalid characters".to_owned()));
        }
        i = i + 1;
    }
    Ok(())
}

/// Refuse before acting when computer use is off or the display is gone.
pub fn ensure_ready(config: &CuaConfig, display_up: bool) -> (r: Result<(), CuaError>)
    ensures
        !config.enabled ==> r matches Err(CuaError::Disabled),
        config.enabled && !display_up ==> (r matches Err(CuaError::DisplayDown(d))
            && d@ == config.display@),
        config.enabled && display_up ==> r is Ok,
{
    if !config.enabled {
        return Err(CuaError::Disabled);
    }
    if !display_up {
        return Err(CuaError::DisplayDown(config.display.clone()));
    }
    Ok(())
}

/// `|delta|` rounded up to whole wheel notches of 120, between 1 and 12; 0
/// for no movement.
pub open spec fn ticks_of(delta: i32) -> u32 {
    let a: int = if delta < 0 {
        -delta
    } else {
        delta as int
    };
    if a == 0 {
        0
    } else {
        let t = (a + 119) / 120;
        if t < 1 {
            1
        } else if t > 12 {
            12
        } else {
            t as u32
        }
    }
}

/// X11 wheel notches for a scroll delta: 120 units = one notch, smaller
/// deltas still one notch, at most twelve.
pub fn wheel_ticks(delta: i32) -> (t: u32)
    ensures
        t == ticks_of(delta),
{
    let abs: u32 = if delta < 0 {
        if delta == i32::MIN {
            0x8000_0000u32
        } else {
            (-delta) as u32
        }
    } else {
        delta as u32
    };
    if abs == 0 {
        return 0;
    }
    let t = (abs + 119) / 120;
    if t < 1 {
        1
    } else if t > 12 {
        12
    } else {
        t
    }
}


/// Arguments for the `xdotool` fallback. Most commands fit sixteen words
/// without a heap allocation.
#[verifier::external_body]
pub struct ArgList {
    inner: smallvec::SmallVec<[String; 16]>,
}

/// The words of an argument list, in order.
pub uninterp spec fn arg_items(a: ArgList) -> Seq<Seq<char>>;

/// `SmallVec::new`: no words.
#[verifier::external_body]
fn args_new() -> (a: ArgList)
    ensures
        arg_items(a) == Seq::<Seq<char>>::empty(),
{
    ArgList { inner: smallvec::SmallVec::new() }
}

/// `SmallVec::push`: one more word. It panics only past a capacity no
/// command reaches.
#[verifier::external_body]
fn args_push(a: &mut ArgList, s: String)
    requires
        arg_items(*old(a)).len() < usize::MAX / 64,
    ensures
        arg_items(*final(a)) == arg_items(*old(a)).push(s@),
{
    a.inner.push(s)
}

impl ArgList {
    /// `SmallVec::as_slice`: the words in order.
    #[verifier::external_body]
    pub fn as_slice(&self) -> (s: &[String])
        ensures
            views(s@) == arg_items(*self),
    {
        self.inner.as_slice()
    }
}

fn push_word(a: &mut ArgList, w: &str)
    requires
        arg_items(*old(a)).len() < 1024,
    ensures
        arg_items(*final(a)) == arg_items(*old(a)).push(w@),
{
    args_push(a, w.to_owned())
}

fn push_int(a: &mut ArgList, n: i32)
    requires
        arg_items(*old(a)).len() < 1024,
    ensures
        arg_items(*final(a)) == arg_items(*old(a)).push(int_text(n as int)),
{
    args_push(a, int_string(n as i64))
}

fn push_nat(a: &mut ArgList, n: u8)
    requires
        arg_items(*old(a)).len() < 1024,
    ensures
        arg_items(*final(a)) == arg_items(*old(a)).push(dec_text(n as nat)),
{
    args_push(a, nat_string(n as u64))
}

/// `mousemove x y mousedown button`.
pub open spec fn press_words(x: i32, y: i32, button: u8) -> Seq<Seq<char>> {
    seq!["mousemove"@, int_text(x as int), int_text(y as int), "mousedown"@, dec_text(button as nat)]
}

pub fn pointer_press_args(x: i32, y: i32, button: u8) -> (a: ArgList)
    ensures
        arg_items(a) == press_words(x, y, button),
{
    let mut a = args_new();
    push_word(&mut a, "mousemove");
    push_int(&mut a, x);
    push_int(&mut a, y);
    push_word(&mut a, "mousedown");
    push_nat(&mut a, button);
    assert(arg_items(a) =~= press_words(x, y, button));
    a
}

/// A press, then `mouseup button`: a click with no `--sync` and no
/// `click` command.
pub fn pointer_click_args(x: i32, y: i32, button: u8) -> (a: ArgList)
    ensures
        arg_items(a) == press_words(x, y, button) + seq!["mouseup"@, dec_text(button as nat)],
{
    let mut a = pointer_press_args(x, y, button);
    push_word(&mut a, "mouseup");
    push_nat(&mut a, button);
    assert(arg_items(a) =~= press_words(x, y, button) + seq!["mouseup"@, dec_text(button as nat)]);
    a
}

/// `mousemove x y` for each point.
pub open spec fn move_words(path: Seq<CuaPoint>) -> Seq<Seq<char>>
    decreases path.len(),
{
    if path.len() == 0 {
        Seq::empty()
    } else {
        move_words(path.drop_last()) + seq![
            "mousemove"@,
            int_text(path.last().x as int),
            int_text(path.last().y as int),
        ]
    }
}

/// Move along `path`, then to `extra`, then `mouseup button`.
pub open spec fn release_words(path: Option<Seq<CuaPoint>>, extra: Option<(i32, i32)>, button: u8) -> Seq<
    Seq<char>,
> {
    (match path {
        Some(p) => move_words(p),
        None => Seq::empty(),
    }) + (match extra {
        Some((x, y)) => seq!["mousemove"@, int_text(x as int), int_text(y as int)],
        None => Seq::empty(),
    }) + seq!["mouseup"@, dec_text(button as nat)]
}

pub fn pointer_release_args(path: Option<&[CuaPoint]>, extra: Option<(i32, i32)>, button: u8) -> (a:
    ArgList)
    requires
        match path {
            Some(p) => p@.len() <= MAX_MOTION_PATH,
            None => true,
        },
    ensures
        arg_items(a) == release_words(
            match path {
                Some(p) => Some(p@),
                None => None,
            },
            extra,
            button,
        ),
{
    let mut a = args_new();
    if let Some(p) = path {
        let mut i: usize = 0;
        assert(p@.take(0) =~= Seq::<CuaPoint>::empty());
        while i < p.len()
            invariant
                i <= p@.len() <= MAX_MOTION_PATH,
                arg_items(a) == move_words(p@.take(i as int)),
                arg_items(a).len() == 3 * i,
            decreases p@.len() - i,
        {
            assert(p@.take(i + 1).drop_last() =~= p@.take(i as int));
            assert(p@.take(i + 1).last() == p@[i as int]);
            let ghost before = arg_items(a);
            push_word(&mut a, "mousemove");
            push_int(&mut a, p[i].x);
            push_int(&mut a, p[i].y);
            assert(arg_items(a) =~= before + seq![
                "mousemove"@,
                int_text(p@[i as int].x as int),
                int_text(p@[i as int].y as int),
            ]);
            i = i + 1;
        }
        assert(p@.take(p@.len() as int) =~= p@);
    }
    let ghost mid = arg_items(a);
    if let Some((x, y)) = extra {
        push_word(&mut a, "mousemove");
        push_int(&mut a, x);
        push_int(&mut a, y);
    }
    push_word(&mut a, "mouseup");
    push_nat(&mut a, button);
    proof {
        let pm = match path {
            Some(p) => move_words(p@),
            None => Seq::<Seq<char>>::empty(),
        };
        assert(mid =~= pm);
        match extra {
            Some((x, y)) => {
                assert(arg_items(a) =~= pm + seq!["mousemove"@, int_text(x as int), int_text(y as int)]
                    + seq!["mouseup"@, dec_text(button as nat)]);
            },
            None => {
                assert(arg_items(a) =~= pm + Seq::<Seq<char>>::empty() + seq![
                    "mouseup"@,
                    dec_text(button as nat),
                ]);
            },
        }
    }
    a
}

/// `n` wheel notches on `button`: press and release each.
pub open spec fn notch_words(button: u8, n: nat) -> Seq<Seq<char>>
    decreases n,
{
    if n == 0 {
        Seq::empty()
    } else {
        notch_words(button, (n - 1) as nat) + seq![
            "mousedown"@,
            dec_text(button as nat),
            "mouseup"@,
            dec_text(button as nat),
        ]
    }
}

/// Move to the point, then vertical notches (5 down, 4 up), then
/// horizontal ones (7 right, 6 left).
pub open spec fn scroll_words(x: i32, y: i32, dx: i32, dy: i32) -> Seq<Seq<char>> {
    seq!["mousemove"@, int_text(x as int), int_text(y as int)] + (if dy != 0 {
        notch_words(if dy > 0 { 5u8 } else { 4u8 }, ticks_of(dy) as nat)
    } else {
        Seq::empty()
    }) + (if dx != 0 {
        notch_words(if dx > 0 { 7u8 } else { 6u8 }, ticks_of(dx) as nat)
    } else {
        Seq::empty()
    })
}

fn push_notches(a: &mut ArgList, button: u8, ticks: u32)
    requires
        ticks <= 12,
        arg_items(*old(a)).len() <= 64,
    ensures
        arg_items(*final(a)) == arg_items(*old(a)) + notch_words(button, ticks as nat),
        arg_items(*final(a)).len() == arg_items(*old(a)).len() + 4 * ticks,
{
    let ghost start = arg_items(*a);
    let mut k: u32 = 0;
    assert(start + notch_words(button, 0) =~= start);
    while k < ticks
        invariant
            k <= ticks <= 12,
            start.len() <= 64,
            arg_items(*a) == start + notch_words(button, k as nat),
            arg_items(*a).len() == start.len() + 4 * k,
        decreases ticks - k,
    {
        let ghost before = arg_items(*a);
        push_word(a, "mousedown");
        push_nat(a, button);
        push_word(a, "mouseup");
        push_nat(a, button);
        k = k + 1;
        assert(arg_items(*a) =~= start + notch_words(button, k as nat));
    }
}

pub fn scroll_args(x: i32, y: i32, dx: i32, dy: i32) -> (a: ArgList)
    ensures
        arg_items(a) == scroll_words(x, y, dx, dy),
{
    let mut a = args_new();
    push_word(&mut a, "mousemove");
    push_int(&mut a, x);
    push_int(&mut a, y);
    let ghost head = arg_items(a);
    if dy != 0 {
        let b: u8 = if dy > 0 {
            5
        } else {
            4
        };
        push_notches(&mut a, b, wheel_ticks(dy));
    }
    let ghost mid = arg_items(a);
    if dx != 0 {
        let b: u8 = if dx > 0 {
            7
        } else {
            6
        };
        push_notches(&mut a, b, wheel_ticks(dx));
    }
    proof {
        let v = if dy != 0 {
            notch_words(if dy > 0 { 5u8 } else { 4u8 }, ticks_of(dy) as nat)
        } else {
            Seq::<Seq<char>>::empty()
        };
        let hz = if dx != 0 {
            notch_words(if dx > 0 { 7u8 } else { 6u8 }, ticks_of(dx) as nat)
        } else {
            Seq::<Seq<char>>::empty()
        };
        assert(mid =~= head + v);
        assert(arg_items(a) =~= head + v + hz);
    }
    a
}

/// How many times an xdotool word list presses `button`: each `mousedown`
/// followed by the button's number.
pub open spec fn presses(ws: Seq<Seq<char>>, button: u8) -> nat
    decreases ws.len(),
{
    if ws.len() < 2 {
        0
    } else {
        (if ws[0] == "mousedown"@ && ws[1] == dec_text(button as nat) {
            1nat
        } else {
            0nat
        }) + presses(ws.drop_first(), button)
    }
}

proof fn lemma_presses_concat(a: Seq<Seq<char>>, c: Seq<Seq<char>>, button: u8)
    requires
        a.len() == 0 || a.last() != "mousedown"@,
    ensures
        presses(a + c, button) == presses(a, button) + presses(c, button),
    decreases a.len(),
{
    if a.len() == 0 {
        assert(a + c =~= c);
    } else if a.len() == 1 {
        if c.len() > 0 {
            assert((a + c)[0] == a[0]);
            assert((a + c).drop_first() =~= c);
        } else {
            assert(a + c =~= a);
        }
    } else {
        assert((a + c).drop_first() =~= a.drop_first() + c);
        assert((a + c)[0] == a[0] && (a + c)[1] == a[1]);
        lemma_presses_concat(a.drop_first(), c, button);
    }
}

proof fn lemma_number_word(n: nat)
    ensures
        dec_text(n).len() > 0,
        crate::num::is_digit(dec_text(n)[0]),
        dec_text(n) != "mousedown"@,
        int_text(n as int) != "mousedown"@,
{
    crate::num::lemma_dec_text_reads_back(n);
    reveal_strlit("mousedown");
    assert("mousedown"@[0] == 'm');
}

proof fn lemma_int_word(v: int)
    ensures
        int_text(v) != "mousedown"@,
        int_text(v).len() > 0,
{
    reveal_strlit("mousedown");
    if v < 0 {
        assert(int_text(v)[0] == '-');
        assert("mousedown"@[0] == 'm');
    } else {
        lemma_number_word(v as nat);
    }
}

proof fn lemma_notch_presses(bt: u8, n: nat, button: u8)
    ensures
        presses(notch_words(bt, n), button) == if bt == button {
            n
        } else {
            0
        },
        n > 0 ==> notch_words(bt, n).last() == dec_text(bt as nat),
    decreases n,
{
    if n > 0 {
        lemma_notch_presses(bt, (n - 1) as nat, button);
        let prev = notch_words(bt, (n - 1) as nat);
        let d = dec_text(bt as nat);
        let g = seq!["mousedown"@, d, "mouseup"@, d];
        lemma_number_word(bt as nat);
        lemma_presses_concat(prev, g, button);
        reveal_strlit("mousedown");
        reveal_strlit("mouseup");
        assert("mouseup"@ != "mousedown"@) by {
            assert("mouseup"@.len() != "mousedown"@.len());
        }
        crate::num::lemma_dec_text_reads_back(bt as nat);
        crate::num::lemma_dec_text_reads_back(button as nat);
        assert(g.drop_first() =~= seq![d, "mouseup"@, d]);
        assert(g.drop_first().drop_first() =~= seq!["mouseup"@, d]);
        assert(g.drop_first().drop_first().drop_first() =~= seq![d]);
        assert(presses(seq![d], button) == 0);
        assert(presses(seq!["mouseup"@, d], button) == 0);
        assert(presses(seq![d, "mouseup"@, d], button) == 0);
        if bt != button {
            assert(dec_text(bt as nat) != dec_text(button as nat));
        }
        assert(presses(g, button) == if bt == button {
            1nat
        } else {
            0nat
        });
        assert((prev + g).last() == d);
    }
}

/// How many times an xdotool word list lets go of `button`: each `mouseup`
/// followed by the button's number.
pub open spec fn releases(ws: Seq<Seq<char>>, button: u8) -> nat
    decreases ws.len(),
{
    if ws.len() < 2 {
        0
    } else {
        (if ws[0] == "mouseup"@ && ws[1] == dec_text(button as nat) {
            1nat
        } else {
            0nat
        }) + releases(ws.drop_first(), button)
    }
}

proof fn lemma_releases_concat(a: Seq<Seq<char>>, c: Seq<Seq<char>>, button: u8)
    requires
        a.len() == 0 || a.last() != "mouseup"@,
    ensures
        releases(a + c, button) == releases(a, button) + releases(c, button),
    decreases a.len(),
{
    if a.len() == 0 {
        assert(a + c =~= c);
    } else if a.len() == 1 {
        if c.len() > 0 {
            assert((a + c)[0] == a[0]);
            assert((a + c).drop_first() =~= c);
        } else {
            assert(a + c =~= a);
        }
    } else {
        assert((a + c).drop_first() =~= a.drop_first() + c);
        assert((a + c)[0] == a[0] && (a + c)[1] == a[1]);
        lemma_releases_concat(a.drop_first(), c, button);
    }
}

/// The pointer words that are neither `mousedown` nor `mouseup`.
proof fn lemma_plain_words(v: int, n: nat)
    ensures
        int_text(v) != "mousedown"@,
        int_text(v) != "mouseup"@,
        dec_text(n) != "mousedown"@,
        dec_text(n) != "mouseup"@,
        "mousemove"@ != "mousedown"@,
        "mousemove"@ != "mouseup"@,
        "mousedown"@ != "mouseup"@,
{
    reveal_strlit("mousedown");
    reveal_strlit("mouseup");
    reveal_strlit("mousemove");
    lemma_int_word(v);
    lemma_number_word(n);
    assert("mouseup"@[0] == 'm');
    if v < 0 {
        assert(int_text(v)[0] == '-');
    } else {
        lemma_number_word(v as nat);
        assert(int_text(v)[0] == dec_text(v as nat)[0]);
    }
    assert("mousemove"@[5] != "mousedown"@[5]);
    assert("mousemove"@.len() != "mouseup"@.len());
    assert("mousedown"@.len() != "mouseup"@.len());
}

/// A move to a point neither presses nor releases any button.
proof fn lemma_move_quiet(x: i32, y: i32, b: u8)
    ensures
        ({
            let m = seq!["mousemove"@, int_text(x as int), int_text(y as int)];
            &&& presses(m, b) == 0
            &&& releases(m, b) == 0
            &&& m.last() != "mousedown"@
            &&& m.last() != "mouseup"@
        }),
{
    let m = seq!["mousemove"@, int_text(x as int), int_text(y as int)];
    lemma_plain_words(x as int, 0);
    lemma_plain_words(y as int, 0);
    let m1 = seq![int_text(x as int), int_text(y as int)];
    let m2 = seq![int_text(y as int)];
    assert(m.drop_first() =~= m1);
    assert(m1.drop_first() =~= m2);
    assert(presses(m2, b) == 0 && releases(m2, b) == 0);
    assert(presses(m1, b) == 0 && releases(m1, b) == 0);
    assert(presses(m, b) == 0 && releases(m, b) == 0);
    assert(m.last() == int_text(y as int));
}

proof fn lemma_path_quiet(path: Seq<CuaPoint>, b: u8)
    ensures
        presses(move_words(path), b) == 0,
        releases(move_words(path), b) == 0,
        move_words(path).len() > 0 ==> move_words(path).last() != "mousedown"@
            && move_words(path).last() != "mouseup"@,
    decreases path.len(),
{
    if path.len() > 0 {
        let prev = move_words(path.drop_last());
        lemma_path_quiet(path.drop_last(), b);
        lemma_move_quiet(path.last().x, path.last().y, b);
        lemma_presses_concat(
            prev,
            seq!["mousemove"@, int_text(path.last().x as int), int_text(path.last().y as int)],
            b,
        );
        lemma_releases_concat(
            prev,
            seq!["mousemove"@, int_text(path.last().x as int), int_text(path.last().y as int)],
            b,
        );
    }
}

/// `button` followed by its number counts once for itself and never for
/// another button.
proof fn lemma_button_pair(word: Seq<char>, button: u8, b: u8)
    requires
        word == "mousedown"@ || word == "mouseup"@,
    ensures
        presses(seq![word, dec_text(button as nat)], b) == if word == "mousedown"@ && button == b {
            1nat
        } else {
            0nat
        },
        releases(seq![word, dec_text(button as nat)], b) == if word == "mouseup"@ && button == b {
            1nat
        } else {
            0nat
        },
{
    lemma_plain_words(0, 0);
    crate::num::lemma_dec_text_reads_back(button as nat);
    crate::num::lemma_dec_text_reads_back(b as nat);
    let p = seq![word, dec_text(button as nat)];
    let q = seq![dec_text(button as nat)];
    assert(p.drop_first() =~= q);
    assert(presses(q, b) == 0 && releases(q, b) == 0);
    assert(p[0] == word && p[1] == dec_text(button as nat));
    if button != b {
        assert(dec_text(button as nat) != dec_text(b as nat));
    }
    assert(presses(p, b) == (if p[0] == "mousedown"@ && p[1] == dec_text(b as nat) {
        1nat
    } else {
        0nat
    }) + presses(q, b));
    assert(releases(p, b) == (if p[0] == "mouseup"@ && p[1] == dec_text(b as nat) {
        1nat
    } else {
        0nat
    }) + releases(q, b));
}

/// A press presses its button once and nothing else; a click presses it
/// once and then lets go of it once, ending on that release; a release lets
/// go of its button once, ending on it, and presses nothing, wherever the
/// pointer moves first.
pub proof fn law_pointer_words_press_and_release_their_button(
    x: i32,
    y: i32,
    button: u8,
    other: u8,
    path: Option<Seq<CuaPoint>>,
    extra: Option<(i32, i32)>,
)
    requires
        other != button,
    ensures
        presses(press_words(x, y, button), button) == 1,
        presses(press_words(x, y, button), other) == 0,
        releases(press_words(x, y, button), button) == 0,
        ({
            let c = press_words(x, y, button) + seq!["mouseup"@, dec_text(button as nat)];
            &&& presses(c, button) == 1
            &&& releases(c, button) == 1
            &&& presses(c, other) == 0
            &&& releases(c, other) == 0
        }),
        ({
            let r = release_words(path, extra, button);
            &&& presses(r, button) == 0
            &&& presses(r, other) == 0
            &&& releases(r, button) == 1
            &&& releases(r, other) == 0
            &&& r.len() >= 2 && r[r.len() - 2] == "mouseup"@ && r.last() == dec_text(button as nat)
        }),
{
    let h = seq!["mousemove"@, int_text(x as int), int_text(y as int)];
    let d = dec_text(button as nat);
    let down = seq!["mousedown"@, d];
    let up = seq!["mouseup"@, d];
    lemma_plain_words(0, button as nat);
    assert(press_words(x, y, button) =~= h + down);
    let bs: Seq<u8> = seq![button, other];
    assert forall|k: int| 0 <= k < 2 implies {
        let b = #[trigger] bs[k];
        &&& presses(h + down, b) == presses(down, b)
        &&& releases(h + down, b) == releases(down, b)
        &&& presses(h + down + up, b) == presses(down, b) + presses(up, b)
        &&& releases(h + down + up, b) == releases(down, b) + releases(up, b)
    } by {
        let b = bs[k];
        lemma_move_quiet(x, y, b);
        lemma_presses_concat(h, down, b);
        lemma_releases_concat(h, down, b);
        assert((h + down).last() == d);
        lemma_presses_concat(h + down, up, b);
        lemma_releases_concat(h + down, up, b);
    }
    assert(bs[0] == button && bs[1] == other);
    lemma_button_pair("mousedown"@, button, button);
    lemma_button_pair("mousedown"@, button, other);
    lemma_button_pair("mouseup"@, button, button);
    lemma_button_pair("mouseup"@, button, other);
    let mv = match path {
        Some(p) => move_words(p),
        None => Seq::<Seq<char>>::empty(),
    };
    let ex = match extra {
        Some((ex_x, ex_y)) => seq!["mousemove"@, int_text(ex_x as int), int_text(ex_y as int)],
        None => Seq::<Seq<char>>::empty(),
    };
    assert(release_words(path, extra, button) =~= mv + ex + up);
    assert forall|k: int| 0 <= k < 2 implies {
        let b = #[trigger] bs[k];
        &&& presses(mv + ex + up, b) == presses(up, b)
        &&& releases(mv + ex + up, b) == releases(up, b)
    } by {
        let b = bs[k];
        match path {
            Some(p) => lemma_path_quiet(p, b),
            None => {},
        }
        match extra {
            Some((ex_x, ex_y)) => lemma_move_quiet(ex_x, ex_y, b),
            None => {},
        }
        lemma_presses_concat(mv, ex, b);
        lemma_releases_concat(mv, ex, b);
        assert((mv + ex).len() == 0 || ((mv + ex).last() != "mousedown"@ && (mv + ex).last()
            != "mouseup"@)) by {
            if ex.len() > 0 {
                assert((mv + ex).last() == ex.last());
            } else if mv.len() > 0 {
                assert(mv + ex =~= mv);
            }
        }
        lemma_presses_concat(mv + ex, up, b);
        lemma_releases_concat(mv + ex, up, b);
    }
}

/// A scroll presses the vertical wheel buttons (5 down, 4 up) exactly as
/// many times as `dy` has notches, and the horizontal ones (7 right, 6 left)
/// exactly as many times as `dx` has, each whatever the other axis does; the
/// button for the other direction of an axis is never pressed.
pub proof fn law_scroll_notches_follow_each_axis(x: i32, y: i32, dx: i32, dy: i32)
    ensures
        presses(scroll_words(x, y, dx, dy), 5) == if dy > 0 {
            ticks_of(dy) as nat
        } else {
            0
        },
        presses(scroll_words(x, y, dx, dy), 4) == if dy < 0 {
            ticks_of(dy) as nat
        } else {
            0
        },
        presses(scroll_words(x, y, dx, dy), 7) == if dx > 0 {
            ticks_of(dx) as nat
        } else {
            0
        },
        presses(scroll_words(x, y, dx, dy), 6) == if dx < 0 {
            ticks_of(dx) as nat
        } else {
            0
        },
{
    let h = seq!["mousemove"@, int_text(x as int), int_text(y as int)];
    let v = if dy != 0 {
        notch_words(if dy > 0 { 5u8 } else { 4u8 }, ticks_of(dy) as nat)
    } else {
        Seq::<Seq<char>>::empty()
    };
    let hor = if dx != 0 {
        notch_words(if dx > 0 { 7u8 } else { 6u8 }, ticks_of(dx) as nat)
    } else {
        Seq::<Seq<char>>::empty()
    };
    assert(scroll_words(x, y, dx, dy) =~= h + v + hor);
    lemma_int_word(x as int);
    lemma_int_word(y as int);
    reveal_strlit("mousemove");
    reveal_strlit("mousedown");
    assert("mousemove"@ != "mousedown"@) by {
        assert("mousemove"@[5] != "mousedown"@[5]);
    }
    assert(h.drop_first() =~= seq![int_text(x as int), int_text(y as int)]);
    assert(h.drop_first().drop_first() =~= seq![int_text(y as int)]);
    let bs: Seq<u8> = seq![4u8, 5u8, 6u8, 7u8];
    assert forall|k: int| 0 <= k < 4 implies presses(h + v + hor, #[trigger] bs[k]) == presses(v, bs[k])
        + presses(hor, bs[k]) by {
        let b = bs[k];
        assert(presses(seq![int_text(y as int)], b) == 0);
        assert(presses(seq![int_text(x as int), int_text(y as int)], b) == 0);
        assert(presses(h, b) == 0);
        lemma_presses_concat(h, v, b);
        if dy != 0 {
            lemma_notch_presses(if dy > 0 { 5u8 } else { 4u8 }, ticks_of(dy) as nat, b);
        }
        assert((h + v).len() == 0 || (h + v).last() != "mousedown"@) by {
            if v.len() == 0 {
                assert(h + v =~= h);
            } else {
                assert((h + v).last() == v.last());
                lemma_number_word((if dy > 0 { 5u8 } else { 4u8 }) as nat);
            }
        }
        lemma_presses_concat(h + v, hor, b);
        if dx != 0 {
            lemma_notch_presses(if dx > 0 { 7u8 } else { 6u8 }, ticks_of(dx) as nat, b);
        }
    }
    assert(bs[0] == 4 && bs[1] == 5 && bs[2] == 6 && bs[3] == 7);
    if dy != 0 {
        lemma_notch_presses(if dy > 0 { 5u8 } else { 4u8 }, ticks_of(dy) as nat, 4);
        lemma_notch_presses(if dy > 0 { 5u8 } else { 4u8 }, ticks_of(dy) as nat, 5);
        lemma_notch_presses(if dy > 0 { 5u8 } else { 4u8 }, ticks_of(dy) as nat, 6);
        lemma_notch_presses(if dy > 0 { 5u8 } else { 4u8 }, ticks_of(dy) as nat, 7);
    }
    if dx != 0 {
        lemma_notch_presses(if dx > 0 { 7u8 } else { 6u8 }, ticks_of(dx) as nat, 4);
        lemma_notch_presses(if dx > 0 { 7u8 } else { 6u8 }, ticks_of(dx) as nat, 5);
        lemma_notch_presses(if dx > 0 { 7u8 } else { 6u8 }, ticks_of(dx) as nat, 6);
        lemma_notch_presses(if dx > 0 { 7u8 } else { 6u8 }, ticks_of(dx) as nat, 7);
    }
}

/// Wheel notches round the delta's size up to whole steps of 120: no
/// movement is no notch; otherwise between 1 and 12 notches, and below the
/// cap of 12 exactly enough that `120 * (n - 1) < |delta| <= 120 * n`.
pub proof fn law_wheel_ticks_round_up_to_notches(delta: i32)
    ensures
        delta == 0 ==> ticks_of(delta) == 0,
        delta != 0 ==> 1 <= ticks_of(delta) <= 12,
        ({
            let a: int = if delta < 0 {
                -delta
            } else {
                delta as int
            };
            let n = ticks_of(delta) as int;
            delta != 0 && a <= 1440 ==> 120 * (n - 1) < a <= 120 * n
        }),
        ({
            let a: int = if delta < 0 {
                -delta
            } else {
                delta as int
            };
            a > 1440 ==> ticks_of(delta) == 12
        }),
{
}

/// The X socket of a display: `:1.0` is `/tmp/.X11-unix/X1`.
pub open spec fn display_socket(display: Seq<char>) -> Seq<char> {
    let num = split(
        crate::text::trim_start(trim(display, CharClass::Whitespace), CharClass::Is(':')),
        CharClass::Is('.'),
    )[0];
    "/tmp/.X11-unix/X"@ + num
}

pub fn display_socket_path(display: &str) -> (s: String)
    ensures
        s@ == display_socket(display@),
{
    let t = trim_class(chars_of(display).as_slice(), CharClass::Whitespace);
    let mut k: usize = 0;
    while k < t.len() && t[k] == ':'
        invariant
            k <= t@.len(),
            forall|j: int| 0 <= j < k ==> crate::text::in_class(CharClass::Is(':'), #[trigger] t@[j]),
        decreases t@.len() - k,
    {
        k = k + 1;
    }
    proof {
        crate::text::lemma_trim_start_at(t@, CharClass::Is(':'), k as int);
    }
    let rest = crate::text::copy_range(t.as_slice(), k, t.len());
    assert(rest@ =~= t@.skip(k as int));
    let parts = crate::text::split_class(rest.as_slice(), CharClass::Is('.'));
    proof {
        crate::text::lemma_split_nonempty(rest@, CharClass::Is('.'));
    }
    assert(parts.deep_view()[0] == parts@[0]@);
    let mut v: Vec<char> = Vec::new();
    extend_str(&mut v, "/tmp/.X11-unix/X");
    extend_chars(&mut v, parts[0].as_slice());
    string_of(v.as_slice())
}

/// A captured PNG as a response: the base64 text when `inline`, else empty,
/// and `path` where the frame was saved, if it was.
pub fn screenshot_from_png(config: &CuaConfig, png: Vec<u8>, path: Option<String>, inline: bool) -> (r:
    ScreenshotResponse)
    requires
        png@.len() < usize::MAX / 2,
    ensures
        r.encoding@ == "base64"@,
        r.mime@ == "image/png"@,
        r.width == config.width,
        r.height == config.height,
        r.bytes == png@.len(),
        inline ==> r.png_base64@ == crate::exec::files::base64_text(png@),
        !inline ==> r.png_base64@.len() == 0,
        r.path == path,
{
    let text = if inline {
        crate::exec::files::b64_encode(png.as_slice())
    } else {
        String::new()
    };
    ScreenshotResponse {
        encoding: "base64",
        mime: "image/png",
        width: config.width,
        height: config.height,
        png_base64: text,
        bytes: png.len(),
        path,
    }
}

} // verus!
