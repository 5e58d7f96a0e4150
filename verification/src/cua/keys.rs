//! Key names to X11 keysyms.
//!
//! Names are matched case-insensitively, optionally behind an `XK_` prefix.
//! Chords use `+` (`ctrl+c`): modifiers first, then the key. A character
//! outside Latin-1 becomes `0x01000000 | codepoint`, the X11 Unicode plane.
use vstd::prelude::*;

use crate::cua::{is_invalid, key_chars_ok, validate_key, CuaError};
use crate::text::{
    chars_eq, chars_of, extend_str, has_prefix, lower, lower_all, split, split_class,
    string_of, CharClass,
};

verus! {

pub const XK_BACKSPACE: u32 = 0xff08;
pub const XK_TAB: u32 = 0xff09;
pub const XK_RETURN: u32 = 0xff0d;
pub const XK_ESCAPE: u32 = 0xff1b;
pub const XK_DELETE: u32 = 0xffff;
pub const XK_HOME: u32 = 0xff50;
pub const XK_LEFT: u32 = 0xff51;
pub const XK_UP: u32 = 0xff52;
pub const XK_RIGHT: u32 = 0xff53;
pub const XK_DOWN: u32 = 0xff54;
pub const XK_PAGE_UP: u32 = 0xff55;
pub const XK_PAGE_DOWN: u32 = 0xff56;
pub const XK_END: u32 = 0xff57;
pub const XK_INSERT: u32 = 0xff63;
pub const XK_SHIFT_L: u32 = 0xffe1;
pub const XK_SHIFT_R: u32 = 0xffe2;
pub const XK_CONTROL_L: u32 = 0xffe3;
pub const XK_CONTROL_R: u32 = 0xffe4;
pub const XK_META_L: u32 = 0xffe7;
pub const XK_ALT_L: u32 = 0xffe9;
pub const XK_SUPER_L: u32 = 0xffeb;
pub const XK_SUPER_R: u32 = 0xffec;
pub const XK_MENU: u32 = 0xff67;
pub const XK_SPACE: u32 = 0x0020;
pub const XK_ISO_LEVEL3_SHIFT: u32 = 0xfe03;
pub const UNICODE_PLANE: u32 = 0x0100_0000;

/// Keysyms of one chord. Typical chords fit in four (`ctrl+alt+shift+key`)
/// without a heap allocation.
#[verifier::external_body]
pub struct KeySeq {
    inner: smallvec::SmallVec<[u32; 4]>,
}

/// The keysyms a key sequence holds, in order.
pub uninterp spec fn keyseq_items(v: KeySeq) -> Seq<u32>;

/// `SmallVec::new`: an empty sequence.
#[verifier::external_body]
fn keyseq_new() -> (v: KeySeq)
    ensures
        keyseq_items(v) == Seq::<u32>::empty(),
{
    KeySeq { inner: smallvec::SmallVec::new() }
}

/// `SmallVec::push`: one more keysym at the end. It panics only past a
/// capacity no chord reaches.
#[verifier::external_body]
fn keyseq_push(v: &mut KeySeq, x: u32)
    requires
        keyseq_items(*old(v)).len() < usize::MAX / 16,
    ensures
        keyseq_items(*final(v)) == keyseq_items(*old(v)).push(x),
{
    v.inner.push(x)
}

impl KeySeq {
    /// `SmallVec::as_slice`: the keysyms in order.
    #[verifier::external_body]
    pub fn as_slice(&self) -> (s: &[u32])
        ensures
            s@ == keyseq_items(*self),
    {
        self.inner.as_slice()
    }
}

/// The keysym a single character types.
pub open spec fn char_keysym(c: char) -> u32 {
    if c == '\n' || c == '\r' {
        XK_RETURN
    } else if c == '\t' {
        XK_TAB
    } else if c == '\u{8}' {
        XK_BACKSPACE
    } else if c == '\u{1b}' {
        XK_ESCAPE
    } else if c == '\u{7f}' {
        XK_DELETE
    } else if (c as u32) < 0x100 {
        c as u32
    } else {
        (UNICODE_PLANE + (c as u32)) as u32
    }
}

pub fn char_to_keysym(ch: char) -> (k: u32)
    ensures
        k == char_keysym(ch),
{
    if ch == '\n' || ch == '\r' {
        XK_RETURN
    } else if ch == '\t' {
        XK_TAB
    } else if ch == '\u{8}' {
        XK_BACKSPACE
    } else if ch == '\u{1b}' {
        XK_ESCAPE
    } else if ch == '\u{7f}' {
        XK_DELETE
    } else {
        let cp = ch as u32;
        if cp < 0x100 {
            cp
        } else {
            assert(cp <= 0x10ffff);
            assert(UNICODE_PLANE | cp == UNICODE_PLANE + cp) by (bit_vector)
                requires
                    cp <= 0x10ffff,
                    UNICODE_PLANE == 0x0100_0000u32,
            ;
            UNICODE_PLANE | cp
        }
    }
}


/// The keysym a lower-case key name stands for.
pub open spec fn named_keysym(l: Seq<char>) -> Option<u32> {
    if l == "return"@ || l == "enter"@ || l == "kp_enter"@ {
        Some(XK_RETURN)
    } else if l == "tab"@ {
        Some(XK_TAB)
    } else if l == "escape"@ || l == "esc"@ {
        Some(XK_ESCAPE)
    } else if l == "backspace"@ || l == "bs"@ {
        Some(XK_BACKSPACE)
    } else if l == "delete"@ || l == "del"@ {
        Some(XK_DELETE)
    } else if l == "space"@ || l == "spacebar"@ {
        Some(XK_SPACE)
    } else if l == "home"@ {
        Some(XK_HOME)
    } else if l == "end"@ {
        Some(XK_END)
    } else if l == "left"@ {
        Some(XK_LEFT)
    } else if l == "right"@ {
        Some(XK_RIGHT)
    } else if l == "up"@ {
        Some(XK_UP)
    } else if l == "down"@ {
        Some(XK_DOWN)
    } else if l == "page_up"@ || l == "pageup"@ || l == "prior"@ {
        Some(XK_PAGE_UP)
    } else if l == "page_down"@ || l == "pagedown"@ || l == "next"@ {
        Some(XK_PAGE_DOWN)
    } else if l == "insert"@ || l == "ins"@ {
        Some(XK_INSERT)
    } else if l == "menu"@ {
        Some(XK_MENU)
    } else if l == "shift"@ || l == "shift_l"@ {
        Some(XK_SHIFT_L)
    } else if l == "shift_r"@ {
        Some(XK_SHIFT_R)
    } else if l == "ctrl"@ || l == "control"@ || l == "control_l"@ {
        Some(XK_CONTROL_L)
    } else if l == "control_r"@ || l == "ctrl_r"@ {
        Some(XK_CONTROL_R)
    } else if l == "alt"@ || l == "alt_l"@ || l == "mod1"@ {
        Some(XK_ALT_L)
    } else if l == "meta"@ || l == "meta_l"@ {
        Some(XK_META_L)
    } else if l == "super"@ || l == "super_l"@ || l == "win"@ || l == "cmd"@ || l == "mod4"@ {
        Some(XK_SUPER_L)
    } else if l == "super_r"@ {
        Some(XK_SUPER_R)
    } else if l == "altgr"@ || l == "iso_level3_shift"@ || l == "mode_switch"@ {
        Some(XK_ISO_LEVEL3_SHIFT)
    } else if l == "plus"@ || l == "kp_add"@ {
        Some(0x002bu32)
    } else if l == "minus"@ || l == "kp_subtract"@ {
        Some(0x002du32)
    } else if l == "equal"@ {
        Some(0x003du32)
    } else if l == "comma"@ {
        Some(0x002cu32)
    } else if l == "period"@ || l == "kp_decimal"@ {
        Some(0x002eu32)
    } else if l == "slash"@ {
        Some(0x002fu32)
    } else if l == "backslash"@ {
        Some(0x005cu32)
    } else if l == "apostrophe"@ {
        Some(0x0027u32)
    } else if l == "quotedbl"@ {
        Some(0x0022u32)
    } else if l == "grave"@ {
        Some(0x0060u32)
    } else if l == "semicolon"@ {
        Some(0x003bu32)
    } else if l == "bracketleft"@ {
        Some(0x005bu32)
    } else if l == "bracketright"@ {
        Some(0x005du32)
    } else if l == "f1"@ {
        Some(0xffbeu32)
    } else if l == "f2"@ {
        Some(0xffbfu32)
    } else if l == "f3"@ {
        Some(0xffc0u32)
    } else if l == "f4"@ {
        Some(0xffc1u32)
    } else if l == "f5"@ {
        Some(0xffc2u32)
    } else if l == "f6"@ {
        Some(0xffc3u32)
    } else if l == "f7"@ {
        Some(0xffc4u32)
    } else if l == "f8"@ {
        Some(0xffc5u32)
    } else if l == "f9"@ {
        Some(0xffc6u32)
    } else if l == "f10"@ {
        Some(0xffc7u32)
    } else if l == "f11"@ {
        Some(0xffc8u32)
    } else if l == "f12"@ {
        Some(0xffc9u32)
    } else if l == "kp_0"@ {
        Some(0xffb0u32)
    } else if l == "kp_1"@ {
        Some(0xffb1u32)
    } else if l == "kp_2"@ {
        Some(0xffb2u32)
    } else if l == "kp_3"@ {
        Some(0xffb3u32)
    } else if l == "kp_4"@ {
        Some(0xffb4u32)
    } else if l == "kp_5"@ {
        Some(0xffb5u32)
    } else if l == "kp_6"@ {
        Some(0xffb6u32)
    } else if l == "kp_7"@ {
        Some(0xffb7u32)
    } else if l == "kp_8"@ {
        Some(0xffb8u32)
    } else if l == "kp_9"@ {
        Some(0xffb9u32)
    } else if l == "kp_multiply"@ {
        Some(0xffaau32)
    } else if l == "kp_divide"@ {
        Some(0xffafu32)
    } else if l == "caps_lock"@ || l == "capslock"@ {
        Some(0xffe5u32)
    } else if l == "num_lock"@ || l == "numlock"@ {
        Some(0xff7fu32)
    } else if l == "scroll_lock"@ || l == "scrolllock"@ {
        Some(0xff14u32)
    } else if l == "print"@ || l == "printscreen"@ {
        Some(0xff61u32)
    } else if l.len() == 1 {
        Some(char_keysym(l[0]))
    } else {
        None
    }
}

/// Every character is ASCII.
pub open spec fn ascii_text(s: Seq<char>) -> bool {
    forall|i: int| 0 <= i < s.len() ==> ((#[trigger] s[i]) as u32) < 0x80
}

/// The keysym one chord token names: a single ASCII character types
/// itself; otherwise an ASCII name of at most 32 bytes, matched without
/// regard to case, after an optional `XK_` prefix.
pub open spec fn token_keysym(token: Seq<char>) -> Option<u32> {
    let t = if has_prefix(token, "XK_"@) {
        token.skip(3)
    } else {
        token
    };
    if t.len() == 1 && (t[0] as u32) < 0x80 {
        Some(char_keysym(t[0]))
    } else if !ascii_text(t) || t.len() > 32 {
        None
    } else {
        named_keysym(lower(t))
    }
}

fn is_name(l: &[char], name: &str) -> (b: bool)
    ensures
        b == (l@ == name@),
{
    let n = chars_of(name);
    chars_eq(l, n.as_slice())
}

fn named_keysym_of(l: &[char]) -> (r: Option<u32>)
    ensures
        r == named_keysym(l@),
{
    if is_name(l, "return") || is_name(l, "enter") || is_name(l, "kp_enter") {
        Some(XK_RETURN)
    } else if is_name(l, "tab") {
        Some(XK_TAB)
    } else if is_name(l, "escape") || is_name(l, "esc") {
        Some(XK_ESCAPE)
    } else if is_name(l, "backspace") || is_name(l, "bs") {
        Some(XK_BACKSPACE)
    } else if is_name(l, "delete") || is_name(l, "del") {
        Some(XK_DELETE)
    } else if is_name(l, "space") || is_name(l, "spacebar") {
        Some(XK_SPACE)
    } else if is_name(l, "home") {
        Some(XK_HOME)
    } else if is_name(l, "end") {
        Some(XK_END)
    } else if is_name(l, "left") {
        Some(XK_LEFT)
    } else if is_name(l, "right") {
        Some(XK_RIGHT)
    } else if is_name(l, "up") {
        Some(XK_UP)
    } else if is_name(l, "down") {
        Some(XK_DOWN)
    } else if is_name(l, "page_up") || is_name(l, "pageup") || is_name(l, "prior") {
        Some(XK_PAGE_UP)
    } else if is_name(l, "page_down") || is_name(l, "pagedown") || is_name(l, "next") {
        Some(XK_PAGE_DOWN)
    } else if is_name(l, "insert") || is_name(l, "ins") {
        Some(XK_INSERT)
    } else if is_name(l, "menu") {
        Some(XK_MENU)
    } else if is_name(l, "shift") || is_name(l, "shift_l") {
        Some(XK_SHIFT_L)
    } else if is_name(l, "shift_r") {
        Some(XK_SHIFT_R)
    } else if is_name(l, "ctrl") || is_name(l, "control") || is_name(l, "control_l") {
        Some(XK_CONTROL_L)
    } else if is_name(l, "control_r") || is_name(l, "ctrl_r") {
        Some(XK_CONTROL_R)
    } else if is_name(l, "alt") || is_name(l, "alt_l") || is_name(l, "mod1") {
        Some(XK_ALT_L)
    } else if is_name(l, "meta") || is_name(l, "meta_l") {
        Some(XK_META_L)
    } else if is_name(l, "super") || is_name(l, "super_l") || is_name(l, "win") || is_name(l, "cmd") || is_name(l, "mod4") {
        Some(XK_SUPER_L)
    } else if is_name(l, "super_r") {
        Some(XK_SUPER_R)
    } else if is_name(l, "altgr") || is_name(l, "iso_level3_shift") || is_name(l, "mode_switch") {
        Some(XK_ISO_LEVEL3_SHIFT)
    } else if is_name(l, "plus") || is_name(l, "kp_add") {
        Some(0x002bu32)
    } else if is_name(l, "minus") || is_name(l, "kp_subtract") {
        Some(0x002du32)
    } else if is_name(l, "equal") {
        Some(0x003du32)
    } else if is_name(l, "comma") {
        Some(0x002cu32)
    } else if is_name(l, "period") || is_name(l, "kp_decimal") {
        Some(0x002eu32)
    } else if is_name(l, "slash") {
        Some(0x002fu32)
    } else if is_name(l, "backslash") {
        Some(0x005cu32)
    } else if is_name(l, "apostrophe") {
        Some(0x0027u32)
    } else if is_name(l, "quotedbl") {
        Some(0x0022u32)
    } else if is_name(l, "grave") {
        Some(0x0060u32)
    } else if is_name(l, "semicolon") {
        Some(0x003bu32)
    } else if is_name(l, "bracketleft") {
        Some(0x005bu32)
    } else if is_name(l, "bracketright") {
        Some(0x005du32)
    } else if is_name(l, "f1") {
        Some(0xffbeu32)
    } else if is_name(l, "f2") {
        Some(0xffbfu32)
    } else if is_name(l, "f3") {
        Some(0xffc0u32)
    } else if is_name(l, "f4") {
        Some(0xffc1u32)
    } else if is_name(l, "f5") {
        Some(0xffc2u32)
    } else if is_name(l, "f6") {
        Some(0xffc3u32)
    } else if is_name(l, "f7") {
        Some(0xffc4u32)
    } else if is_name(l, "f8") {
        Some(0xffc5u32)
    } else if is_name(l, "f9") {
        Some(0xffc6u32)
    } else if is_name(l, "f10") {
        Some(0xffc7u32)
    } else if is_name(l, "f11") {
        Some(0xffc8u32)
    } else if is_name(l, "f12") {
        Some(0xffc9u32)
    } else if is_name(l, "kp_0") {
        Some(0xffb0u32)
    } else if is_name(l, "kp_1") {
        Some(0xffb1u32)
    } else if is_name(l, "kp_2") {
        Some(0xffb2u32)
    } else if is_name(l, "kp_3") {
        Some(0xffb3u32)
    } else if is_name(l, "kp_4") {
        Some(0xffb4u32)
    } else if is_name(l, "kp_5") {
        Some(0xffb5u32)
    } else if is_name(l, "kp_6") {
        Some(0xffb6u32)
    } else if is_name(l, "kp_7") {
        Some(0xffb7u32)
    } else if is_name(l, "kp_8") {
        Some(0xffb8u32)
    } else if is_name(l, "kp_9") {
        Some(0xffb9u32)
    } else if is_name(l, "kp_multiply") {
        Some(0xffaau32)
    } else if is_name(l, "kp_divide") {
        Some(0xffafu32)
    } else if is_name(l, "caps_lock") || is_name(l, "capslock") {
        Some(0xffe5u32)
    } else if is_name(l, "num_lock") || is_name(l, "numlock") {
        Some(0xff7fu32)
    } else if is_name(l, "scroll_lock") || is_name(l, "scrolllock") {
        Some(0xff14u32)
    } else if is_name(l, "print") || is_name(l, "printscreen") {
        Some(0xff61u32)
    } else if l.len() == 1 {
        Some(char_to_keysym(l[0]))
    } else {
        None
    }
}


/// Look up one chord token.
pub fn keysym_from_token(token: &str) -> (r: Option<u32>)
    ensures
        r == token_keysym(token@),
{
    let all = chars_of(token);
    let xk = chars_of("XK_");
    proof {
        reveal_strlit("XK_");
    }
    let t = if crate::text::starts_with(all.as_slice(), xk.as_slice()) {
        crate::text::copy_range(all.as_slice(), 3, all.len())
    } else {
        all
    };
    proof {
        if has_prefix(token@, "XK_"@) {
            assert(t@ =~= token@.skip(3));
        }
    }
    if t.len() == 1 && (t[0] as u32) < 0x80 {
        return Some(char_to_keysym(t[0]));
    }
    if t.len() > 32 {
        return None;
    }
    let ghost spec_t = if has_prefix(token@, "XK_"@) {
        token@.skip(3)
    } else {
        token@
    };
    let mut i: usize = 0;
    while i < t.len()
        invariant
            i <= t@.len(),
            t@ == spec_t,
            spec_t == (if has_prefix(token@, "XK_"@) {
                token@.skip(3)
            } else {
                token@
            }),
            !(t@.len() == 1 && (t@[0] as u32) < 0x80),
            t@.len() <= 32,
            forall|j: int| 0 <= j < i ==> ((#[trigger] t@[j]) as u32) < 0x80,
        decreases t@.len() - i,
    {
        if (t[i] as u32) >= 0x80 {
            assert(!ascii_text(t@));
            return None;
        }
        i = i + 1;
    }
    let l = lower_all(t.as_slice());
    named_keysym_of(l.as_slice())
}

/// The keysyms of a chord's tokens, or why one is refused.
pub open spec fn chord(ts: Seq<Seq<char>>) -> Result<Seq<u32>, Seq<char>>
    decreases ts.len(),
{
    if ts.len() == 0 {
        Ok(Seq::empty())
    } else if ts[0].len() == 0 {
        Err("key contains an empty chord token"@)
    } else {
        match token_keysym(ts[0]) {
            None => Err("unknown key '"@ + ts[0] + "'"@),
            Some(k) => match chord(ts.drop_first()) {
                Ok(rest) => Ok(seq![k] + rest),
                Err(m) => Err(m),
            },
        }
    }
}

/// A key sequence's keysyms in order, or the message it is refused with.
pub open spec fn key_sequence(key: Seq<char>) -> Result<Seq<u32>, Seq<char>> {
    if key.len() == 0 {
        Err("key must not be empty"@)
    } else if !key_chars_ok(key) {
        Err("key contains invalid characters"@)
    } else {
        match chord(split(key, CharClass::Is('+'))) {
            Ok(s) => if s.len() == 0 {
                Err("key must not be empty"@)
            } else {
                Ok(s)
            },
            Err(m) => Err(m),
        }
    }
}

pub open spec fn prepend(items: Seq<u32>, r: Result<Seq<u32>, Seq<char>>) -> Result<
    Seq<u32>,
    Seq<char>,
> {
    match r {
        Ok(rest) => Ok(items + rest),
        Err(m) => Err(m),
    }
}

proof fn lemma_split_len(s: Seq<char>, k: CharClass)
    ensures
        split(s, k).len() <= s.len() + 1,
    decreases s.len(),
{
    crate::text::lemma_find_bounds(s, k);
    let i = crate::text::find(s, k);
    if i >= 0 && i < s.len() {
        lemma_split_len(s.skip(i + 1), k);
    }
}

/// Split `ctrl+c` or `Return` into keysyms, modifiers first.
pub fn parse_key_sequence(key: &str) -> (r: Result<KeySeq, CuaError>)
    requires
        key@.len() + 2 < usize::MAX / 16,
    ensures
        match key_sequence(key@) {
            Ok(s) => r is Ok && keyseq_items(r->Ok_0) == s,
            Err(m) => r is Err && is_invalid(r->Err_0, m),
        },
{
    validate_key(key)?;
    let k = chars_of(key);
    let parts = split_class(k.as_slice(), CharClass::Is('+'));
    proof {
        lemma_split_len(key@, CharClass::Is('+'));
    }
    let ghost ps = parts.deep_view();
    let mut out = keyseq_new();
    let mut i: usize = 0;
    assert(ps.skip(0) =~= ps);
    assert(Seq::<u32>::empty() + Seq::<u32>::empty() =~= Seq::<u32>::empty());
    while i < parts.len()
        invariant
            i <= parts@.len(),
            ps == parts.deep_view(),
            ps == split(key@, CharClass::Is('+')),
            ps.len() <= key@.len() + 1,
            key@.len() + 2 < usize::MAX / 16,
            key@.len() > 0,
            key_chars_ok(key@),
            keyseq_items(out).len() == i,
            chord(ps) == prepend(keyseq_items(out), chord(ps.skip(i as int))),
        decreases parts@.len() - i,
    {
        let tok = &parts[i];
        assert(tok@ == ps[i as int]);
        assert(ps.skip(i as int)[0] == ps[i as int]);
        assert(ps.skip(i as int).drop_first() =~= ps.skip(i + 1));
        if tok.len() == 0 {
            return Err(CuaError::Invalid("key contains an empty chord token".to_owned()));
        }
        let ts = string_of(tok.as_slice());
        match keysym_from_token(ts.as_str()) {
            None => {
                let mut v: Vec<char> = Vec::new();
                extend_str(&mut v, "unknown key '");
                crate::text::extend_chars(&mut v, tok.as_slice());
                extend_str(&mut v, "'");
                return Err(CuaError::Invalid(string_of(v.as_slice())));
            },
            Some(ks) => {
                let ghost before = keyseq_items(out);
                keyseq_push(&mut out, ks);
                proof {
                    match chord(ps.skip(i + 1)) {
                        Ok(rest) => {
                            assert(before + (seq![ks] + rest) =~= before.push(ks) + rest);
                        },
                        Err(_) => {},
                    }
                }
            },
        }
        i = i + 1;
    }
    assert(ps.skip(parts@.len() as int).len() == 0);
    assert(keyseq_items(out) + Seq::<u32>::empty() =~= keyseq_items(out));
    Ok(out)
}

/// Key names ignore ASCII case, and an `XK_` prefix names the same key:
/// for a name of 2 to 32 ASCII characters that does not begin with `xk_`
/// in any case, its upper-cased form and its `XK_`-prefixed form give the
/// same keysym; after the optional prefix, a token that is not ASCII or is
/// longer than 32 characters names nothing.
pub proof fn law_key_names_ignore_case_and_prefix(t: Seq<char>)
    ensures
        2 <= t.len() <= 32 && ascii_text(t) && !has_prefix(crate::text::upper(t), "XK_"@)
            ==> token_keysym(crate::text::upper(t)) == token_keysym(t),
        !has_prefix(t, "XK_"@) ==> token_keysym("XK_"@ + t) == token_keysym(t),
        ({
            let u = if has_prefix(t, "XK_"@) {
                t.skip(3)
            } else {
                t
            };
            !ascii_text(u) || u.len() > 32
        }) ==> token_keysym(t) is None,
{
    reveal_strlit("XK_");
    let up = crate::text::upper(t);
    crate::text::lemma_lower_upper(t);
    if 2 <= t.len() <= 32 && ascii_text(t) && !has_prefix(up, "XK_"@) {
        assert(!has_prefix(t, "XK_"@)) by {
            if has_prefix(t, "XK_"@) {
                assert(up.take(3) =~= "XK_"@) by {
                    assert(t.take(3) == "XK_"@);
                    assert("XK_"@[0] == 'X' && "XK_"@[1] == 'K' && "XK_"@[2] == '_');
                    assert(t[0] == t.take(3)[0] && t[1] == t.take(3)[1] && t[2] == t.take(3)[2]);
                    assert(up[0] == crate::text::upper_char(t[0]));
                    assert(up[1] == crate::text::upper_char(t[1]));
                    assert(up[2] == crate::text::upper_char(t[2]));
                }
            }
        }
        assert forall|i: int| 0 <= i < up.len() implies ((#[trigger] up[i]) as u32) < 0x80 by {
            let c = t[i];
            assert((c as u32) < 0x80);
            if 'a' <= c && c <= 'z' {
                assert(crate::text::upper_char(c) as u32 == (c as u32) - 32);
            }
        }
    }
    let p = "XK_"@ + t;
    assert(p.take(3) =~= "XK_"@);
    assert(p.skip(3) =~= t);
}

} // verus!

verus! {

proof fn lemma_named_token(t: Seq<char>)
    requires
        2 <= lower(t).len() <= 32,
        ascii_text(lower(t)),
        lower(t)[0] != 'x',
    ensures
        token_keysym(t) == named_keysym(lower(t)),
{
    reveal_strlit("XK_");
    let l = lower(t);
    assert(t.len() == l.len());
    assert forall|i: int| 0 <= i < t.len() implies ((#[trigger] t[i]) as u32) < 0x80 by {
        assert(l[i] == crate::text::lower_char(t[i]));
        assert((l[i] as u32) < 0x80);
    }
    if has_prefix(t, "XK_"@) {
        assert(t[0] == t.take(3)[0]);
        assert(t[0] == 'X');
        assert(l[0] == crate::text::lower_char(t[0]));
    }
}

/// The editing and navigation keys name the keysyms X gives them, in any
/// case: Return/Enter, Tab, Escape/Esc, BackSpace/BS (0xff08, which deletes
/// backward), Delete/Del (0xffff, forward), Space, Home, End and the four
/// arrows. Different keys get different keysyms, so BackSpace is never
/// Delete.
pub proof fn law_editing_keys_name_their_x_keysyms(t: Seq<char>)
    ensures
        lower(t) == "return"@ || lower(t) == "enter"@ ==> token_keysym(t) == Some(0xff0du32),
        lower(t) == "tab"@ ==> token_keysym(t) == Some(0xff09u32),
        lower(t) == "escape"@ || lower(t) == "esc"@ ==> token_keysym(t) == Some(0xff1bu32),
        lower(t) == "backspace"@ || lower(t) == "bs"@ ==> token_keysym(t) == Some(0xff08u32),
        lower(t) == "delete"@ || lower(t) == "del"@ ==> token_keysym(t) == Some(0xffffu32),
        lower(t) == "space"@ ==> token_keysym(t) == Some(0x0020u32),
        lower(t) == "home"@ ==> token_keysym(t) == Some(0xff50u32),
        lower(t) == "end"@ ==> token_keysym(t) == Some(0xff57u32),
        lower(t) == "left"@ ==> token_keysym(t) == Some(0xff51u32),
        lower(t) == "up"@ ==> token_keysym(t) == Some(0xff52u32),
        lower(t) == "right"@ ==> token_keysym(t) == Some(0xff53u32),
        lower(t) == "down"@ ==> token_keysym(t) == Some(0xff54u32),
{
    reveal_strlit("return");
    reveal_strlit("enter");
    reveal_strlit("kp_enter");
    reveal_strlit("tab");
    reveal_strlit("escape");
    reveal_strlit("esc");
    reveal_strlit("backspace");
    reveal_strlit("bs");
    reveal_strlit("delete");
    reveal_strlit("del");
    reveal_strlit("space");
    reveal_strlit("spacebar");
    reveal_strlit("home");
    reveal_strlit("end");
    reveal_strlit("left");
    reveal_strlit("right");
    reveal_strlit("up");
    reveal_strlit("down");
    let l = lower(t);
    if 2 <= l.len() <= 32 && ascii_text(l) && l[0] != 'x' {
        lemma_named_token(t);
    }
    if l == "end"@ {
        assert(l.len() == 3 && l[0] == 'e' && l[1] == 'n' && l[2] == 'd');
        assert(named_keysym(l) == Some(XK_END));
    }
}

#[verifier::rlimit(40)]
proof fn lemma_paging_keys(t: Seq<char>)
    ensures
        lower(t) == "page_up"@ || lower(t) == "pageup"@ || lower(t) == "prior"@ ==> token_keysym(t) == Some(0xff55u32),
        lower(t) == "page_down"@ || lower(t) == "pagedown"@ || lower(t) == "next"@ ==> token_keysym(t) == Some(0xff56u32),
        lower(t) == "insert"@ || lower(t) == "ins"@ ==> token_keysym(t) == Some(0xff63u32),
        lower(t) == "menu"@ ==> token_keysym(t) == Some(0xff67u32),
{
    reveal_strlit("return");
    reveal_strlit("enter");
    reveal_strlit("kp_enter");
    reveal_strlit("tab");
    reveal_strlit("escape");
    reveal_strlit("esc");
    reveal_strlit("backspace");
    reveal_strlit("bs");
    reveal_strlit("delete");
    reveal_strlit("del");
    reveal_strlit("space");
    reveal_strlit("spacebar");
    reveal_strlit("home");
    reveal_strlit("end");
    reveal_strlit("left");
    reveal_strlit("right");
    reveal_strlit("up");
    reveal_strlit("down");
    reveal_strlit("page_up");
    reveal_strlit("pageup");
    reveal_strlit("prior");
    reveal_strlit("page_down");
    reveal_strlit("pagedown");
    reveal_strlit("next");
    reveal_strlit("insert");
    reveal_strlit("ins");
    reveal_strlit("menu");
    reveal_strlit("shift");
    reveal_strlit("shift_l");
    reveal_strlit("shift_r");
    reveal_strlit("ctrl");
    reveal_strlit("control");
    reveal_strlit("control_l");
    reveal_strlit("control_r");
    reveal_strlit("ctrl_r");
    reveal_strlit("alt");
    reveal_strlit("alt_l");
    reveal_strlit("mod1");
    reveal_strlit("meta");
    reveal_strlit("meta_l");
    reveal_strlit("super");
    reveal_strlit("super_l");
    reveal_strlit("win");
    reveal_strlit("cmd");
    reveal_strlit("mod4");
    reveal_strlit("super_r");
    let l = lower(t);
    if 2 <= l.len() <= 32 && ascii_text(l) && l[0] != 'x' {
        lemma_named_token(t);
    }
    if l == "page_up"@ {
        assert(l =~= seq!['p', 'a', 'g', 'e', '_', 'u', 'p']);
    }
    if l == "pageup"@ {
        assert(l =~= seq!['p', 'a', 'g', 'e', 'u', 'p']);
    }
    if l == "prior"@ {
        assert(l =~= seq!['p', 'r', 'i', 'o', 'r']);
    }
    if l == "page_down"@ {
        assert(l =~= seq!['p', 'a', 'g', 'e', '_', 'd', 'o', 'w', 'n']);
    }
    if l == "pagedown"@ {
        assert(l =~= seq!['p', 'a', 'g', 'e', 'd', 'o', 'w', 'n']);
    }
    if l == "next"@ {
        assert(l =~= seq!['n', 'e', 'x', 't']);
    }
    if l == "insert"@ {
        assert(l =~= seq!['i', 'n', 's', 'e', 'r', 't']);
    }
    if l == "ins"@ {
        assert(l =~= seq!['i', 'n', 's']);
    }
    if l == "menu"@ {
        assert(l =~= seq!['m', 'e', 'n', 'u']);
    }
}

#[verifier::rlimit(40)]
proof fn lemma_shift_control_keys(t: Seq<char>)
    ensures
        lower(t) == "shift"@ || lower(t) == "shift_l"@ ==> token_keysym(t) == Some(0xffe1u32),
        lower(t) == "shift_r"@ ==> token_keysym(t) == Some(0xffe2u32),
        lower(t) == "ctrl"@ || lower(t) == "control"@ || lower(t) == "control_l"@ ==> token_keysym(t) == Some(0xffe3u32),
        lower(t) == "control_r"@ || lower(t) == "ctrl_r"@ ==> token_keysym(t) == Some(0xffe4u32),
{
    reveal_strlit("return");
    reveal_strlit("enter");
    reveal_strlit("kp_enter");
    reveal_strlit("tab");
    reveal_strlit("escape");
    reveal_strlit("esc");
    reveal_strlit("backspace");
    reveal_strlit("bs");
    reveal_strlit("delete");
    reveal_strlit("del");
    reveal_strlit("space");
    reveal_strlit("spacebar");
    reveal_strlit("home");
    reveal_strlit("end");
    reveal_strlit("left");
    reveal_strlit("right");
    reveal_strlit("up");
    reveal_strlit("down");
    reveal_strlit("page_up");
    reveal_strlit("pageup");
    reveal_strlit("prior");
    reveal_strlit("page_down");
    reveal_strlit("pagedown");
    reveal_strlit("next");
    reveal_strlit("insert");
    reveal_strlit("ins");
    reveal_strlit("menu");
    reveal_strlit("shift");
    reveal_strlit("shift_l");
    reveal_strlit("shift_r");
    reveal_strlit("ctrl");
    reveal_strlit("control");
    reveal_strlit("control_l");
    reveal_strlit("control_r");
    reveal_strlit("ctrl_r");
    reveal_strlit("alt");
    reveal_strlit("alt_l");
    reveal_strlit("mod1");
    reveal_strlit("meta");
    reveal_strlit("meta_l");
    reveal_strlit("super");
    reveal_strlit("super_l");
    reveal_strlit("win");
    reveal_strlit("cmd");
    reveal_strlit("mod4");
    reveal_strlit("super_r");
    let l = lower(t);
    if 2 <= l.len() <= 32 && ascii_text(l) && l[0] != 'x' {
        lemma_named_token(t);
    }
    if l == "shift"@ {
        assert(l =~= seq!['s', 'h', 'i', 'f', 't']);
    }
    if l == "shift_l"@ {
        assert(l =~= seq!['s', 'h', 'i', 'f', 't', '_', 'l']);
    }
    if l == "shift_r"@ {
        assert(l =~= seq!['s', 'h', 'i', 'f', 't', '_', 'r']);
    }
    if l == "ctrl"@ {
        assert(l =~= seq!['c', 't', 'r', 'l']);
    }
    if l == "control"@ {
        assert(l =~= seq!['c', 'o', 'n', 't', 'r', 'o', 'l']);
    }
    if l == "control_l"@ {
        assert(l =~= seq!['c', 'o', 'n', 't', 'r', 'o', 'l', '_', 'l']);
    }
    if l == "control_r"@ {
        assert(l =~= seq!['c', 'o', 'n', 't', 'r', 'o', 'l', '_', 'r']);
    }
    if l == "ctrl_r"@ {
        assert(l =~= seq!['c', 't', 'r', 'l', '_', 'r']);
    }
}

#[verifier::rlimit(40)]
proof fn lemma_alt_meta_super_keys(t: Seq<char>)
    ensures
        lower(t) == "alt"@ || lower(t) == "alt_l"@ ==> token_keysym(t) == Some(0xffe9u32),
        lower(t) == "meta"@ || lower(t) == "meta_l"@ ==> token_keysym(t) == Some(0xffe7u32),
        lower(t) == "super"@ || lower(t) == "super_l"@ || lower(t) == "win"@ ==> token_keysym(t) == Some(0xffebu32),
        lower(t) == "super_r"@ ==> token_keysym(t) == Some(0xffecu32),
{
    reveal_strlit("return");
    reveal_strlit("enter");
    reveal_strlit("kp_enter");
    reveal_strlit("tab");
    reveal_strlit("escape");
    reveal_strlit("esc");
    reveal_strlit("backspace");
    reveal_strlit("bs");
    reveal_strlit("delete");
    reveal_strlit("del");
    reveal_strlit("space");
    reveal_strlit("spacebar");
    reveal_strlit("home");
    reveal_strlit("end");
    reveal_strlit("left");
    reveal_strlit("right");
    reveal_strlit("up");
    reveal_strlit("down");
    reveal_strlit("page_up");
    reveal_strlit("pageup");
    reveal_strlit("prior");
    reveal_strlit("page_down");
    reveal_strlit("pagedown");
    reveal_strlit("next");
    reveal_strlit("insert");
    reveal_strlit("ins");
    reveal_strlit("menu");
    reveal_strlit("shift");
    reveal_strlit("shift_l");
    reveal_strlit("shift_r");
    reveal_strlit("ctrl");
    reveal_strlit("control");
    reveal_strlit("control_l");
    reveal_strlit("control_r");
    reveal_strlit("ctrl_r");
    reveal_strlit("alt");
    reveal_strlit("alt_l");
    reveal_strlit("mod1");
    reveal_strlit("meta");
    reveal_strlit("meta_l");
    reveal_strlit("super");
    reveal_strlit("super_l");
    reveal_strlit("win");
    reveal_strlit("cmd");
    reveal_strlit("mod4");
    reveal_strlit("super_r");
    let l = lower(t);
    if 2 <= l.len() <= 32 && ascii_text(l) && l[0] != 'x' {
        lemma_named_token(t);
    }
    if l == "alt"@ {
        assert(l =~= seq!['a', 'l', 't']);
    }
    if l == "alt_l"@ {
        assert(l =~= seq!['a', 'l', 't', '_', 'l']);
    }
    if l == "meta"@ {
        assert(l =~= seq!['m', 'e', 't', 'a']);
    }
    if l == "meta_l"@ {
        assert(l =~= seq!['m', 'e', 't', 'a', '_', 'l']);
    }
    if l == "super"@ {
        assert(l =~= seq!['s', 'u', 'p', 'e', 'r']);
    }
    if l == "super_l"@ {
        assert(l =~= seq!['s', 'u', 'p', 'e', 'r', '_', 'l']);
    }
    if l == "win"@ {
        assert(l =~= seq!['w', 'i', 'n']);
    }
    if l == "super_r"@ {
        assert(l =~= seq!['s', 'u', 'p', 'e', 'r', '_', 'r']);
    }
}

/// The paging keys and the modifiers name the keysyms X gives them, in any
/// case: Page_Up/Prior, Page_Down/Next, Insert, Menu, Shift (left and
/// right), Control (left and right), Alt, Meta and Super (left and right).
pub proof fn law_modifier_and_paging_keys_name_their_x_keysyms(t: Seq<char>)
    ensures
        lower(t) == "page_up"@ || lower(t) == "pageup"@ || lower(t) == "prior"@ ==> token_keysym(t) == Some(0xff55u32),
        lower(t) == "page_down"@ || lower(t) == "pagedown"@ || lower(t) == "next"@ ==> token_keysym(t) == Some(0xff56u32),
        lower(t) == "insert"@ || lower(t) == "ins"@ ==> token_keysym(t) == Some(0xff63u32),
        lower(t) == "menu"@ ==> token_keysym(t) == Some(0xff67u32),
        lower(t) == "shift"@ || lower(t) == "shift_l"@ ==> token_keysym(t) == Some(0xffe1u32),
        lower(t) == "shift_r"@ ==> token_keysym(t) == Some(0xffe2u32),
        lower(t) == "ctrl"@ || lower(t) == "control"@ || lower(t) == "control_l"@ ==> token_keysym(t) == Some(0xffe3u32),
        lower(t) == "control_r"@ || lower(t) == "ctrl_r"@ ==> token_keysym(t) == Some(0xffe4u32),
        lower(t) == "alt"@ || lower(t) == "alt_l"@ ==> token_keysym(t) == Some(0xffe9u32),
        lower(t) == "meta"@ || lower(t) == "meta_l"@ ==> token_keysym(t) == Some(0xffe7u32),
        lower(t) == "super"@ || lower(t) == "super_l"@ || lower(t) == "win"@ ==> token_keysym(t) == Some(0xffebu32),
        lower(t) == "super_r"@ ==> token_keysym(t) == Some(0xffecu32),
{
    lemma_paging_keys(t);
    lemma_shift_control_keys(t);
    lemma_alt_meta_super_keys(t);
}

#[verifier::rlimit(60)]
proof fn lemma_function_keys_1_to_4(t: Seq<char>)
    ensures
        lower(t) == "f1"@ ==> token_keysym(t) == Some(0xffbeu32),
        lower(t) == "f2"@ ==> token_keysym(t) == Some(0xffbfu32),
        lower(t) == "f3"@ ==> token_keysym(t) == Some(0xffc0u32),
        lower(t) == "f4"@ ==> token_keysym(t) == Some(0xffc1u32),
{
    reveal_strlit("return");
    reveal_strlit("enter");
    reveal_strlit("kp_enter");
    reveal_strlit("tab");
    reveal_strlit("escape");
    reveal_strlit("esc");
    reveal_strlit("backspace");
    reveal_strlit("bs");
    reveal_strlit("delete");
    reveal_strlit("del");
    reveal_strlit("space");
    reveal_strlit("spacebar");
    reveal_strlit("home");
    reveal_strlit("end");
    reveal_strlit("left");
    reveal_strlit("right");
    reveal_strlit("up");
    reveal_strlit("down");
    reveal_strlit("page_up");
    reveal_strlit("pageup");
    reveal_strlit("prior");
    reveal_strlit("page_down");
    reveal_strlit("pagedown");
    reveal_strlit("next");
    reveal_strlit("insert");
    reveal_strlit("ins");
    reveal_strlit("menu");
    reveal_strlit("shift");
    reveal_strlit("shift_l");
    reveal_strlit("shift_r");
    reveal_strlit("ctrl");
    reveal_strlit("control");
    reveal_strlit("control_l");
    reveal_strlit("control_r");
    reveal_strlit("ctrl_r");
    reveal_strlit("alt");
    reveal_strlit("alt_l");
    reveal_strlit("mod1");
    reveal_strlit("meta");
    reveal_strlit("meta_l");
    reveal_strlit("super");
    reveal_strlit("super_l");
    reveal_strlit("win");
    reveal_strlit("cmd");
    reveal_strlit("mod4");
    reveal_strlit("super_r");
    reveal_strlit("altgr");
    reveal_strlit("iso_level3_shift");
    reveal_strlit("mode_switch");
    reveal_strlit("plus");
    reveal_strlit("kp_add");
    reveal_strlit("minus");
    reveal_strlit("kp_subtract");
    reveal_strlit("equal");
    reveal_strlit("comma");
    reveal_strlit("period");
    reveal_strlit("kp_decimal");
    reveal_strlit("slash");
    reveal_strlit("backslash");
    reveal_strlit("apostrophe");
    reveal_strlit("quotedbl");
    reveal_strlit("grave");
    reveal_strlit("semicolon");
    reveal_strlit("bracketleft");
    reveal_strlit("bracketright");
    reveal_strlit("f1");
    reveal_strlit("f2");
    reveal_strlit("f3");
    reveal_strlit("f4");
    reveal_strlit("f5");
    reveal_strlit("f6");
    reveal_strlit("f7");
    reveal_strlit("f8");
    reveal_strlit("f9");
    reveal_strlit("f10");
    reveal_strlit("f11");
    reveal_strlit("f12");
    let l = lower(t);
    if 2 <= l.len() <= 32 && ascii_text(l) && l[0] != 'x' {
        lemma_named_token(t);
    }
    if l == "f1"@ {
        assert(l =~= seq!['f', '1']);
    }
    if l == "f2"@ {
        assert(l =~= seq!['f', '2']);
    }
    if l == "f3"@ {
        assert(l =~= seq!['f', '3']);
    }
    if l == "f4"@ {
        assert(l =~= seq!['f', '4']);
    }
}

#[verifier::rlimit(60)]
proof fn lemma_function_keys_5_to_8(t: Seq<char>)
    ensures
        lower(t) == "f5"@ ==> token_keysym(t) == Some(0xffc2u32),
        lower(t) == "f6"@ ==> token_keysym(t) == Some(0xffc3u32),
        lower(t) == "f7"@ ==> token_keysym(t) == Some(0xffc4u32),
        lower(t) == "f8"@ ==> token_keysym(t) == Some(0xffc5u32),
{
    reveal_strlit("return");
    reveal_strlit("enter");
    reveal_strlit("kp_enter");
    reveal_strlit("tab");
    reveal_strlit("escape");
    reveal_strlit("esc");
    reveal_strlit("backspace");
    reveal_strlit("bs");
    reveal_strlit("delete");
    reveal_strlit("del");
    reveal_strlit("space");
    reveal_strlit("spacebar");
    reveal_strlit("home");
    reveal_strlit("end");
    reveal_strlit("left");
    reveal_strlit("right");
    reveal_strlit("up");
    reveal_strlit("down");
    reveal_strlit("page_up");
    reveal_strlit("pageup");
    reveal_strlit("prior");
    reveal_strlit("page_down");
    reveal_strlit("pagedown");
    reveal_strlit("next");
    reveal_strlit("insert");
    reveal_strlit("ins");
    reveal_strlit("menu");
    reveal_strlit("shift");
    reveal_strlit("shift_l");
    reveal_strlit("shift_r");
    reveal_strlit("ctrl");
    reveal_strlit("control");
    reveal_strlit("control_l");
    reveal_strlit("control_r");
    reveal_strlit("ctrl_r");
    reveal_strlit("alt");
    reveal_strlit("alt_l");
    reveal_strlit("mod1");
    reveal_strlit("meta");
    reveal_strlit("meta_l");
    reveal_strlit("super");
    reveal_strlit("super_l");
    reveal_strlit("win");
    reveal_strlit("cmd");
    reveal_strlit("mod4");
    reveal_strlit("super_r");
    reveal_strlit("altgr");
    reveal_strlit("iso_level3_shift");
    reveal_strlit("mode_switch");
    reveal_strlit("plus");
    reveal_strlit("kp_add");
    reveal_strlit("minus");
    reveal_strlit("kp_subtract");
    reveal_strlit("equal");
    reveal_strlit("comma");
    reveal_strlit("period");
    reveal_strlit("kp_decimal");
    reveal_strlit("slash");
    reveal_strlit("backslash");
    reveal_strlit("apostrophe");
    reveal_strlit("quotedbl");
    reveal_strlit("grave");
    reveal_strlit("semicolon");
    reveal_strlit("bracketleft");
    reveal_strlit("bracketright");
    reveal_strlit("f1");
    reveal_strlit("f2");
    reveal_strlit("f3");
    reveal_strlit("f4");
    reveal_strlit("f5");
    reveal_strlit("f6");
    reveal_strlit("f7");
    reveal_strlit("f8");
    reveal_strlit("f9");
    reveal_strlit("f10");
    reveal_strlit("f11");
    reveal_strlit("f12");
    let l = lower(t);
    if 2 <= l.len() <= 32 && ascii_text(l) && l[0] != 'x' {
        lemma_named_token(t);
    }
    if l == "f5"@ {
        assert(l =~= seq!['f', '5']);
    }
    if l == "f6"@ {
        assert(l =~= seq!['f', '6']);
    }
    if l == "f7"@ {
        assert(l =~= seq!['f', '7']);
    }
    if l == "f8"@ {
        assert(l =~= seq!['f', '8']);
    }
}

#[verifier::rlimit(60)]
proof fn lemma_function_keys_9_to_12(t: Seq<char>)
    ensures
        lower(t) == "f9"@ ==> token_keysym(t) == Some(0xffc6u32),
        lower(t) == "f10"@ ==> token_keysym(t) == Some(0xffc7u32),
        lower(t) == "f11"@ ==> token_keysym(t) == Some(0xffc8u32),
        lower(t) == "f12"@ ==> token_keysym(t) == Some(0xffc9u32),
{
    reveal_strlit("return");
    reveal_strlit("enter");
    reveal_strlit("kp_enter");
    reveal_strlit("tab");
    reveal_strlit("escape");
    reveal_strlit("esc");
    reveal_strlit("backspace");
    reveal_strlit("bs");
    reveal_strlit("delete");
    reveal_strlit("del");
    reveal_strlit("space");
    reveal_strlit("spacebar");
    reveal_strlit("home");
    reveal_strlit("end");
    reveal_strlit("left");
    reveal_strlit("right");
    reveal_strlit("up");
    reveal_strlit("down");
    reveal_strlit("page_up");
    reveal_strlit("pageup");
    reveal_strlit("prior");
    reveal_strlit("page_down");
    reveal_strlit("pagedown");
    reveal_strlit("next");
    reveal_strlit("insert");
    reveal_strlit("ins");
    reveal_strlit("menu");
    reveal_strlit("shift");
    reveal_strlit("shift_l");
    reveal_strlit("shift_r");
    reveal_strlit("ctrl");
    reveal_strlit("control");
    reveal_strlit("control_l");
    reveal_strlit("control_r");
    reveal_strlit("ctrl_r");
    reveal_strlit("alt");
    reveal_strlit("alt_l");
    reveal_strlit("mod1");
    reveal_strlit("meta");
    reveal_strlit("meta_l");
    reveal_strlit("super");
    reveal_strlit("super_l");
    reveal_strlit("win");
    reveal_strlit("cmd");
    reveal_strlit("mod4");
    reveal_strlit("super_r");
    reveal_strlit("altgr");
    reveal_strlit("iso_level3_shift");
    reveal_strlit("mode_switch");
    reveal_strlit("plus");
    reveal_strlit("kp_add");
    reveal_strlit("minus");
    reveal_strlit("kp_subtract");
    reveal_strlit("equal");
    reveal_strlit("comma");
    reveal_strlit("period");
    reveal_strlit("kp_decimal");
    reveal_strlit("slash");
    reveal_strlit("backslash");
    reveal_strlit("apostrophe");
    reveal_strlit("quotedbl");
    reveal_strlit("grave");
    reveal_strlit("semicolon");
    reveal_strlit("bracketleft");
    reveal_strlit("bracketright");
    reveal_strlit("f1");
    reveal_strlit("f2");
    reveal_strlit("f3");
    reveal_strlit("f4");
    reveal_strlit("f5");
    reveal_strlit("f6");
    reveal_strlit("f7");
    reveal_strlit("f8");
    reveal_strlit("f9");
    reveal_strlit("f10");
    reveal_strlit("f11");
    reveal_strlit("f12");
    let l = lower(t);
    if 2 <= l.len() <= 32 && ascii_text(l) && l[0] != 'x' {
        lemma_named_token(t);
    }
    if l == "f9"@ {
        assert(l =~= seq!['f', '9']);
    }
    if l == "f10"@ {
        assert(l =~= seq!['f', '1', '0']);
    }
    if l == "f11"@ {
        assert(l =~= seq!['f', '1', '1']);
    }
    if l == "f12"@ {
        assert(l =~= seq!['f', '1', '2']);
    }
}

/// The function keys F1 to F12, in any case, name X's keysyms `0xffbe` to
/// `0xffc9`, one after the other.
pub proof fn law_function_keys_name_their_x_keysyms(t: Seq<char>)
    ensures
        lower(t) == "f1"@ ==> token_keysym(t) == Some(0xffbeu32),
        lower(t) == "f2"@ ==> token_keysym(t) == Some(0xffbfu32),
        lower(t) == "f3"@ ==> token_keysym(t) == Some(0xffc0u32),
        lower(t) == "f4"@ ==> token_keysym(t) == Some(0xffc1u32),
        lower(t) == "f5"@ ==> token_keysym(t) == Some(0xffc2u32),
        lower(t) == "f6"@ ==> token_keysym(t) == Some(0xffc3u32),
        lower(t) == "f7"@ ==> token_keysym(t) == Some(0xffc4u32),
        lower(t) == "f8"@ ==> token_keysym(t) == Some(0xffc5u32),
        lower(t) == "f9"@ ==> token_keysym(t) == Some(0xffc6u32),
        lower(t) == "f10"@ ==> token_keysym(t) == Some(0xffc7u32),
        lower(t) == "f11"@ ==> token_keysym(t) == Some(0xffc8u32),
        lower(t) == "f12"@ ==> token_keysym(t) == Some(0xffc9u32),
{
    lemma_function_keys_1_to_4(t);
    lemma_function_keys_5_to_8(t);
    lemma_function_keys_9_to_12(t);
}

} // verus!
