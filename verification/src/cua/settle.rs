//! Windows as `wmctrl -lx` lists them, and which of them a recipe waits
//! for.
use vstd::prelude::*;

use crate::egress::relay::has_run;
use crate::text::{
    chars_of, contains_run, extend_chars, lower, lower_all, split_whitespace, split_ws, string_of,
    trim, trim_class, CharClass,
};

verus! {

/// One window: its id, `WM_CLASS` as `instance.class`, and title.
#[derive(Debug, Clone)]
pub struct WinInfo {
    pub id: String,
    pub class: String,
    pub title: String,
}

impl WinInfo {
    /// An application window: Chromium, Chrome, the terminal or the file
    /// manager.
    pub open spec fn app(&self) -> bool {
        let c = lower(self.class@);
        contains_run(c, "chromium"@) || contains_run(c, "chrome"@) || contains_run(
            c,
            "xfce4-terminal"@,
        ) || contains_run(c, "thunar"@)
    }

    pub open spec fn chromium(&self) -> bool {
        let c = lower(self.class@);
        contains_run(c, "chromium"@) || contains_run(c, "chrome"@)
    }

    pub fn is_app(&self) -> (b: bool)
        ensures
            b == self.app(),
    {
        let c = lower_all(chars_of(self.class.as_str()).as_slice());
        has_run(c.as_slice(), chars_of("chromium").as_slice()) || has_run(
            c.as_slice(),
            chars_of("chrome").as_slice(),
        ) || has_run(c.as_slice(), chars_of("xfce4-terminal").as_slice()) || has_run(
            c.as_slice(),
            chars_of("thunar").as_slice(),
        )
    }

    pub fn is_chromium(&self) -> (b: bool)
        ensures
            b == self.chromium(),
    {
        let c = lower_all(chars_of(self.class.as_str()).as_slice());
        has_run(c.as_slice(), chars_of("chromium").as_slice()) || has_run(
            c.as_slice(),
            chars_of("chrome").as_slice(),
        )
    }

    /// An application window with a title.
    pub fn usable(&self) -> (b: bool)
        ensures
            b == (self.app() && trim(self.title@, CharClass::Whitespace).len() > 0),
    {
        self.is_app() && trim_class(chars_of(self.title.as_str()).as_slice(), CharClass::Whitespace).len()
            > 0
    }
}

/// Words joined with single spaces.
pub open spec fn join_spaced(ws: Seq<Seq<char>>) -> Seq<char>
    decreases ws.len(),
{
    if ws.len() == 0 {
        Seq::empty()
    } else if ws.len() == 1 {
        ws[0]
    } else {
        join_spaced(ws.drop_last()) + seq![' '] + ws.last()
    }
}

/// A `wmctrl -lx` line: id, desktop, class, host, then the title words
/// joined by single spaces; fewer than four words is no window.
pub open spec fn wmctrl_line(line: Seq<char>) -> Option<(Seq<char>, Seq<char>, Seq<char>)> {
    let ws = split_ws(line);
    if ws.len() < 4 {
        None
    } else {
        Some((ws[0], ws[2], join_spaced(ws.skip(4))))
    }
}

pub fn parse_wmctrl_lx_line(line: &str) -> (r: Option<WinInfo>)
    ensures
        match wmctrl_line(line@) {
            Some((id, class, title)) => r matches Some(w) && w.id@ == id && w.class@ == class
                && w.title@ == title,
            None => r is None,
        },
{
    let ws = split_whitespace(chars_of(line).as_slice());
    if ws.len() < 4 {
        return None;
    }
    let ghost d = ws.deep_view();
    let mut title: Vec<char> = Vec::new();
    let mut i: usize = 4;
    assert(join_spaced(d.skip(4).take(0)) =~= Seq::<char>::empty());
    while i < ws.len()
        invariant
            4 <= i <= ws@.len(),
            d == ws.deep_view(),
            title@ == join_spaced(d.skip(4).take(i - 4)),
        decreases ws@.len() - i,
    {
        assert(d.skip(4).take(i - 4 + 1).drop_last() =~= d.skip(4).take(i - 4));
        assert(d.skip(4).take(i - 4 + 1).last() == ws@[i as int]@);
        if i > 4 {
            title.push(' ');
        }
        extend_chars(&mut title, ws[i].as_slice());
        proof {
            if i == 4 {
                assert(d.skip(4).take(1) =~= seq![d[4]]);
                assert(title@ =~= d[4]);
            } else {
                assert(title@ =~= join_spaced(d.skip(4).take(i - 4)) + seq![' '] + d[i as int]);
            }
        }
        i = i + 1;
    }
    assert(d.skip(4).take(ws@.len() - 4) =~= d.skip(4));
    assert(d[0] == ws@[0]@);
    assert(d[2] == ws@[2]@);
    Some(
        WinInfo {
            id: string_of(ws[0].as_slice()),
            class: string_of(ws[2].as_slice()),
            title: string_of(title.as_slice()),
        },
    )
}


/// The windows listed in `wmctrl -lx` output, one per line that has all
/// four leading fields. (Splitting on `\n` alone is enough: a line's
/// trailing `\r` is whitespace to the line parser.)
pub open spec fn wmctrl_windows(lines: Seq<Seq<char>>) -> Seq<(Seq<char>, Seq<char>, Seq<char>)>
    decreases lines.len(),
{
    if lines.len() == 0 {
        Seq::empty()
    } else {
        let rest = wmctrl_windows(lines.drop_last());
        match wmctrl_line(lines.last()) {
            Some(w) => rest.push(w),
            None => rest,
        }
    }
}

pub open spec fn win_view(w: WinInfo) -> (Seq<char>, Seq<char>, Seq<char>) {
    (w.id@, w.class@, w.title@)
}

pub fn parse_wmctrl_lx(stdout: &str) -> (r: Vec<WinInfo>)
    ensures
        r@.map_values(|w: WinInfo| win_view(w)) == wmctrl_windows(
            crate::text::split(stdout@, CharClass::Is('\n')),
        ),
{
    let parts = crate::text::split_class(chars_of(stdout).as_slice(), CharClass::Is('\n'));
    let ghost d = parts.deep_view();
    let mut out: Vec<WinInfo> = Vec::new();
    let mut i: usize = 0;
    assert(wmctrl_windows(d.take(0)) =~= Seq::<(Seq<char>, Seq<char>, Seq<char>)>::empty());
    assert(out@.map_values(|w: WinInfo| win_view(w)) =~= Seq::<(Seq<char>, Seq<char>, Seq<char>)>::empty());
    while i < parts.len()
        invariant
            i <= parts@.len(),
            d == parts.deep_view(),
            out@.map_values(|w: WinInfo| win_view(w)) == wmctrl_windows(d.take(i as int)),
        decreases parts@.len() - i,
    {
        assert(d.take(i + 1).drop_last() =~= d.take(i as int));
        assert(d.take(i + 1).last() == parts@[i as int]@);
        let line = string_of(parts[i].as_slice());
        let ghost before = out@;
        match parse_wmctrl_lx_line(line.as_str()) {
            Some(w) => {
                out.push(w);
                assert(out@.map_values(|w: WinInfo| win_view(w)) =~= before.map_values(
                    |w: WinInfo| win_view(w),
                ).push(win_view(out@.last())));
            },
            None => {},
        }
        i = i + 1;
    }
    assert(d.take(parts@.len() as int) =~= d);
    out
}

/// Height of the panel strip along the bottom of the display, in pixels.
pub const DOCK_STRIP: u32 = 48;

/// A click in the bottom panel strip toggles the dock, after which the
/// recipe waits for an application window.
pub fn dock_click(y: i32, height: u32) -> (b: bool)
    ensures
        b == (y as int >= height as int - DOCK_STRIP as int),
{
    (y as i64) >= (height as i64) - (DOCK_STRIP as i64)
}

/// The titles of the Chromium windows, in order: what a recipe compares to
/// see whether the page changed.
pub open spec fn chromium_titles_of(ws: Seq<WinInfo>) -> Seq<Seq<char>>
    decreases ws.len(),
{
    if ws.len() == 0 {
        Seq::empty()
    } else {
        let rest = chromium_titles_of(ws.drop_last());
        if ws.last().chromium() {
            rest.push(ws.last().title@)
        } else {
            rest
        }
    }
}

pub fn chromium_titles(ws: &Vec<WinInfo>) -> (r: Vec<String>)
    ensures
        r@.map_values(|t: String| t@) == chromium_titles_of(ws@),
{
    let mut out: Vec<String> = Vec::new();
    let mut i: usize = 0;
    assert(ws@.take(0) =~= Seq::<WinInfo>::empty());
    assert(out@.map_values(|t: String| t@) =~= Seq::<Seq<char>>::empty());
    while i < ws.len()
        invariant
            i <= ws@.len(),
            out@.map_values(|t: String| t@) == chromium_titles_of(ws@.take(i as int)),
        decreases ws@.len() - i,
    {
        assert(ws@.take(i + 1).drop_last() =~= ws@.take(i as int));
        assert(ws@.take(i + 1).last() == ws@[i as int]);
        let ghost before = out@;
        if ws[i].is_chromium() {
            out.push(ws[i].title.clone());
            assert(out@.map_values(|t: String| t@) =~= before.map_values(|t: String| t@).push(
                ws@[i as int].title@,
            ));
        }
        i = i + 1;
    }
    assert(ws@.take(ws@.len() as int) =~= ws@);
    out
}

} // verus!
