//! Screen recording of a recipe run: the `ffmpeg` x11grab command line and
//! the recording's media type.
use vstd::prelude::*;

use crate::cua::ArgList;
use crate::num::{dec_text, nat_string};
use crate::text::{
    chars_eq, chars_of, contains_class, copy_range, extend_str, lower, lower_all, rfind,
    rfind_class, string_of, CharClass,
};

verus! {

/// The x11grab input of a display: `:1` becomes `:1.0`; a display that
/// names a screen is used as it is.
pub open spec fn grab_target(display: Seq<char>) -> Seq<char> {
    if display.contains('.') {
        display
    } else {
        display + ".0"@
    }
}

pub fn display_target(display: &str) -> (s: String)
    ensures
        s@ == grab_target(display@),
{
    let d = chars_of(display);
    let dot = contains_class(d.as_slice(), CharClass::Is('.'));
    proof {
        if dot {
            let k = choose|k: int|
                0 <= k < d@.len() && crate::text::in_class(CharClass::Is('.'), #[trigger] d@[k]);
            assert(d@[k] == '.');
        }
        if d@.contains('.') {
            let k = choose|k: int| 0 <= k < d@.len() && d@[k] == '.';
            assert(crate::text::in_class(CharClass::Is('.'), d@[k]));
        }
    }
    if dot {
        return display.to_owned();
    }
    let mut v = d;
    extend_str(&mut v, ".0");
    string_of(v.as_slice())
}

/// `Path::file_name`: the last component, unless it is `.` or `..`.
pub open spec fn file_name(path: Seq<char>) -> Option<Seq<char>> {
    let c = crate::common::jail::comps(path);
    if c.len() > 0 && c.last() != crate::common::jail::dot() && c.last()
        != crate::common::jail::dotdot() {
        Some(c.last())
    } else {
        None
    }
}

/// `Path::extension` of a file name: after its last `.`, unless that dot
/// starts the name or there is none.
pub open spec fn extension(name: Seq<char>) -> Option<Seq<char>> {
    let d = rfind(name, CharClass::Is('.'));
    if d > 0 {
        Some(name.skip(d + 1))
    } else {
        None
    }
}

/// `video/webm` for a `.webm` file in any case, `video/mp4` otherwise.
pub open spec fn mime_of(path: Seq<char>) -> Seq<char> {
    match file_name(path) {
        Some(n) => match extension(n) {
            Some(e) => if lower(e) == "webm"@ {
                "video/webm"@
            } else {
                "video/mp4"@
            },
            None => "video/mp4"@,
        },
        None => "video/mp4"@,
    }
}

pub fn recording_mime(path: &str) -> (m: &'static str)
    ensures
        m@ == mime_of(path@),
{
    let p = chars_of(path);
    let cs = crate::common::jail::components_of(p.as_slice());
    if cs.len() == 0 {
        return "video/mp4";
    }
    let last = &cs[cs.len() - 1];
    assert(cs.deep_view().last() == last@);
    if (last.len() == 1 && last[0] == '.') || (last.len() == 2 && last[0] == '.' && last[1] == '.') {
        proof {
            if last@.len() == 1 {
                assert(last@ =~= crate::common::jail::dot());
            } else {
                assert(last@ =~= crate::common::jail::dotdot());
            }
        }
        return "video/mp4";
    }
    assert(last@ != crate::common::jail::dot());
    assert(last@ != crate::common::jail::dotdot());
    match rfind_class(last.as_slice(), CharClass::Is('.')) {
        Some(d) => {
            if d == 0 {
                return "video/mp4";
            }
            let ext = copy_range(last.as_slice(), d + 1, last.len());
            assert(ext@ =~= last@.skip(d + 1));
            let l = lower_all(ext.as_slice());
            if chars_eq(l.as_slice(), chars_of("webm").as_slice()) {
                "video/webm"
            } else {
                "video/mp4"
            }
        },
        None => "video/mp4",
    }
}


/// The `WxH` frame size ffmpeg is told to grab.
pub open spec fn size_text(width: u32, height: u32) -> Seq<char> {
    dec_text(width as nat) + "x"@ + dec_text(height as nat)
}

/// The `ffmpeg` arguments of a recording: x11grab of `target` at 8 fps
/// with the pointer drawn, ultrafast x264 in fragmented MP4 written to
/// `dest`, no audio.
pub open spec fn ffmpeg_words(size: Seq<char>, target: Seq<char>, dest: Seq<char>) -> Seq<Seq<char>> {
    seq![
        "-nostdin"@, "-hide_banner"@, "-loglevel"@, "error"@, "-y"@, "-f"@, "x11grab"@,
        "-draw_mouse"@, "1"@, "-video_size"@, size, "-framerate"@, "8"@, "-i"@, target, "-an"@,
        "-c:v"@, "libx264"@, "-preset"@, "ultrafast"@, "-tune"@, "zerolatency"@, "-pix_fmt"@,
        "yuv420p"@, "-b:v"@, "700k"@, "-maxrate"@, "900k"@, "-bufsize"@, "1800k"@, "-movflags"@,
        "+frag_keyframe+empty_moov+faststart"@, dest,
    ]
}

fn push_s(v: &mut Vec<String>, s: &str)
    ensures
        crate::text::views(final(v)@) == crate::text::views(old(v)@).push(s@),
{
    let ghost o = crate::text::views(v@);
    v.push(s.to_owned());
    assert(crate::text::views(v@) =~= o.push(s@));
}

pub fn recorder_args(width: u32, height: u32, target: &str, dest: &str) -> (v: Vec<String>)
    ensures
        crate::text::views(v@) == ffmpeg_words(size_text(width, height), target@, dest@),
{
    let mut size: Vec<char> = Vec::new();
    extend_str(&mut size, nat_string(width as u64).as_str());
    extend_str(&mut size, "x");
    extend_str(&mut size, nat_string(height as u64).as_str());
    let size = string_of(size.as_slice());
    let mut v: Vec<String> = Vec::new();
    assert(crate::text::views(v@) =~= Seq::<Seq<char>>::empty());
    push_s(&mut v, "-nostdin");
    push_s(&mut v, "-hide_banner");
    push_s(&mut v, "-loglevel");
    push_s(&mut v, "error");
    push_s(&mut v, "-y");
    push_s(&mut v, "-f");
    push_s(&mut v, "x11grab");
    push_s(&mut v, "-draw_mouse");
    push_s(&mut v, "1");
    push_s(&mut v, "-video_size");
    push_s(&mut v, size.as_str());
    push_s(&mut v, "-framerate");
    push_s(&mut v, "8");
    push_s(&mut v, "-i");
    push_s(&mut v, target);
    push_s(&mut v, "-an");
    push_s(&mut v, "-c:v");
    push_s(&mut v, "libx264");
    push_s(&mut v, "-preset");
    push_s(&mut v, "ultrafast");
    push_s(&mut v, "-tune");
    push_s(&mut v, "zerolatency");
    push_s(&mut v, "-pix_fmt");
    push_s(&mut v, "yuv420p");
    push_s(&mut v, "-b:v");
    push_s(&mut v, "700k");
    push_s(&mut v, "-maxrate");
    push_s(&mut v, "900k");
    push_s(&mut v, "-bufsize");
    push_s(&mut v, "1800k");
    push_s(&mut v, "-movflags");
    push_s(&mut v, "+frag_keyframe+empty_moov+faststart");
    push_s(&mut v, dest);
    assert(crate::text::views(v@) =~= ffmpeg_words(size_text(width, height), target@, dest@));
    v
}

} // verus!
