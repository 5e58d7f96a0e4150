use grok_box::cua::parse_geometry;
use grok_box::cua::keymap::{chord_plan, KeyMap};
use grok_box::cua::KeyAction;
use grok_box::cua::encode::{
    bgra_to_rgb, bgra_to_rgb_unchecked, check_png, encode_png_rgb, encode_png_rgb_into, zpixmap_to_rgb,
};
use grok_box::cua::keys::{
    char_to_keysym, keysym_from_token, parse_key_sequence, UNICODE_PLANE, XK_CONTROL_L, XK_RETURN,
    XK_SHIFT_L,
};
use grok_box::cua::observe::{add_observe_ms, watch, RecipeObserve, StepObservation};
use grok_box::cua::recipe::RecipeStep;
use grok_box::cua::record::{display_target, recorder_args, recording_mime};
use grok_box::cua::settle::{chromium_titles, dock_click, parse_wmctrl_lx, parse_wmctrl_lx_line, WinInfo};
use grok_box::cua::{
    display_info, display_socket_path, ensure_ready, pointer_click_args, pointer_press_args,
    pointer_release_args, scroll_args, screenshot_from_png, validate_button, validate_key,
    validate_point, wheel_ticks, CuaConfig, CuaError, CuaPoint,
};

fn enabled() -> CuaConfig {
    let mut cfg = CuaConfig::disabled();
    cfg.enabled = true;
    cfg
}

#[test]
fn bgra_swaps_to_rgb() {
    let src = [0x11u8, 0x22, 0x33, 0x00, 0xaa, 0xbb, 0xcc, 0xff];
    let mut dst = [0u8; 6];
    bgra_to_rgb(&src, &mut dst);
    assert_eq!(dst, [0x33, 0x22, 0x11, 0xcc, 0xbb, 0xaa]);
    let mut dst2 = [0u8; 6];
    bgra_to_rgb_unchecked(&src, &mut dst2);
    assert_eq!(dst, dst2);
}

#[test]
fn bgra_leaves_bytes_past_the_pixels() {
    let src = [1u8, 2, 3, 4];
    let mut dst = [9u8; 5];
    bgra_to_rgb(&src, &mut dst);
    assert_eq!(dst, [3, 2, 1, 9, 9]);
}

#[test]
fn png_has_signature_and_ihdr() {
    let w = 2u32;
    let h = 2u32;
    let rgb = [255u8, 0, 0, 0, 255, 0, 0, 0, 255, 255, 255, 255];
    let png = encode_png_rgb(w, h, &rgb).unwrap();
    assert_eq!(&png[..8], b"\x89PNG\r\n\x1a\n");
    assert!(png.len() > 16);
}

#[test]
fn png_size_mismatch_and_zero_size_are_refused() {
    match encode_png_rgb(2, 2, &[0u8; 11]) {
        Err(CuaError::Tool(m)) => assert_eq!(m, "rgb buffer size mismatch"),
        other => panic!("{other:?}"),
    }
    assert!(matches!(encode_png_rgb(0, 1, &[]), Err(CuaError::Tool(_))));
}

#[test]
fn encoded_png_passes_the_capture_check() {
    let png = encode_png_rgb(1, 1, &[1, 2, 3]).unwrap();
    assert_eq!(check_png(png.clone()).unwrap(), png);
    assert!(matches!(check_png(vec![1, 2, 3]), Err(CuaError::Tool(m)) if m == "screenshot was empty"));
    assert!(
        matches!(check_png(vec![0; 9]), Err(CuaError::Tool(m)) if m == "screenshot was not a PNG")
    );
}

#[test]
fn zpixmap_xvfb_packed() {
    let mut src = vec![0u8; 8];
    src[0] = 0x10;
    src[1] = 0x20;
    src[2] = 0x30;
    src[4] = 0x40;
    src[5] = 0x50;
    src[6] = 0x60;
    let mut rgb = vec![0u8; 6];
    zpixmap_to_rgb(
        &src,
        2,
        1,
        8,
        true,
        32,
        0x00ff_0000,
        0x0000_ff00,
        0x0000_00ff,
        &mut rgb,
    )
    .unwrap();
    assert_eq!(rgb, [0x30, 0x20, 0x10, 0x60, 0x50, 0x40]);
}

#[test]
fn chords_and_aliases() {
    assert_eq!(parse_key_sequence("Return").unwrap().as_slice(), [XK_RETURN]);
    assert_eq!(
        parse_key_sequence("ctrl+c").unwrap().as_slice(),
        [XK_CONTROL_L, b'c' as u32]
    );
    assert_eq!(parse_key_sequence("shift+Tab").unwrap().as_slice()[0], XK_SHIFT_L);
    assert!(parse_key_sequence("not a key").is_err());
    assert!(parse_key_sequence("bad;key").is_err());
    assert_eq!(char_to_keysym('A'), b'A' as u32);
    assert_eq!(char_to_keysym('\n'), XK_RETURN);
    assert_eq!(char_to_keysym('€'), UNICODE_PLANE | '€' as u32);
    assert_eq!(keysym_from_token("F12"), Some(0xffc9));
}

#[test]
fn rejects_out_of_range() {
    let cfg = CuaConfig::disabled();
    let mut cfg = cfg;
    cfg.enabled = true;
    assert!(validate_point(&cfg, 0, 0).is_ok());
    assert!(validate_point(&cfg, 1279, 799).is_ok());
    assert!(validate_point(&cfg, 1280, 0).is_err());
    assert!(validate_point(&cfg, -1, 10).is_err());
    assert!(validate_point(&cfg, 10, 800).is_err());
}

#[test]
fn out_of_range_names_the_point_and_the_display() {
    assert!(matches!(
        validate_point(&enabled(), 1280, 5),
        Err(CuaError::OutOfRange(1280, 5, 1280, 800))
    ));
}

#[test]
fn click_args_are_press_release_without_sync() {
    let args = pointer_click_args(10, 20, 1);
    assert_eq!(
        args.as_slice(),
        ["mousemove", "10", "20", "mousedown", "1", "mouseup", "1"]
    );
    assert!(!args.as_slice().iter().any(|a| a == "--sync"));
    assert!(!args.as_slice().iter().any(|a| a == "click"));
    assert_eq!(
        pointer_press_args(10, 20, 3).as_slice(),
        ["mousemove", "10", "20", "mousedown", "3"]
    );
}

#[test]
fn scroll_uses_wheel_press_release_not_xdotool_click() {
    let args = scroll_args(640, 400, 0, 120);
    assert_eq!(
        args.as_slice(),
        ["mousemove", "640", "400", "mousedown", "5", "mouseup", "5"]
    );
    assert!(!args.as_slice().iter().any(|a| a == "click"));
    assert!(!args.as_slice().iter().any(|a| a == "--sync"));
    assert_eq!(wheel_ticks(120), 1);
    assert_eq!(wheel_ticks(1), 1);
    assert_eq!(wheel_ticks(240), 2);
    assert_eq!(wheel_ticks(-120), 1);
    let left = scroll_args(10, 10, -120, 0);
    assert!(left.as_slice().contains(&"6".into()));
    assert!(!left.as_slice().iter().any(|a| a == "click"));
}

#[test]
fn scroll_up_and_right_use_buttons_four_and_seven() {
    assert_eq!(
        scroll_args(1, 2, 0, -240).as_slice(),
        ["mousemove", "1", "2", "mousedown", "4", "mouseup", "4", "mousedown", "4", "mouseup", "4"]
    );
    assert!(scroll_args(1, 2, 120, 0).as_slice().contains(&"7".into()));
    assert_eq!(wheel_ticks(0), 0);
}

#[test]
fn release_path_moves_then_lets_go() {
    let release = pointer_release_args(
        Some(&[CuaPoint { x: 20, y: 20 }, CuaPoint { x: 30, y: 30 }]),
        Some((40, 50)),
        1,
    );
    assert_eq!(
        release.as_slice(),
        [
            "mousemove",
            "20",
            "20",
            "mousemove",
            "30",
            "30",
            "mousemove",
            "40",
            "50",
            "mouseup",
            "1"
        ]
    );
    assert!(!release.as_slice().iter().any(|a| a == "click" || a == "--sync"));
    let click_up = pointer_release_args(None, None, 1);
    assert_eq!(click_up.as_slice(), ["mouseup", "1"]);
}

#[test]
fn disabled_screenshot_errors() {
    let cfg = CuaConfig::disabled();
    let err = ensure_ready(&cfg, true).unwrap_err();
    assert!(matches!(err, CuaError::Disabled));
    assert_eq!(std::mem::size_of::<CuaConfig>(), 40);
    assert!(!cfg.capability_ready(true));
}

#[test]
fn a_down_display_is_reported() {
    assert!(matches!(ensure_ready(&enabled(), false), Err(CuaError::DisplayDown(_))));
    assert!(ensure_ready(&enabled(), true).is_ok());
    let info = display_info(&enabled(), true);
    assert!(info.available);
    assert_eq!((info.width, info.height), (1280, 800));
}

#[test]
fn buttons_and_keys_are_checked() {
    assert_eq!(validate_button(None).unwrap(), 1);
    assert_eq!(validate_button(Some(3)).unwrap(), 3);
    assert!(matches!(validate_button(Some(9)), Err(CuaError::Invalid(_))));
    assert!(validate_key("ctrl+shift+t").is_ok());
    assert!(matches!(validate_key(""), Err(CuaError::Invalid(_))));
    assert!(matches!(validate_key("a b"), Err(CuaError::Invalid(_))));
}

#[test]
fn display_socket_names_the_x11_socket() {
    assert_eq!(display_socket_path(":1"), "/tmp/.X11-unix/X1");
    assert_eq!(display_socket_path(":0.0"), "/tmp/.X11-unix/X0");
}

#[test]
fn screenshot_response_inlines_base64_on_request() {
    let cfg = enabled();
    let png = vec![1u8, 2, 3];
    let inline = screenshot_from_png(&cfg, png.clone(), None, true);
    assert_eq!(inline.png_base64, "AQID");
    assert_eq!(inline.bytes, 3);
    assert_eq!(inline.mime, "image/png");
    let saved = screenshot_from_png(&cfg, png, Some("/workspace/a.png".into()), false);
    assert!(saved.png_base64.is_empty());
    assert_eq!(saved.path.as_deref(), Some("/workspace/a.png"));
}

fn click() -> RecipeStep {
    RecipeStep::Click {
        x: 529,
        y: 126,
        button: None,
    }
}

#[test]
fn off_looks_at_nothing() {
    assert!(watch(RecipeObserve::Off, &click()).is_none());
    assert!(watch(
        RecipeObserve::Off,
        &RecipeStep::Type {
            text: "kabisado".into()
        }
    )
    .is_none());
}

#[test]
fn a_click_is_watched_at_its_own_coordinate() {
    let w = watch(RecipeObserve::Input, &click()).expect("a click has a target");
    assert_eq!(w.target, Some((529, 126)));
    assert!(!w.focus);
    assert!(!w.page, "input mode must not reach for DevTools");
    let w = watch(RecipeObserve::Page, &click()).expect("a click has a target");
    assert!(w.page);
}

#[test]
fn a_drag_is_watched_where_it_grabs() {
    let w = watch(
        RecipeObserve::Input,
        &RecipeStep::Drag {
            x1: 10,
            y1: 20,
            x2: 300,
            y2: 400,
            button: None,
        },
    )
    .expect("a drag has a grab point");
    assert_eq!(w.target, Some((10, 20)));
}

#[test]
fn typing_watches_focus_not_a_coordinate() {
    let w = watch(
        RecipeObserve::Page,
        &RecipeStep::Type {
            text: "kabisado".into(),
        },
    )
    .expect("a type has somewhere for the text to go");
    assert!(w.focus);
    assert_eq!(w.target, None);
    assert!(w.page);
}

#[test]
fn steps_with_nothing_to_see_are_not_claimed_as_observed() {
    for step in [
        RecipeStep::Wait { ms: 10 },
        RecipeStep::Screenshot {},
        RecipeStep::ResetDesktop {},
        RecipeStep::Release {
            x: None,
            y: None,
            button: None,
            path: None,
        },
    ] {
        assert!(
            watch(RecipeObserve::Page, &step).is_none(),
            "{} has nothing to observe and must not carry an empty block",
            step.op_name()
        );
    }
}

#[test]
fn an_empty_observation_still_says_the_box_looked() {
    let mut obs = StepObservation::default();
    assert!(obs.target.is_none() && obs.focus.is_none());
    assert_eq!(obs.observe_ms, 0);
    add_observe_ms(&mut obs, 7);
    assert_eq!(obs.observe_ms, 7);
}

#[test]
fn mode_defaults_to_off() {
    assert_eq!(RecipeObserve::default(), RecipeObserve::Off);
}

#[test]
fn wmctrl_lines_name_windows() {
    let w = parse_wmctrl_lx_line("0x02a00003  0 chromium.Chromium  box New Tab - Chromium").unwrap();
    assert_eq!(w.id, "0x02a00003");
    assert_eq!(w.class, "chromium.Chromium");
    assert_eq!(w.title, "New Tab - Chromium");
    assert!(w.is_chromium() && w.is_app() && w.usable());
    assert!(parse_wmctrl_lx_line("0x1 0 x").is_none());
    let all = parse_wmctrl_lx("0x1 0 xfce4-terminal.Xfce4-terminal box Terminal\n\n0x2 0 a.b box\n");
    assert_eq!(all.len(), 2);
    assert!(all[0].usable());
    assert!(!all[1].usable());
    let plain = WinInfo {
        id: "0x3".into(),
        class: "xterm.XTerm".into(),
        title: "x".into(),
    };
    assert!(!plain.is_app());
}

#[test]
fn recordings_grab_the_screen_and_name_their_type() {
    assert_eq!(display_target(":1"), ":1.0");
    assert_eq!(display_target(":1.0"), ":1.0");
    assert_eq!(recording_mime("/w/a.webm"), "video/webm");
    assert_eq!(recording_mime("/w/a.WEBM"), "video/webm");
    assert_eq!(recording_mime("/w/a.mp4"), "video/mp4");
    assert_eq!(recording_mime("/w/noext"), "video/mp4");
    let args = recorder_args(1280, 800, ":1.0", "/w/cook.mp4");
    assert_eq!(args[0], "-nostdin");
    assert!(args.windows(2).any(|p| p[0] == "-video_size" && p[1] == "1280x800"));
    assert!(args.windows(2).any(|p| p[0] == "-i" && p[1] == ":1.0"));
    assert_eq!(args.last().map(String::as_str), Some("/w/cook.mp4"));
}

#[test]
fn geometry_is_width_by_height_with_optional_depth() {
    assert_eq!(parse_geometry("1280x800x24"), Some((1280, 800)));
    assert_eq!(parse_geometry("1024x768"), Some((1024, 768)));
    assert_eq!(parse_geometry("0x800"), None);
    assert_eq!(parse_geometry("1280"), None);
    assert_eq!(parse_geometry("axb"), None);
    assert_eq!(parse_geometry(""), None);
}

fn small_map() -> KeyMap {
    // keycode 10 types 'a' / 'A', keycode 11 types Shift_L.
    KeyMap {
        keysyms: vec![0x61, 0x41, 0xffe1, 0],
        keysyms_per: 2,
        min_keycode: 10,
        // Shift row holds 11; Lock and Control are empty; the rest absent.
        mod_keycodes: vec![11, 0, 0, 0, 37, 0, 0, 0, 0, 0, 0, 0, 0, 0, 0, 0],
        keycodes_per_mod: 2,
        shift_l: 11,
    }
}

#[test]
fn keymap_lookup_finds_plain_and_shifted_keysyms() {
    let map = small_map();
    assert_eq!(map.lookup(0x61), Some((10, false)));
    assert_eq!(map.lookup(0x41), Some((10, true)));
    assert_eq!(map.lookup(0xffe1), Some((11, false)));
    assert_eq!(map.lookup(0x7a), None);
}

#[test]
fn keymap_events_hold_shift_around_a_shifted_key() {
    let map = small_map();
    assert_eq!(map.keysym_events(0x61, KeyAction::Tap), Some(vec![(10, true), (10, false)]));
    assert_eq!(
        map.keysym_events(0x41, KeyAction::Tap),
        Some(vec![(11, true), (10, true), (10, false), (11, false)])
    );
    assert_eq!(map.keysym_events(0x41, KeyAction::Down), Some(vec![(11, true), (10, true)]));
    assert_eq!(map.keysym_events(0x41, KeyAction::Up), Some(vec![(10, false), (11, false)]));
    assert_eq!(map.keysym_events(0x7a, KeyAction::Tap), None);
}

#[test]
fn keymap_held_modifiers_releases_each_set_modifier() {
    let map = small_map();
    // Shift (bit 0) and Control (bit 2) set; Lock (bit 1) unset.
    assert_eq!(map.held_modifiers(0b101), vec![11, 37]);
    assert_eq!(map.held_modifiers(0), Vec::<u8>::new());
    let mut bare = small_map();
    bare.keycodes_per_mod = 0;
    assert_eq!(bare.held_modifiers(0xff), Vec::<u8>::new());
}

#[test]
fn chord_plan_presses_in_order_and_releases_in_reverse() {
    let seq = [XK_CONTROL_L, 0x61];
    let tap = chord_plan(&seq, KeyAction::Tap);
    assert_eq!(tap.len(), 4);
    assert_eq!(tap[0].0, XK_CONTROL_L);
    assert_eq!(tap[1].0, 0x61);
    assert_eq!(tap[2].0, 0x61);
    assert_eq!(tap[3].0, XK_CONTROL_L);
    assert!(matches!(tap[0].1, KeyAction::Down));
    assert!(matches!(tap[3].1, KeyAction::Up));
    let down = chord_plan(&seq, KeyAction::Down);
    assert_eq!(down.iter().map(|s| s.0).collect::<Vec<_>>(), vec![XK_CONTROL_L, 0x61]);
    let up = chord_plan(&seq, KeyAction::Up);
    assert_eq!(up.iter().map(|s| s.0).collect::<Vec<_>>(), vec![0x61, XK_CONTROL_L]);
}

#[test]
fn dock_strip_is_the_bottom_48_pixels() {
    assert!(dock_click(799, 800));
    assert!(dock_click(752, 800));
    assert!(!dock_click(751, 800));
    assert!(!dock_click(0, 800));
    assert!(dock_click(-10, 20));
}

#[test]
fn page_snapshot_keeps_chromium_titles_in_order() {
    let wins = parse_wmctrl_lx(
        "0x01  0 chromium.Chromium  box  News - Chromium\n\
         0x02  0 xfce4-terminal.Xfce4-terminal  box  Terminal\n\
         0x03  0 google-chrome.Google-chrome  box  Mail\n",
    );
    assert_eq!(chromium_titles(&wins), vec!["News - Chromium".to_string(), "Mail".to_string()]);
    assert!(chromium_titles(&Vec::<WinInfo>::new()).is_empty());
}

#[test]
fn key_names_ignore_case_and_the_xk_prefix() {
    assert_eq!(keysym_from_token("F12"), Some(0xffc9));
    assert_eq!(keysym_from_token("f12"), keysym_from_token("F12"));
    assert_eq!(keysym_from_token("RETURN"), keysym_from_token("Return"));
    assert_eq!(keysym_from_token("XK_Return"), keysym_from_token("Return"));
    assert_eq!(keysym_from_token(&"x".repeat(33)), None);
    assert_eq!(keysym_from_token("é"), None);
}

#[test]
fn png_sizes_the_encoder_cannot_hold_are_refused() {
    let mut out = vec![7u8];
    match encode_png_rgb_into(u32::MAX, u32::MAX, &[], &mut out) {
        Err(CuaError::Tool(m)) => assert_eq!(m, "png dimensions overflow"),
        other => panic!("unexpected {other:?}"),
    }
    assert_eq!(out, vec![7u8]);
    let mut good = Vec::new();
    assert!(encode_png_rgb_into(2, 1, &[1, 2, 3, 4, 5, 6], &mut good).is_ok());
    assert_eq!(&good[..8], &[137, 80, 78, 71, 13, 10, 26, 10]);
}

#[test]
fn png_frame_carries_ihdr_size_and_iend() {
    let rgb = [255u8, 0, 0, 0, 255, 0, 0, 0, 255, 255, 255, 255];
    let png = encode_png_rgb(2, 2, &rgb).unwrap();
    assert!(png.len() >= 45);
    assert_eq!(&png[8..16], &[0, 0, 0, 13, b'I', b'H', b'D', b'R']);
    assert_eq!(&png[16..20], &2u32.to_be_bytes());
    assert_eq!(&png[20..24], &2u32.to_be_bytes());
    let n = png.len();
    assert_eq!(&png[n - 12..], &[0, 0, 0, 0, b'I', b'E', b'N', b'D', 0xae, 0x42, 0x60, 0x82]);
    let wide = encode_png_rgb(3, 1, &[1u8; 9]).unwrap();
    assert_eq!(&wide[16..20], &3u32.to_be_bytes());
    assert_eq!(&wide[20..24], &1u32.to_be_bytes());
}
