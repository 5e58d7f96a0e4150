use grok_box::cua::recipe::display_workspace_path;
use grok_box::cua::recipe::{
    app_wait_ms, focuses_omnibox, is_ctrl_key, is_return_key, page_wait_ms, recording_artifact,
    resolve_artifact_dir, track_key_state, validate_recipe, wants_page_snap, RecipeRequest,
    RecipeRun, RecipeScreenshot, RecipeSettle, RecipeStep, StepOutcome, MAX_RECIPE_STEPS,
    MAX_WAIT_MS,
};
use grok_box::cua::{CuaConfig, CuaError, KeyAction};

const WS: &str = "/workspace";

fn cfg() -> CuaConfig {
    let mut cfg = CuaConfig::disabled();
    cfg.enabled = true;
    cfg
}

#[test]
fn rejects_empty() {
    let req = RecipeRequest {
        steps: vec![],
        ..RecipeRequest::default()
    };
    assert!(matches!(
        validate_recipe(&cfg(), &req, WS),
        Err(CuaError::Invalid(_))
    ));
}

#[test]
fn rejects_too_many_steps() {
    let step = RecipeStep::Wait { ms: 1 };
    let req = RecipeRequest {
        screenshot: Some(RecipeScreenshot::Never),
        steps: vec![step; MAX_RECIPE_STEPS + 1],
        ..RecipeRequest::default()
    };
    assert!(validate_recipe(&cfg(), &req, WS).is_err());
}

#[test]
fn rejects_out_of_range_before_run() {
    let req = RecipeRequest {
        screenshot: Some(RecipeScreenshot::Never),
        steps: vec![
            RecipeStep::Move { x: 0, y: 0 },
            RecipeStep::Click {
                x: 1280,
                y: 0,
                button: None,
            },
        ],
        ..RecipeRequest::default()
    };
    assert!(matches!(
        validate_recipe(&cfg(), &req, WS),
        Err(CuaError::OutOfRange(1280, 0, 1280, 800))
    ));
}

#[test]
fn rejects_long_wait() {
    let req = RecipeRequest {
        screenshot: Some(RecipeScreenshot::Never),
        steps: vec![RecipeStep::Wait {
            ms: MAX_WAIT_MS + 1,
        }],
        ..RecipeRequest::default()
    };
    assert!(validate_recipe(&cfg(), &req, WS).is_err());
}

#[test]
fn reset_desktop_keeps_its_wire_name() {
    assert_eq!(RecipeStep::ResetDesktop {}.op_name(), "reset_desktop");
    assert_eq!(
        RecipeStep::DoubleClick {
            x: 1,
            y: 2,
            button: None
        }
        .op_name(),
        "double_click"
    );
}

#[test]
fn rejects_artifact_dir_escape() {
    let req = RecipeRequest {
        artifact_dir: Some("../etc".into()),
        steps: vec![RecipeStep::Wait { ms: 1 }],
        ..RecipeRequest::default()
    };
    assert!(validate_recipe(&cfg(), &req, WS).is_err());
}

#[test]
fn accepts_workspace_artifact_dir() {
    let req = RecipeRequest {
        artifact_dir: Some(".l1/cooks/demo".into()),
        record: Some(true),
        steps: vec![RecipeStep::ResetDesktop {}, RecipeStep::Wait { ms: 1 }],
        ..RecipeRequest::default()
    };
    assert!(validate_recipe(&cfg(), &req, WS).is_ok());
}

#[test]
fn artifact_dirs_resolve_under_the_workspace() {
    assert_eq!(
        resolve_artifact_dir(".l1/cooks/demo", WS).unwrap(),
        "/workspace/.l1/cooks/demo"
    );
    assert!(resolve_artifact_dir("   ", WS).is_err());
    assert!(resolve_artifact_dir("/etc", WS).is_err());
}

#[test]
fn settle_defaults_to_compressed() {
    let req = RecipeRequest {
        settle: Some(RecipeSettle::Raw),
        steps: vec![RecipeStep::Wait { ms: 1 }],
        ..RecipeRequest::default()
    };
    assert_eq!(req.settle_mode(), RecipeSettle::Raw);
    let req = RecipeRequest {
        steps: vec![RecipeStep::Wait { ms: 1 }],
        ..RecipeRequest::default()
    };
    assert_eq!(req.settle_mode(), RecipeSettle::Compressed);
    assert!(req.stop_on_error());
    assert_eq!(req.screenshot_mode(), RecipeScreenshot::End);
    assert!(!req.record());
}

#[test]
fn accepts_known_path() {
    let req = RecipeRequest {
        name: Some("open-url".into()),
        stop_on_error: Some(true),
        screenshot: Some(RecipeScreenshot::End),
        steps: vec![
            RecipeStep::Click {
                x: 640,
                y: 400,
                button: Some(1),
            },
            RecipeStep::Type {
                text: "hello".into(),
            },
            RecipeStep::Key {
                key: "Return".into(),
                action: None,
            },
            RecipeStep::Wait { ms: 50 },
        ],
        ..RecipeRequest::default()
    };
    assert!(validate_recipe(&cfg(), &req, WS).is_ok());
}

fn two_steps(stop_on_error: bool) -> RecipeRequest {
    RecipeRequest {
        stop_on_error: Some(stop_on_error),
        screenshot: Some(RecipeScreenshot::Never),
        steps: vec![RecipeStep::Wait { ms: 1 }, RecipeStep::Wait { ms: 2 }],
        ..RecipeRequest::default()
    }
}

#[test]
fn a_recipe_stops_at_its_first_failure() {
    let req = two_steps(true);
    let mut run = RecipeRun::start(&req);
    assert_eq!(run.next_index(), Some(0));
    run.step_done(&req.steps[0], 3, StepOutcome::Failed(CuaError::Tool("boom".into())));
    assert_eq!(run.next_index(), None);
    assert!(!run.wants_end_shot());
    let resp = run.finish(None, 9);
    assert!(!resp.ok);
    assert_eq!(resp.ran, 0);
    assert_eq!(resp.stopped_at, Some(0));
    assert_eq!(resp.steps.len(), 1);
    assert_eq!(resp.steps[0].op, "wait");
    assert_eq!(resp.steps[0].error.as_deref(), Some("tool failed: boom"));
}

#[test]
fn a_recipe_that_goes_on_runs_every_step() {
    let req = two_steps(false);
    let mut run = RecipeRun::start(&req);
    run.step_done(&req.steps[0], 3, StepOutcome::Failed(CuaError::Tool("boom".into())));
    assert_eq!(run.next_index(), Some(1));
    run.step_done(&req.steps[1], 4, StepOutcome::Done(None));
    assert_eq!(run.next_index(), None);
    let resp = run.finish(Some("n".into()), 9);
    assert!(!resp.ok);
    assert_eq!(resp.ran, 1);
    assert_eq!(resp.stopped_at, None);
    assert_eq!(resp.steps.len(), 2);
    assert_eq!(resp.name.as_deref(), Some("n"));
    assert_eq!(resp.duration_ms, 9);
}

#[test]
fn a_clean_recipe_is_ok() {
    let req = two_steps(true);
    let mut run = RecipeRun::start(&req);
    run.step_done(&req.steps[0], 1, StepOutcome::Done(None));
    run.step_done(&req.steps[1], 1, StepOutcome::Done(None));
    let resp = run.finish(None, 2);
    assert!(resp.ok);
    assert_eq!(resp.ran, 2);
}

#[test]
fn keys_and_waits_follow_the_settle_mode() {
    assert!(is_return_key("enter"));
    assert!(is_return_key("Return"));
    assert!(!is_return_key("Tab"));
    assert!(is_ctrl_key("Control"));
    assert_eq!(app_wait_ms(RecipeSettle::Raw), 6_000);
    assert_eq!(page_wait_ms(RecipeSettle::Compressed), 3_000);
    assert_eq!(page_wait_ms(RecipeSettle::Off), 0);
    let ret = RecipeStep::Key {
        key: "Return".into(),
        action: None,
    };
    assert!(wants_page_snap(RecipeSettle::Compressed, &ret));
    assert!(!wants_page_snap(RecipeSettle::Off, &ret));
}

#[test]
fn the_omnibox_shortcut_is_recognised_in_pieces() {
    assert!(focuses_omnibox("ctrl+L", None, false, &None));
    assert!(focuses_omnibox("l", None, true, &None));
    assert!(focuses_omnibox("ctrl", Some(KeyAction::Up), false, &Some("L".into())));
    assert!(!focuses_omnibox("ctrl", Some(KeyAction::Down), false, &Some("l".into())));
    let mut ctrl = false;
    let mut last = None;
    track_key_state(
        &RecipeStep::Key {
            key: "ctrl".into(),
            action: Some(KeyAction::Down),
        },
        &mut ctrl,
        &mut last,
    );
    assert!(ctrl);
    assert_eq!(last.as_deref(), Some("ctrl"));
    track_key_state(&RecipeStep::Wait { ms: 1 }, &mut ctrl, &mut last);
    assert!(ctrl);
    track_key_state(&RecipeStep::Type { text: "x".into() }, &mut ctrl, &mut last);
    assert!(!ctrl);
    assert_eq!(last, None);
}

#[test]
fn a_recording_is_an_artifact() {
    let a = recording_artifact(&cfg(), "/workspace/cook.mp4".into(), "video/mp4", 10);
    assert_eq!(a.kind, "recording");
    assert_eq!(a.label, "cook");
    assert_eq!(a.width, Some(1280));
    assert_eq!(a.step_index, None);
}

#[test]
fn artifacts_in_the_workspace_show_under_slash_workspace() {
    assert_eq!(display_workspace_path("/srv/ws", "/srv/ws/shots/a.png"), "/workspace/shots/a.png");
    assert_eq!(display_workspace_path("/srv/ws", "/tmp/a.png"), "/tmp/a.png");
    assert_eq!(display_workspace_path("/srv/ws", "/srv/wsx/a.png"), "/srv/wsx/a.png");
}

#[test]
fn a_failed_recording_is_reported_in_the_receipt() {
    let req = RecipeRequest::default();
    let mut run = RecipeRun::start(&req);
    run.recording_failed("ffmpeg is missing".to_string());
    let resp = run.finish(None, 0);
    assert_eq!(resp.recording_error.as_deref(), Some("ffmpeg is missing"));
    let clean = RecipeRun::start(&req).finish(None, 0);
    assert!(clean.recording_error.is_none());
}

#[test]
fn a_stopped_receipt_lists_each_step_once_and_ends_at_the_failure() {
    let req = RecipeRequest {
        stop_on_error: Some(true),
        screenshot: Some(RecipeScreenshot::Never),
        steps: vec![
            RecipeStep::Wait { ms: 1 },
            RecipeStep::Wait { ms: 2 },
            RecipeStep::Wait { ms: 3 },
        ],
        ..RecipeRequest::default()
    };
    let mut run = RecipeRun::start(&req);
    run.step_done(&req.steps[0], 1, StepOutcome::Done(None));
    assert_eq!(run.next_index(), Some(1));
    run.step_done(&req.steps[1], 2, StepOutcome::Failed(CuaError::Tool("boom".into())));
    assert_eq!(run.next_index(), None);
    let resp = run.finish(Some("three".into()), 5);
    assert_eq!(resp.steps.len(), 2);
    assert!(resp.steps.len() <= req.steps.len() + 1);
    for (k, s) in resp.steps.iter().enumerate() {
        assert_eq!(s.index, k);
    }
    assert_eq!(resp.stopped_at, Some(1));
    assert!(!resp.steps[1].ok);
    assert!(resp.steps[0].ok);
    assert!(!resp.ok);
    assert_eq!(resp.ran, 1);
    assert_eq!(resp.name.as_deref(), Some("three"));
}
