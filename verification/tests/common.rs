use grok_box::common::auth::{bearer_token, tokens_equal};
use grok_box::common::config::{
    default_box_id, flag_value, nonempty_value, token_is_insecure, u64_setting, validate_token,
    BoxConfig, ConfigSettings, DEV_BOX_TOKEN,
};
use grok_box::common::cors::cors_origins;
use grok_box::common::error::{from_jail, ApiError};
use grok_box::common::jail::{
    display_under_workspace, is_inside, normalize_lexical, path_precheck, resolve_lexically, JailAsk, JailError,
    JailWalk, MAX_PATH_BYTES,
};
use grok_box::common::listen::{container_local_host, container_local_http_url};
use grok_box::common::request_id::{format_id, prefixed_id, valid_request_id};
use grok_box::common::GLOBAL_ALLOCATOR;
use grok_box::net::{IpAddr, SocketAddr};

#[test]
fn global_allocator_name_matches_feature() {
    assert_eq!(GLOBAL_ALLOCATOR, "mimalloc");
    let v = vec![1u8, 2, 3];
    assert_eq!(v.len(), 3);
}

#[test]
fn default_box_id_never_empty() {
    assert!(!default_box_id(None, None, None).is_empty());
    assert!(!default_box_id(Some(String::new()), None, None).is_empty());
}

#[test]
fn box_id_prefers_box_id_then_hostname_then_etc() {
    assert_eq!(default_box_id(Some("a".into()), Some("b".into()), None), "a");
    assert_eq!(default_box_id(None, Some("b".into()), Some("c".into())), "b");
    assert_eq!(default_box_id(None, None, Some(" c\n".into())), "c");
    assert_eq!(default_box_id(None, None, None), "grok-box");
}

#[test]
fn token_is_insecure_flags_known_bad_values() {
    assert!(token_is_insecure(""));
    assert!(token_is_insecure("short"));
    assert!(token_is_insecure(DEV_BOX_TOKEN));
    assert!(!token_is_insecure("local-smoke-box-token"));
}

fn loopback(port: u16) -> SocketAddr {
    SocketAddr::new(IpAddr::V4(127, 0, 0, 1), port)
}

fn unspecified(port: u16) -> SocketAddr {
    SocketAddr::new(IpAddr::V4(0, 0, 0, 0), port)
}

fn settings(token: Option<&str>, allow: bool, exec_bind: SocketAddr, host_bind: SocketAddr) -> ConfigSettings {
    ConfigSettings {
        token: token.map(str::to_owned),
        host_token: None,
        exec_bind,
        host_bind,
        allow_insecure_dev: allow,
        box_id: "grok-box".into(),
        workspace: "/workspace".into(),
        exec_url: None,
        max_file_bytes: None,
        default_timeout_ms: None,
        max_timeout_ms: None,
        max_output_bytes: None,
        max_concurrent_execs: None,
        max_dir_entries: None,
        kill_grace_ms: None,
    }
}

#[test]
fn from_env_requires_token() {
    let err = BoxConfig::from_settings(settings(None, false, loopback(1337), loopback(1340)))
        .unwrap_err();
    assert!(err.0.contains("BOX_TOKEN must be set"), "{}", err.0);
}

#[test]
fn from_env_rejects_dev_token_without_opt_in() {
    let err = BoxConfig::from_settings(settings(
        Some(DEV_BOX_TOKEN),
        false,
        loopback(1337),
        loopback(1340),
    ))
    .unwrap_err();
    assert!(err.0.contains("insecure"), "{}", err.0);
}

#[test]
fn from_env_rejects_insecure_token_on_unspecified_bind_even_with_opt_in() {
    let err = BoxConfig::from_settings(settings(
        Some(DEV_BOX_TOKEN),
        true,
        unspecified(1337),
        unspecified(1340),
    ))
    .unwrap_err();
    assert!(err.0.contains("loopback"), "{}", err.0);
}

#[test]
fn from_env_allows_insecure_token_on_loopback_with_opt_in() {
    let cfg = BoxConfig::from_settings(settings(
        Some(DEV_BOX_TOKEN),
        true,
        loopback(1337),
        loopback(1340),
    ))
    .unwrap();
    assert_eq!(cfg.token, DEV_BOX_TOKEN);
    assert_eq!(cfg.host_token, DEV_BOX_TOKEN);
}

#[test]
fn config_defaults_and_clamps() {
    let mut s = settings(Some("a-long-random-token-value"), false, unspecified(1337), unspecified(1340));
    s.max_concurrent_execs = Some("0".into());
    s.max_dir_entries = Some("999999999".into());
    s.kill_grace_ms = Some("nonsense".into());
    s.max_timeout_ms = Some("120000".into());
    let cfg = BoxConfig::from_settings(s).unwrap();
    assert_eq!(cfg.max_concurrent_execs, 1);
    assert_eq!(cfg.max_dir_entries, 100_000);
    assert_eq!(cfg.kill_grace_ms, 2_000);
    assert_eq!(cfg.max_timeout_ms, 120_000);
    assert_eq!(cfg.default_timeout_ms, 30_000);
    assert_eq!(cfg.max_file_bytes, 10 * 1024 * 1024);
    assert_eq!(cfg.max_output_bytes, 8 * 1024 * 1024);
    assert_eq!(cfg.exec_url, "http://127.0.0.1:1337");
}

#[test]
fn a_distinct_host_token_is_checked_too() {
    let mut s = settings(Some("a-long-random-token-value"), false, loopback(1337), loopback(1340));
    s.host_token = Some("short".into());
    let err = BoxConfig::from_settings(s).unwrap_err();
    assert!(err.0.starts_with("BOX_HOST_TOKEN "), "{}", err.0);
}

#[test]
fn validate_token_names_the_variable() {
    assert!(validate_token("BOX_TOKEN", "a-long-random-token-value", false, false).is_ok());
    let err = validate_token("BOX_TOKEN", "short", false, true).unwrap_err();
    assert!(err.0.starts_with("BOX_TOKEN is missing, shorter than 16 characters"));
}

#[test]
fn false_tokens() {
    for v in ["0", "false", "OFF", "no", " False "] {
        assert!(!flag_value(Some(v), true), "{v}");
    }
}

#[test]
fn true_tokens() {
    for v in ["1", "true", "yes", "on", "2"] {
        assert!(flag_value(Some(v), false), "{v}");
    }
}

#[test]
fn unset_and_empty_use_default() {
    assert!(flag_value(None, true));
    assert!(!flag_value(None, false));
    assert!(flag_value(Some("  "), true));
    assert!(!flag_value(Some("  "), false));
}

#[test]
fn nonempty_and_numeric_settings() {
    assert_eq!(nonempty_value(Some("  x ")).as_deref(), Some("x"));
    assert_eq!(nonempty_value(Some("   ")), None);
    assert_eq!(nonempty_value(None), None);
    assert_eq!(u64_setting(Some("42"), 7), 42);
    assert_eq!(u64_setting(Some("-1"), 7), 7);
    assert_eq!(u64_setting(None, 7), 7);
}

#[test]
fn unauthorized_wire_shape() {
    let err = ApiError::unauthorized();
    let body = err.into_response_body();
    assert_eq!(body.error.code, "unauthorized");
    assert_eq!(body.error.status, 401);
}

#[test]
fn error_constructors_carry_status_and_code() {
    assert_eq!(ApiError::not_found("x".into()).status(), 404);
    assert_eq!(ApiError::payload_too_large("x".into()).code(), "payload_too_large");
    assert_eq!(ApiError::busy("x".into()).status(), 429);
    assert_eq!(ApiError::invalid_request("bad".into()).message(), "bad");
    assert_eq!(ApiError::internal("x".into()).status(), 500);
}

#[test]
fn jail_errors_map_to_replies() {
    let e = from_jail(JailError::Escape);
    assert_eq!(e.status(), 400);
    assert_eq!(e.code(), "path_escape");
    let e = from_jail(JailError::Io("disk".into()));
    assert_eq!(e.status(), 500);
    assert_eq!(e.message(), "disk");
}

const ROOT: &str = "/srv/ws";

#[test]
fn empty_is_root() {
    assert_eq!(resolve_lexically(ROOT, "").unwrap(), ROOT);
}

#[test]
fn lexical_parent_escape_rejected() {
    assert!(matches!(resolve_lexically(ROOT, "../etc/passwd"), Err(JailError::Escape)));
    assert!(matches!(
        resolve_lexically(ROOT, "foo/../../etc/passwd"),
        Err(JailError::Escape)
    ));
}

#[test]
fn absolute_outside_rejected() {
    assert!(matches!(resolve_lexically(ROOT, "/etc/passwd"), Err(JailError::Escape)));
}

#[test]
fn prefix_sibling_not_confused() {
    assert!(matches!(
        resolve_lexically("/tmp/p/workspace", "/tmp/p/workspace-evil/secret"),
        Err(JailError::Escape)
    ));
}

#[test]
fn null_byte_rejected() {
    assert!(matches!(resolve_lexically(ROOT, "foo\0bar"), Err(JailError::Invalid)));
}

#[test]
fn too_long_rejected() {
    let long = "a".repeat(MAX_PATH_BYTES + 1);
    assert!(matches!(resolve_lexically(ROOT, &long), Err(JailError::TooLong)));
}

#[test]
fn nested_relative_ok() {
    assert_eq!(resolve_lexically(ROOT, "a/b/c.txt").unwrap(), "/srv/ws/a/b/c.txt");
}

#[test]
fn absolute_inside_ok() {
    assert_eq!(resolve_lexically(ROOT, "/srv/ws/x.txt").unwrap(), "/srv/ws/x.txt");
}

#[test]
fn dot_slash_stays_inside() {
    assert_eq!(resolve_lexically(ROOT, "./ok.txt").unwrap(), "/srv/ws/ok.txt");
}

#[test]
fn normalize_and_inside() {
    assert_eq!(normalize_lexical("/a/./b/../c//"), "/a/c");
    assert_eq!(normalize_lexical("a/../../b"), "b");
    assert!(is_inside("/srv/ws/a", "/srv/ws"));
    assert!(!is_inside("/srv/ws-evil", "/srv/ws"));
    assert!(!is_inside("srv/ws/a", "/srv/ws"));
}

#[test]
fn display_is_relative_to_the_workspace() {
    assert_eq!(display_under_workspace("/srv/ws", "/srv/ws/a/b"), "/srv/ws/a/b");
    assert_eq!(display_under_workspace("/srv/ws", "/srv/ws"), "/srv/ws");
    assert_eq!(display_under_workspace("/srv/ws", "/elsewhere"), "/elsewhere");
}

#[test]
fn symlink_escape_rejected() {
    // The lexical path lies inside, but the disk resolves it outside.
    let (mut walk, ask) = JailWalk::start(ROOT, "link");
    assert!(matches!(&ask, JailAsk::Exists(p) if p == "/srv/ws/link"));
    let ask = walk.on_exists(true);
    assert!(matches!(&ask, JailAsk::Canonicalize(p) if p == "/srv/ws/link"));
    let ask = walk.on_canonical(Ok("/tmp/outside/secret".into()));
    assert!(matches!(ask, JailAsk::Done(Err(JailError::Escape))));
}

#[test]
fn symlink_inside_ok() {
    let (mut walk, _) = JailWalk::start(ROOT, "link.txt");
    let _ = walk.on_exists(true);
    let ask = walk.on_canonical(Ok("/srv/ws/real.txt".into()));
    assert!(matches!(ask, JailAsk::Done(Ok(p)) if p == "/srv/ws/real.txt"));
}

#[test]
fn missing_names_are_put_back_under_the_canonical_ancestor() {
    let (mut walk, ask) = JailWalk::start(ROOT, "new/dir/file.txt");
    assert!(matches!(&ask, JailAsk::Exists(p) if p == "/srv/ws/new/dir/file.txt"));
    let ask = walk.on_exists(false);
    assert!(matches!(&ask, JailAsk::Exists(p) if p == "/srv/ws/new/dir"));
    let ask = walk.on_exists(false);
    assert!(matches!(&ask, JailAsk::Exists(p) if p == "/srv/ws/new"));
    let ask = walk.on_exists(false);
    assert!(matches!(&ask, JailAsk::Exists(p) if p == "/srv/ws"));
    let ask = walk.on_exists(true);
    assert!(matches!(&ask, JailAsk::Canonicalize(p) if p == "/srv/ws"));
    let ask = walk.on_canonical(Ok("/real/ws".into()));
    assert!(matches!(ask, JailAsk::Done(Err(JailError::Escape))));
    let ask = walk.on_canonical(Ok("/srv/ws".into()));
    assert!(matches!(ask, JailAsk::Done(Ok(p)) if p == "/srv/ws/new/dir/file.txt"));
    let ask = walk.on_canonical(Err(JailError::Io("gone".into())));
    assert!(matches!(ask, JailAsk::Done(Err(JailError::Io(m))) if m == "gone"));
}

#[test]
fn walking_past_the_filesystem_root_escapes() {
    let (mut walk, _) = JailWalk::start("/", "a");
    assert!(matches!(walk.on_exists(false), JailAsk::Exists(p) if p == "/"));
    assert!(matches!(walk.on_exists(false), JailAsk::Done(Err(JailError::Escape))));
}

#[test]
fn unspecified_v4_becomes_loopback() {
    let bind = SocketAddr::new(IpAddr::V4(0, 0, 0, 0), 1337);
    assert_eq!(container_local_host(bind), "127.0.0.1");
    assert_eq!(container_local_http_url(bind), "http://127.0.0.1:1337");
}

#[test]
fn explicit_bind_is_kept() {
    let bind = SocketAddr::new(IpAddr::V4(10, 0, 0, 9), 1340);
    assert_eq!(container_local_http_url(bind), "http://10.0.0.9:1340");
}

#[test]
fn unspecified_v6_becomes_loopback() {
    let bind = SocketAddr::new(IpAddr::V6(0, 0, 0, 0, 0, 0, 0, 0), 1340);
    assert_eq!(container_local_http_url(bind), "http://[::1]:1340");
}

#[test]
fn rejects_spaces_and_oversize() {
    assert!(valid_request_id("abc-123"));
    assert!(!valid_request_id(""));
    assert!(!valid_request_id("has space"));
    assert!(!valid_request_id(&"a".repeat(129)));
    assert!(valid_request_id("req:1.2_3"));
}

#[test]
fn minted_ids_are_hex_and_prefixed() {
    assert_eq!(format_id(255, 16), "ff-10");
    assert_eq!(format_id(0, 1), "0-1");
    assert!(prefixed_id("exec", &format_id(1, 2)).starts_with("exec-"));
    assert_eq!(prefixed_id("exec", "a-b"), "exec-a-b");
}

#[test]
fn cors_ignores_star_and_blanks() {
    assert!(cors_origins("").is_empty());
    assert!(cors_origins("*").is_empty());
    assert_eq!(
        cors_origins(" https://a.example , *, ,http://b.example"),
        vec!["https://a.example".to_string(), "http://b.example".to_string()]
    );
    assert_eq!(cors_origins("bad\u{7f}origin, ok"), vec!["ok".to_string()]);
}

#[test]
fn bearer_token_reads_the_bearer_scheme() {
    assert_eq!(bearer_token("Bearer abc123"), Some("abc123".to_string()));
    assert_eq!(bearer_token("Bearer   padded  "), Some("padded".to_string()));
    assert_eq!(bearer_token("Bearer    "), None);
    assert_eq!(bearer_token("Basic abc"), None);
    assert_eq!(bearer_token("bearer abc"), None);
    assert_eq!(bearer_token(""), None);
}

#[test]
fn tokens_equal_is_exact_equality() {
    assert!(tokens_equal("same-token-value", "same-token-value"));
    assert!(!tokens_equal("same-token-value", "same-token-valuX"));
    assert!(!tokens_equal("short", "shorter"));
    assert!(!tokens_equal("", "x"));
    assert!(tokens_equal("", ""));
}

#[test]
fn minted_ids_pass_the_inbound_check() {
    for (nanos, seq) in [(0u128, 0u64), (0x17f3a2b4c5d6e7f8, 42), (u128::MAX, u64::MAX)] {
        let id = format_id(nanos, seq);
        assert!(valid_request_id(&id), "{id}");
        assert!(valid_request_id(&prefixed_id("exec", &id)));
    }
    assert_eq!(format_id(u128::MAX, u64::MAX).len(), 32 + 1 + 16);
}

#[test]
fn the_precheck_refuses_what_the_walk_refuses() {
    assert!(matches!(path_precheck("a\0b"), Some(JailError::Invalid)));
    let long = "a".repeat(MAX_PATH_BYTES + 1);
    assert!(matches!(path_precheck(&long), Some(JailError::TooLong)));
    assert!(matches!(resolve_lexically("/ws", &long), Err(JailError::TooLong)));
    assert!(path_precheck("../etc/passwd").is_none());
    assert!(matches!(resolve_lexically("", "ok.txt"), Err(JailError::Empty)));
}

#[test]
fn different_clock_and_counter_pairs_mint_different_ids() {
    assert_ne!(format_id(1, 16), format_id(16, 1));
    assert_ne!(format_id(0x1f, 0), format_id(0x1, 0xf0));
    assert_ne!(format_id(7, 7), format_id(7, 8));
    assert_eq!(format_id(7, 7), format_id(7, 7));
}

#[test]
fn cors_origins_keep_only_header_safe_values() {
    assert_eq!(cors_origins("a\tb, c\u{1}d"), vec!["a\tb".to_string()]);
    assert_eq!(cors_origins("https://ü.example"), vec!["https://ü.example".to_string()]);
    assert!(cors_origins("x\ny").is_empty());
}

#[test]
fn prefixed_ids_start_with_their_prefix() {
    let id = format_id(0xabc, 7);
    let p = prefixed_id("exec", &id);
    assert!(p.starts_with("exec-"));
    assert_eq!(p, "exec-abc-7");
    assert_ne!(prefixed_id("exec", &format_id(1, 2)), prefixed_id("exec", &format_id(1, 3)));
}
