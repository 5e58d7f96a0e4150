use grok_box::exec::files::{
    b64_decode, b64_encode, check_size, decode_put_content, directory_response, encode_content,
    entry_kind, file_response, recursive_flag, DirEntry, FileGetResponse,
};
use grok_box::exec::{
    busy_error, busy_response, cancel_reply, child_env, clamp_timeout, command_argv, detached_running,
    is_secret_key, job_finished, job_running, job_status, map_err, reject_pty, run_response,
    strip_env_keys, wait_step, want_png, wants_sse, Capped, CommandSpec, EnvOp, ExecRequest,
    ExecResponse, JobTable, StreamCap, WaitAction, WaitEvent, WaitStage, MAX_DETACHED_JOBS,
};
use grok_box::cua::CuaError;

#[test]
fn clamp_respects_max() {
    // 30 s default, 60 s maximum.
    assert_eq!(clamp_timeout(30_000, 60_000, Some(120_000)), 60_000);
    assert_eq!(clamp_timeout(30_000, 60_000, Some(0)), 1);
    assert_eq!(clamp_timeout(30_000, 60_000, None), 30_000);
}

#[test]
fn secret_keys_are_detected() {
    assert!(is_secret_key("BOX_TOKEN"));
    assert!(is_secret_key("box_token"));
    assert!(is_secret_key("BOX_HOST_TOKEN"));
    assert!(is_secret_key("BOX_VNC_PASSWORD"));
    assert!(is_secret_key("BOX_TOKEN_FILE"));
    assert!(is_secret_key("box_vnc_password_file"));
    assert!(!is_secret_key("PATH"));
    assert!(!is_secret_key("TERM"));
}

fn ops_text(ops: &[EnvOp]) -> Vec<String> {
    ops.iter()
        .map(|o| match o {
            EnvOp::Remove(k) => format!("-{k}"),
            EnvOp::Put(k, v) => format!("{k}={v}"),
        })
        .collect()
}

#[test]
fn exec_strips_box_token_from_child_env() {
    let ops = child_env(Some(&vec![
        ("box_token".into(), "leak".into()),
        ("FOO".into(), "bar".into()),
    ]))
    .unwrap();
    let text = ops_text(&ops);
    assert!(!text.iter().any(|t| t.contains("leak")));
    assert!(text.contains(&"FOO=bar".to_string()));
    assert_eq!(text.last().map(String::as_str), Some("-BOX_VNC_PASSWORD_FILE"));
    assert_eq!(&text[..6], &text[text.len() - 6..]);
    assert_eq!(strip_env_keys().len(), 6);
}

#[test]
fn exec_sets_default_term() {
    let text = ops_text(&child_env(None).unwrap());
    assert!(text.contains(&"TERM=xterm-256color".to_string()));
    assert!(text.contains(&"COLORTERM=truecolor".to_string()));
    assert!(text.contains(&"COLUMNS=120".to_string()));
    assert!(text.contains(&"LINES=32".to_string()));
}

#[test]
fn exec_env_can_override_term() {
    let text = ops_text(&child_env(Some(&vec![("term".into(), "dumb".into())])).unwrap());
    assert!(!text.contains(&"TERM=xterm-256color".to_string()));
    assert!(text.contains(&"term=dumb".to_string()));
}

#[test]
fn malformed_environment_is_refused() {
    for (k, v) in [("", "x"), ("A=B", "x"), ("A", "x\0y")] {
        let err = child_env(Some(&vec![(k.into(), v.into())])).unwrap_err();
        assert_eq!(err.status(), 400);
        assert_eq!(err.message(), "invalid environment variable name or value");
    }
}

#[test]
fn pty_is_rejected() {
    let mut req = ExecRequest {
        command: CommandSpec::Argv(vec!["true".into()]),
        cwd: None,
        timeout_ms: None,
        env: None,
        stdin: None,
        pty: Some(true),
        detach: None,
    };
    assert_eq!(reject_pty(&req).unwrap_err().status(), 400);
    req.pty = Some(false);
    assert!(reject_pty(&req).is_ok());
}

#[test]
fn commands_become_argv() {
    assert_eq!(
        command_argv(CommandSpec::Shell("echo hi".into())).unwrap(),
        vec!["/bin/sh".to_string(), "-c".into(), "echo hi".into()]
    );
    assert_eq!(
        command_argv(CommandSpec::Argv(vec!["ls".into(), "-l".into()])).unwrap(),
        vec!["ls".to_string(), "-l".into()]
    );
    assert_eq!(
        command_argv(CommandSpec::Argv(vec![])).unwrap_err().message(),
        "command argv must not be empty"
    );
    assert_eq!(
        command_argv(CommandSpec::Argv(vec!["".into()])).unwrap_err().message(),
        "command[0] must not be empty"
    );
    assert!(command_argv(CommandSpec::Shell(String::new())).is_err());
}

#[test]
fn exec_stream_picks_sse_from_accept() {
    assert!(wants_sse("application/json, text/event-stream"));
    assert!(!wants_sse("application/x-ndjson"));
}

#[test]
fn exec_timeout_keeps_stdout() {
    let mut out = Capped::new(4);
    out.absorb(b"ab");
    out.absorb(b"cdef");
    assert_eq!(out.bytes, b"abcd");
    assert!(out.truncated);
    let mut err = Capped::new(4);
    err.absorb(b"");
    let resp = run_response(&out, &err, true, true, None, 5, "/w".into(), "exec-1".into());
    assert_eq!(resp.stdout, "abcd");
    assert!(resp.truncated);
    assert!(resp.timed_out);
    assert!(resp.output_complete);
    assert!(!resp.detached);
}

#[test]
fn exec_reports_complete_output_for_an_ordinary_command() {
    let mut out = Capped::new(64);
    out.absorb(b"ok\n");
    let err = Capped::new(64);
    let resp = run_response(&out, &err, true, false, Some(0), 1, "/w".into(), "e".into());
    assert_eq!(resp.stdout, "ok\n");
    assert_eq!(resp.exit_code, Some(0));
    assert!(!resp.truncated);
    let early = run_response(&out, &err, false, false, Some(0), 1, "/w".into(), "e".into());
    assert!(early.truncated && !early.output_complete);
}

#[test]
fn exec_stream_ndjson_exits() {
    let mut cap = StreamCap::new(5);
    assert_eq!(cap.accept(3), 3);
    assert_eq!(cap.accept(3), 2);
    assert!(cap.truncated);
    assert_eq!(cap.accept(3), 0);
}

#[test]
fn exec_busy_returns_429() {
    let e = busy_error(8);
    assert_eq!(e.status(), 429);
    assert_eq!(e.code(), "busy");
    assert_eq!(e.message(), "too many concurrent execs (max 8)");
}

#[test]
fn busy_reports_slots() {
    let b = busy_response(8, 8, false);
    assert!(b.busy);
    assert_eq!((b.execs.current, b.execs.max), (8, 8));
    assert!(!busy_response(1, 8, true).busy);
}

#[test]
fn exec_detach_then_status() {
    let running = detached_running("exec-7".into(), "/w".into());
    assert!(running.detached);
    assert_eq!(running.status, Some("running"));
    let mut table = JobTable::new();
    table.insert("exec-7".into(), job_running());
    let st = job_status(table.get("exec-7"), "exec-7".into()).unwrap();
    assert_eq!(st.status, Some("running"));
    let mut out = Capped::new(16);
    out.absorb(b"done");
    let fin = run_response(&out, &Capped::new(16), true, false, Some(0), 2, "/w".into(), "exec-7".into());
    table.insert("exec-7".into(), job_finished("exec-7".into(), Ok(fin)));
    let st = job_status(table.get("exec-7"), "exec-7".into()).unwrap();
    assert_eq!(st.stdout, "done");
    assert_eq!(st.status, Some("done"));
    assert_eq!(job_status(None, "nope".into()).unwrap_err().status(), 404);
}

#[test]
fn the_job_table_forgets_only_finished_jobs() {
    let mut table = JobTable::new();
    table.insert("r".into(), job_running());
    for i in 0..MAX_DETACHED_JOBS {
        let fin = detached_running(format!("f{i}"), "/".into());
        table.insert(format!("f{i}"), job_finished(format!("f{i}"), Ok(fin)));
    }
    assert_eq!(table.len(), MAX_DETACHED_JOBS + 1);
    table.prune();
    assert_eq!(table.len(), MAX_DETACHED_JOBS - 1);
    assert!(table.contains("r"));
    assert!(!table.contains("f0"));
}

#[test]
fn cancel_rejects_an_unknown_exec_id() {
    assert_eq!(cancel_reply(false, false, "x".into()).unwrap_err().status(), 404);
    assert!(!cancel_reply(false, true, "x".into()).unwrap().cancelled);
    assert!(cancel_reply(true, true, "x".into()).unwrap().cancelled);
}

#[test]
fn cancelled_request_kills_the_whole_process_group() {
    assert!(matches!(
        wait_step(WaitStage::Running, WaitEvent::Elapsed),
        WaitAction::SignalAndWait(15)
    ));
    assert!(matches!(
        wait_step(WaitStage::Grace, WaitEvent::Elapsed),
        WaitAction::KillAndReap(9)
    ));
    assert!(matches!(
        wait_step(WaitStage::Grace, WaitEvent::Exited(Some(0))),
        WaitAction::Finish(Ok((true, Some(0))))
    ));
    assert!(matches!(
        wait_step(WaitStage::Running, WaitEvent::Exited(None)),
        WaitAction::Finish(Ok((false, None)))
    ));
}

#[test]
fn png_from_query() {
    assert!(want_png(Some("png"), ""));
    assert!(!want_png(Some("json"), ""));
}

#[test]
fn png_from_accept() {
    assert!(want_png(None, "image/png"));
    assert!(!want_png(None, "*/*"));
}

#[test]
fn cua_errors_map_to_http() {
    assert_eq!(map_err(CuaError::Disabled).status(), 503);
    assert_eq!(map_err(CuaError::Invalid("x".into())).status(), 400);
}

#[test]
fn base64_roundtrip() {
    let data = b"hello world!";
    let encoded = b64_encode(data);
    assert_eq!(b64_decode(&encoded).unwrap(), data);
    assert_eq!(b64_decode("aGVsbG8=").unwrap(), b"hello");
    assert_eq!(b64_decode("aGVs\nbG8=").unwrap(), b"hello");
    assert_eq!(b64_decode("***"), Err("invalid base64"));
}

#[test]
fn files_raw_roundtrip() {
    let bytes = vec![0u8, 159, 146, 150, 10];
    let (enc, content) = encode_content(bytes.clone(), "utf8").unwrap();
    assert_eq!(enc, "base64");
    assert_eq!(decode_put_content(content, enc).unwrap(), bytes);
    let (enc, content) = encode_content(b"plain".to_vec(), "TEXT").unwrap();
    assert_eq!((enc, content.as_str()), ("utf8", "plain"));
    assert_eq!(decode_put_content(content, enc).unwrap(), b"plain");
    assert_eq!(
        encode_content(vec![1], "hex").unwrap_err().message(),
        "unsupported encoding 'hex'"
    );
}

#[test]
fn files_put_and_get() {
    let got = file_response("/w", "/w/a.txt", 5, b"hello".to_vec(), None).unwrap();
    match got {
        FileGetResponse::File { path, size, encoding, content } => {
            assert_eq!(path, "/w/a.txt");
            assert_eq!(size, 5);
            assert_eq!(encoding, "utf8");
            assert_eq!(content, "hello");
        }
        other => panic!("{other:?}"),
    }
    assert_eq!(
        decode_put_content("aGVsbG8=".into(), "base64").unwrap(),
        b"hello"
    );
    assert_eq!(decode_put_content("x".into(), "gzip").unwrap_err().status(), 400);
}

#[test]
fn listings_are_sorted_by_name() {
    let entries = vec![
        DirEntry { name: "b".into(), kind: entry_kind(false, false), size: Some(1) },
        DirEntry { name: "a".into(), kind: entry_kind(true, false), size: None },
        DirEntry { name: "B".into(), kind: entry_kind(false, true), size: None },
    ];
    match directory_response("/w", "/w/d", entries) {
        FileGetResponse::Directory { path, entries } => {
            assert_eq!(path, "/w/d");
            let names: Vec<&str> = entries.iter().map(|e| e.name.as_str()).collect();
            assert_eq!(names, ["B", "a", "b"]);
            assert_eq!(entries[1].kind, "directory");
            assert_eq!(entries[0].kind, "symlink");
        }
        other => panic!("{other:?}"),
    }
}

#[test]
fn sizes_and_flags() {
    assert!(check_size("file", 10, 10).is_ok());
    let e = check_size("file", 11, 10).unwrap_err();
    assert_eq!(e.status(), 413);
    assert_eq!(e.message(), "file is 11 bytes; max is 10");
    assert!(recursive_flag(Some("TRUE")));
    assert!(recursive_flag(Some("1")));
    assert!(!recursive_flag(Some("no")));
    assert!(!recursive_flag(None));
}

#[test]
fn text_written_as_utf8_reads_back_unchanged() {
    for (text, enc) in [("héllo wörld ✓", "utf8"), ("line one\nline two", "TEXT"), ("", "utf8")] {
        let bytes = decode_put_content(text.to_string(), enc).unwrap();
        let (got_enc, got) = encode_content(bytes, enc).unwrap();
        assert_eq!(got_enc, "utf8");
        assert_eq!(got, text);
    }
}

#[test]
fn job_status_hands_back_the_stored_result_whole() {
    let stored = ExecResponse {
        stdout: "out".into(),
        stderr: "err".into(),
        exit_code: Some(3),
        timed_out: true,
        duration_ms: 1234,
        truncated: true,
        output_complete: false,
        cwd: "/workspace/sub".into(),
        exec_id: "exec-9".into(),
        detached: true,
        status: Some("done"),
    };
    let mut table = JobTable::new();
    table.insert("exec-9".into(), job_finished("exec-9".into(), Ok(stored)));
    let st = job_status(table.get("exec-9"), "exec-9".into()).unwrap();
    assert_eq!((st.stdout.as_str(), st.stderr.as_str()), ("out", "err"));
    assert_eq!(st.exit_code, Some(3));
    assert!(st.timed_out);
    assert_eq!(st.duration_ms, 1234);
    assert!(st.truncated);
    assert!(!st.output_complete);
    assert_eq!(st.cwd, "/workspace/sub");
    assert_eq!(st.exec_id, "exec-9");
    assert!(st.detached);
    assert_eq!(st.status, Some("done"));
}

#[test]
fn job_status_of_a_running_job_is_an_empty_placeholder() {
    let mut table = JobTable::new();
    table.insert("exec-5".into(), job_running());
    let st = job_status(table.get("exec-5"), "exec-5".into()).unwrap();
    assert_eq!(st.exec_id, "exec-5");
    assert!(st.detached);
    assert_eq!(st.status, Some("running"));
    assert_eq!(st.exit_code, None);
    assert!(st.stdout.is_empty() && st.stderr.is_empty() && st.cwd.is_empty());
    assert!(!st.timed_out && !st.truncated && !st.output_complete);
    assert_eq!(st.duration_ms, 0);
}
