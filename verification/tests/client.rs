use grok_box::client::{http_error, Error};

#[test]
fn http_errors_take_the_envelope_message() {
    let text = r#"{"error":{"code":"not_found","message":"exec id not found","status":404}}"#;
    match Error::from_status(404, text) {
        Error::Http { status, message, body } => {
            assert_eq!(status, 404);
            assert_eq!(message, "exec id not found");
            assert_eq!(body, text);
        }
        other => panic!("unexpected {other:?}"),
    }
}

#[test]
fn http_errors_without_an_envelope_report_the_text() {
    for text in ["gateway exploded", "{\"error\":\"flat\"}", "{\"error\":{\"message\":7}}", ""] {
        match Error::from_status(502, text) {
            Error::Http { status, message, .. } => {
                assert_eq!(status, 502);
                assert_eq!(message, text);
            }
            other => panic!("unexpected {other:?}"),
        }
    }
}

#[test]
fn http_error_uses_the_message_found() {
    match http_error(500, "raw", Some("boom".into())) {
        Error::Http { message, body, .. } => {
            assert_eq!(message, "boom");
            assert_eq!(body, "raw");
        }
        other => panic!("unexpected {other:?}"),
    }
    match http_error(500, "raw", None) {
        Error::Http { message, .. } => assert_eq!(message, "raw"),
        other => panic!("unexpected {other:?}"),
    }
}

#[test]
fn errors_display_as_the_client_shows_them() {
    assert_eq!(Error::from_status(401, r#"{"error":{"message":"missing or invalid bearer token"}}"#).display_text(),
        "HTTP 401: missing or invalid bearer token");
    assert_eq!(Error::Connect("connection refused".into()).display_text(), "connection refused");
    assert_eq!(Error::Transport("reset".into()).display_text(), "reset");
}
