use grok_box::chrome::{cdp_version_ok, pidfile_pid, probe_chrome, response_body, ChromeConfig};

#[test]
fn disabled_is_not_running() {
    let st = probe_chrome(&ChromeConfig::disabled(), false, false);
    assert!(!st.enabled);
    assert!(!st.running);
    assert!(!st.ready);
    assert!(st.cdp.is_none());
}

#[test]
fn cdp_is_loopback_only() {
    let cfg = ChromeConfig::disabled();
    assert!(cfg.cdp_bind().starts_with("127.0.0.1:"));
}

#[test]
fn closed_port_is_not_cdp_ready() {
    // Nothing answered on the port.
    assert!(!cdp_version_ok(None));
}

#[test]
fn disabled_chrome_is_not_running_even_with_a_live_pid() {
    let st = probe_chrome(&ChromeConfig::disabled(), true, true);
    assert!(!st.enabled);
    assert!(!st.running);
    assert!(!st.ready);
}

#[test]
fn enabled_chrome_reports_cdp_only_when_ready() {
    let mut cfg = ChromeConfig::disabled();
    cfg.enabled = true;
    let up = probe_chrome(&cfg, true, true);
    assert!(up.enabled && up.running && up.ready);
    assert_eq!(up.cdp.as_deref(), Some(cfg.cdp_bind().as_str()));
    let starting = probe_chrome(&cfg, false, true);
    assert!(starting.running);
    assert!(!starting.ready);
}

#[test]
fn cdp_version_needs_a_browser_answer() {
    let good = "HTTP/1.1 200 OK\r\nContent-Type: application/json\r\n\r\n{\"Browser\":\"Chrome/120\",\"Protocol-Version\":\"1.3\"}";
    assert!(cdp_version_ok(Some(good)));
    let other = "HTTP/1.1 200 OK\r\n\r\n<html>hello</html>";
    assert!(!cdp_version_ok(Some(other)));
    let refused = "HTTP/1.1 404 Not Found\r\n\r\n{\"Browser\":\"x\"}";
    assert!(!cdp_version_ok(Some(refused)));
}

#[test]
fn response_body_follows_the_blank_line() {
    assert_eq!(
        response_body("HTTP/1.1 200 OK\r\nA: b\r\n\r\nbody text").as_deref(),
        Some("body text")
    );
}

#[test]
fn pidfile_reads_a_trimmed_number() {
    assert_eq!(pidfile_pid(" 1234\n"), Some(1234));
    assert_eq!(pidfile_pid("abc"), None);
    assert_eq!(pidfile_pid(""), None);
}
