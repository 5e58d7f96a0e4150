//! Chromium launch metadata and readiness: CDP on loopback only.
use vstd::prelude::*;

use crate::egress::relay::has_run;
use crate::num::{dec_text, nat_string, parse_bounded, parse_unsigned};
use crate::text::{
    chars_of, contains_run, copy_range, extend_str, has_prefix, lower, lower_all, starts_with,
    string_of, trim, trim_class, CharClass,
};

verus! {

/// Default Chromium `--user-data-dir`.
pub const DEFAULT_PROFILE: &'static str = "/home/box/chrome-profile";

/// CDP is never published; agents inside the box use this loopback port.
pub const DEFAULT_CDP_PORT: u16 = 9222;

/// Where the entrypoint records Chromium's pid.
pub const PID_FILE: &'static str = "/tmp/box-chrome.pid";

#[derive(Debug, Clone)]
pub struct ChromeConfig {
    pub enabled: bool,
    pub profile: String,
    pub cdp_port: u16,
    pub display: String,
}

impl ChromeConfig {
    pub fn disabled() -> (c: Self)
        ensures
            !c.enabled,
            c.profile@ == DEFAULT_PROFILE@,
            c.cdp_port == DEFAULT_CDP_PORT,
            c.display@ == ":1"@,
    {
        ChromeConfig {
            enabled: false,
            profile: DEFAULT_PROFILE.to_owned(),
            cdp_port: DEFAULT_CDP_PORT,
            display: ":1".to_owned(),
        }
    }

    /// The loopback address CDP listens on.
    pub fn cdp_bind(&self) -> (s: String)
        ensures
            s@ == "127.0.0.1:"@ + dec_text(self.cdp_port as nat),
    {
        let mut v: Vec<char> = Vec::new();
        extend_str(&mut v, "127.0.0.1:");
        extend_str(&mut v, nat_string(self.cdp_port as u64).as_str());
        string_of(v.as_slice())
    }
}

#[derive(Debug, Clone)]
pub struct ChromeStatus {
    pub enabled: bool,
    /// CDP answered `/json/version`.
    pub ready: bool,
    /// CDP ready, or the entrypoint pidfile names a live pid.
    pub running: bool,
    pub profile: String,
    pub cdp: Option<String>,
    pub display: String,
}

/// Chromium's status: nothing is probed when it is disabled; otherwise it is
/// ready when CDP answered, and running when ready or its pid is alive.
pub fn probe_chrome(cfg: &ChromeConfig, cdp_ready: bool, pid_alive: bool) -> (st: ChromeStatus)
    ensures
        st.enabled == cfg.enabled,
        st.profile@ == cfg.profile@,
        st.display@ == cfg.display@,
        !cfg.enabled ==> !st.ready && !st.running && st.cdp is None,
        cfg.enabled ==> st.ready == cdp_ready && st.running == (cdp_ready || pid_alive) && (
        st.cdp matches Some(c) && c@ == "127.0.0.1:"@ + dec_text(cfg.cdp_port as nat)),
{
    if !cfg.enabled {
        return ChromeStatus {
            enabled: false,
            ready: false,
            running: false,
            profile: cfg.profile.clone(),
            cdp: None,
            display: cfg.display.clone(),
        };
    }
    ChromeStatus {
        enabled: true,
        ready: cdp_ready,
        running: cdp_ready || pid_alive,
        profile: cfg.profile.clone(),
        cdp: Some(cfg.cdp_bind()),
        display: cfg.display.clone(),
    }
}

/// The pid a pidfile names: its trimmed text as a `u32`.
pub fn pidfile_pid(raw: &str) -> (r: Option<u32>)
    ensures
        match r {
            Some(p) => parse_unsigned(trim(raw@, CharClass::Whitespace), 0xffff_ffff) == Some(
                p as int,
            ),
            None => parse_unsigned(trim(raw@, CharClass::Whitespace), 0xffff_ffff) is None,
        },
{
    let t = trim_class(chars_of(raw).as_slice(), CharClass::Whitespace);
    match parse_bounded(t.as_slice(), 0xffff_ffff) {
        Some(v) => Some(v as u32),
        None => None,
    }
}

pub open spec fn run_at(s: Seq<char>, p: Seq<char>, i: int) -> bool {
    0 <= i && i + p.len() <= s.len() && s.subrange(i, i + p.len()) == p
}

/// Where `p` first occurs in `s`, or `-1`.
pub open spec fn first_at(s: Seq<char>, p: Seq<char>) -> int {
    if exists|i: int| run_at(s, p, i) {
        choose|i: int| run_at(s, p, i) && forall|j: int| 0 <= j < i ==> !run_at(s, p, j)
    } else {
        -1
    }
}

fn find_run(s: &[char], p: &[char]) -> (r: Option<usize>)
    ensures
        match r {
            Some(i) => run_at(s@, p@, i as int) && forall|j: int| 0 <= j < i ==> !run_at(s@, p@, j),
            None => forall|i: int| !run_at(s@, p@, i),
        },
{
    if p.len() > s.len() {
        return None;
    }
    let sl = s.len();
    let mut i: usize = 0;
    while i <= s.len() - p.len()
        invariant
            sl == s@.len(),
            p@.len() <= s@.len(),
            i <= s@.len() - p@.len() + 1,
            forall|j: int| 0 <= j < i ==> !run_at(s@, p@, j),
        decreases s@.len() - p@.len() + 1 - i,
    {
        let mut k: usize = 0;
        let mut same = true;
        while k < p.len()
            invariant
                sl == s@.len(),
                p@.len() <= s@.len(),
                i <= s@.len() - p@.len(),
                k <= p@.len(),
                same == (forall|m: int| 0 <= m < k ==> s@[i + m] == p@[m]),
            decreases p@.len() - k,
        {
            if s[i + k] != p[k] {
                same = false;
            }
            k = k + 1;
        }
        if same {
            assert(s@.subrange(i as int, i + p@.len()) =~= p@);
            return Some(i);
        }
        proof {
            let m = choose|m: int| 0 <= m < p@.len() && s@[i + m] != p@[m];
            assert(s@.subrange(i as int, i + p@.len())[m] != p@[m]);
        }
        i = i + 1;
    }
    proof {
        assert forall|j: int| !run_at(s@, p@, j) by {
            if j > s@.len() - p@.len() {
            }
        }
    }
    None
}

proof fn lemma_first_at(s: Seq<char>, p: Seq<char>, i: int)
    requires
        run_at(s, p, i),
        forall|j: int| 0 <= j < i ==> !run_at(s, p, j),
    ensures
        first_at(s, p) == i,
{
    let k = choose|k: int| run_at(s, p, k) && forall|j: int| 0 <= j < k ==> !run_at(s, p, j);
    if k < i {
        assert(!run_at(s, p, k));
    }
    if k > i {
        assert(!run_at(s, p, i));
    }
}

/// The body of a `200` response to an HTTP/1.0 or 1.1 request: what follows
/// the first blank line (`\r\n\r\n`, or else `\n\n`).
pub open spec fn ok_body(text: Seq<char>) -> Option<Seq<char>> {
    if !(has_prefix(text, "HTTP/1.1 200"@) || has_prefix(text, "HTTP/1.0 200"@)) {
        None
    } else if first_at(text, "\r\n\r\n"@) >= 0 {
        Some(text.skip(first_at(text, "\r\n\r\n"@) + 4))
    } else if first_at(text, "\n\n"@) >= 0 {
        Some(text.skip(first_at(text, "\n\n"@) + 2))
    } else {
        None
    }
}

/// The body of a successful HTTP response, as the CDP and admin probes read
/// it.
pub fn response_body(text: &str) -> (r: Option<String>)
    ensures
        match ok_body(text@) {
            Some(b) => r is Some && r->Some_0@ == b,
            None => r is None,
        },
{
    let t = chars_of(text);
    let tl = t.len();
    let h11 = chars_of("HTTP/1.1 200");
    let h10 = chars_of("HTTP/1.0 200");
    if !(starts_with(t.as_slice(), h11.as_slice()) || starts_with(t.as_slice(), h10.as_slice())) {
        return None;
    }
    let crlf2 = chars_of("\r\n\r\n");
    proof {
        reveal_strlit("\r\n\r\n");
        reveal_strlit("\n\n");
    }
    assert(crlf2@.len() == 4);
    match find_run(t.as_slice(), crlf2.as_slice()) {
        Some(i) => {
            proof {
                lemma_first_at(t@, crlf2@, i as int);
            }
            return Some(string_of(copy_range(t.as_slice(), i + 4, tl).as_slice()));
        },
        None => {
            assert(!(exists|i: int| run_at(t@, crlf2@, i)));
        },
    }
    let lf2 = chars_of("\n\n");
    assert(lf2@.len() == 2);
    match find_run(t.as_slice(), lf2.as_slice()) {
        Some(i) => {
            proof {
                lemma_first_at(t@, lf2@, i as int);
            }
            Some(string_of(copy_range(t.as_slice(), i + 2, tl).as_slice()))
        },
        None => {
            assert(!(exists|i: int| run_at(t@, lf2@, i)));
            None
        },
    }
}

/// A CDP `/json/version` body names a browser.
pub open spec fn cdp_markers(body: Seq<char>) -> bool {
    let l = lower(body);
    contains_run(l, "browser"@) || contains_run(l, "chromium"@) || contains_run(l, "chrome"@)
        || contains_run(l, "web-socket"@) || contains_run(l, "websocket"@) || contains_run(
        l,
        "protocol-version"@,
    )
}

/// CDP is ready when `GET /json/version` on loopback got a `200` whose body
/// names a browser; `response` is the raw answer, `None` when nothing
/// answered. Something else bound to the port does not count.
pub fn cdp_version_ok(response: Option<&str>) -> (b: bool)
    ensures
        b == match response {
            Some(t) => match ok_body(t@) {
                Some(body) => cdp_markers(body),
                None => false,
            },
            None => false,
        },
{
    let text = match response {
        Some(t) => t,
        None => {
            return false;
        },
    };
    let body = match response_body(text) {
        Some(b) => b,
        None => {
            return false;
        },
    };
    let l = lower_all(chars_of(body.as_str()).as_slice());
    has_run(l.as_slice(), chars_of("browser").as_slice()) || has_run(
        l.as_slice(),
        chars_of("chromium").as_slice(),
    ) || has_run(l.as_slice(), chars_of("chrome").as_slice()) || has_run(
        l.as_slice(),
        chars_of("web-socket").as_slice(),
    ) || has_run(l.as_slice(), chars_of("websocket").as_slice()) || has_run(
        l.as_slice(),
        chars_of("protocol-version").as_slice(),
    )
}

} // verus!
