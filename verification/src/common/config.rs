//! Bearer-token strength, boolean flags, and the box id.
use vstd::prelude::*;

use crate::cua::recipe::{utf8_len, utf8_len_upto};
use crate::net::{ip_is_loopback, is_loopback, SocketAddr};
use crate::num::{parse_u64, parse_unsigned};
use crate::text::{chars_eq, chars_of, eq_nocase, lower, lower_all, trim, trim_class, CharClass};

verus! {

/// Shortest accepted token, in bytes, unless insecure dev mode applies.
pub const MIN_TOKEN_LEN: usize = 16;

/// The well-known token of the local demo.
pub const DEV_BOX_TOKEN: &'static str = "dev-box-token";

/// A configuration problem, with its message.
#[derive(Debug, Clone)]
pub struct ConfigError(pub String);

/// Empty, shorter than 16 bytes, or the demo token.
pub open spec fn insecure(token: Seq<char>) -> bool {
    token.len() == 0 || utf8_len(token) < MIN_TOKEN_LEN || token == DEV_BOX_TOKEN@
}

pub fn token_is_insecure(token: &str) -> (b: bool)
    ensures
        b == insecure(token@),
{
    let t = chars_of(token);
    if t.len() == 0 {
        return true;
    }
    match utf8_len_upto(t.as_slice(), MIN_TOKEN_LEN - 1) {
        Some(_) => {
            return true;
        },
        None => {},
    }
    let dev = chars_of(DEV_BOX_TOKEN);
    chars_eq(t.as_slice(), dev.as_slice())
}

/// Both daemon binds are loopback addresses.
pub fn binds_are_loopback(exec_bind: SocketAddr, host_bind: SocketAddr) -> (b: bool)
    ensures
        b == (is_loopback(exec_bind.ip) && is_loopback(host_bind.ip)),
{
    ip_is_loopback(exec_bind.ip) && ip_is_loopback(host_bind.ip)
}

/// The message refusing an insecure token named `name`.
pub open spec fn weak_token_text(name: Seq<char>) -> Seq<char> {
    name
        + " is missing, shorter than 16 characters, or a well-known insecure value (dev-box-token). Set a long random token, or BOX_ALLOW_INSECURE_DEV=1 with loopback BOX_EXEC_BIND and BOX_HOST_BIND for local demos."@
}

/// An insecure token is accepted only with the insecure-dev opt-in and
/// both binds on loopback.
pub fn validate_token(name: &str, token: &str, allow_insecure_dev: bool, loopback: bool) -> (r:
    Result<(), ConfigError>)
    ensures
        !insecure(token@) ==> r is Ok,
        insecure(token@) && allow_insecure_dev && loopback ==> r is Ok,
        insecure(token@) && !(allow_insecure_dev && loopback) ==> (r matches Err(ConfigError(m))
            && m@ == weak_token_text(name@)),
{
    if !token_is_insecure(token) {
        return Ok(());
    }
    if allow_insecure_dev && loopback {
        return Ok(());
    }
    let mut v = chars_of(name);
    crate::text::extend_str(
        &mut v,
        " is missing, shorter than 16 characters, or a well-known insecure value (dev-box-token). Set a long random token, or BOX_ALLOW_INSECURE_DEV=1 with loopback BOX_EXEC_BIND and BOX_HOST_BIND for local demos.",
    );
    Err(ConfigError(crate::text::string_of(v.as_slice())))
}

/// A flag's value: unset or blank keeps `default`; `0`, `false`, `off`,
/// `no` (any case, trimmed) is false; anything else is true.
pub open spec fn flag(raw: Seq<char>, default: bool) -> bool {
    let v = lower(trim(raw, CharClass::Whitespace));
    if v.len() == 0 {
        default
    } else {
        !(v == "0"@ || v == "false"@ || v == "off"@ || v == "no"@)
    }
}

pub fn parse_bool(raw: &str, default: bool) -> (b: bool)
    ensures
        b == flag(raw@, default),
{
    let t = trim_class(chars_of(raw).as_slice(), CharClass::Whitespace);
    let v = lower_all(t.as_slice());
    if v.len() == 0 {
        return default;
    }
    let falsy = chars_eq(v.as_slice(), chars_of("0").as_slice()) || chars_eq(
        v.as_slice(),
        chars_of("false").as_slice(),
    ) || chars_eq(v.as_slice(), chars_of("off").as_slice()) || chars_eq(
        v.as_slice(),
        chars_of("no").as_slice(),
    );
    !falsy
}

/// `env_bool` once the variable is read: unset keeps `default`.
pub fn flag_value(raw: Option<&str>, default: bool) -> (b: bool)
    ensures
        b == match raw {
            Some(r) => flag(r@, default),
            None => default,
        },
{
    match raw {
        Some(r) => parse_bool(r, default),
        None => default,
    }
}

/// `env_nonempty` once the variable is read: trimmed, and absent if blank.
pub fn nonempty_value(raw: Option<&str>) -> (r: Option<String>)
    ensures
        match raw {
            Some(s) => if trim(s@, CharClass::Whitespace).len() > 0 {
                r is Some && r->Some_0@ == trim(s@, CharClass::Whitespace)
            } else {
                r is None
            },
            None => r is None,
        },
{
    match raw {
        None => None,
        Some(s) => {
            let t = trim_class(chars_of(s).as_slice(), CharClass::Whitespace);
            if t.len() == 0 {
                None
            } else {
                Some(crate::text::string_of(t.as_slice()))
            }
        },
    }
}

/// A numeric setting: the variable parsed as `u64`, or `default` when it is
/// unset or not a number.
pub fn u64_setting(raw: Option<&str>, default: u64) -> (v: u64)
    ensures
        v == match raw {
            Some(s) => match parse_unsigned(s@, u64::MAX as int) {
                Some(n) => n as u64,
                None => default,
            },
            None => default,
        },
{
    match raw {
        None => default,
        Some(s) => match parse_u64(chars_of(s).as_slice()) {
            Some(n) => n,
            None => default,
        },
    }
}

/// The box id: the first of `BOX_ID`, `HOSTNAME` and `/etc/hostname`
/// (trimmed) that exists, unless it is empty; then `grok-box`.
pub fn default_box_id(box_id: Option<String>, hostname: Option<String>, etc_hostname: Option<
    String,
>) -> (id: String)
    ensures
        ({
            let first = match box_id {
                Some(v) => Some(v@),
                None => match hostname {
                    Some(v) => Some(v@),
                    None => match etc_hostname {
                        Some(v) => Some(trim(v@, CharClass::Whitespace)),
                        None => None,
                    },
                },
            };
            match first {
                Some(v) => if v.len() > 0 {
                    id@ == v
                } else {
                    id@ == "grok-box"@
                },
                None => id@ == "grok-box"@,
            }
        }),
{
    let first: Option<String> = match box_id {
        Some(v) => Some(v),
        None => match hostname {
            Some(v) => Some(v),
            None => match etc_hostname {
                Some(v) => Some(
                    crate::text::string_of(
                        trim_class(chars_of(v.as_str()).as_slice(), CharClass::Whitespace).as_slice(),
                    ),
                ),
                None => None,
            },
        },
    };
    match first {
        Some(v) => {
            if v.as_str().is_empty() {
                "grok-box".to_owned()
            } else {
                v
            }
        },
        None => "grok-box".to_owned(),
    }
}

} // verus!

verus! {

/// What the environment gave for the daemons' configuration, each value
/// already read: tokens from their file or variable (trimmed, absent when
/// blank), binds parsed with their defaults applied, numeric settings as
/// the raw text of their variables.
pub struct ConfigSettings {
    pub token: Option<String>,
    pub host_token: Option<String>,
    pub exec_bind: SocketAddr,
    pub host_bind: SocketAddr,
    pub allow_insecure_dev: bool,
    pub box_id: String,
    pub workspace: String,
    pub exec_url: Option<String>,
    pub max_file_bytes: Option<String>,
    pub default_timeout_ms: Option<String>,
    pub max_timeout_ms: Option<String>,
    pub max_output_bytes: Option<String>,
    pub max_concurrent_execs: Option<String>,
    pub max_dir_entries: Option<String>,
    pub kill_grace_ms: Option<String>,
}

/// Process-wide configuration shared by `box-exec` and `box-host`.
#[derive(Clone, Debug)]
pub struct BoxConfig {
    pub box_id: String,
    pub token: String,
    pub host_token: String,
    pub workspace: String,
    pub exec_bind: SocketAddr,
    pub host_bind: SocketAddr,
    pub exec_url: String,
    pub max_file_bytes: u64,
    pub default_timeout_ms: u64,
    pub max_timeout_ms: u64,
    pub max_output_bytes: usize,
    /// Most children `POST /v1/exec` runs at once.
    pub max_concurrent_execs: usize,
    /// Most entries a directory listing returns.
    pub max_dir_entries: usize,
    /// After a timeout, how long to wait after SIGTERM before SIGKILL.
    pub kill_grace_ms: u64,
}

/// A numeric setting read from its raw text, or `default`.
pub open spec fn setting(raw: Option<String>, default: u64) -> u64 {
    match raw {
        Some(s) => match parse_unsigned(s@, u64::MAX as int) {
            Some(n) => n as u64,
            None => default,
        },
        None => default,
    }
}

/// `v` held within `lo..=hi`.
pub open spec fn clamp_u64(v: u64, lo: u64, hi: u64) -> u64 {
    if v < lo {
        lo
    } else if v > hi {
        hi
    } else {
        v
    }
}

/// The message when no box token was given.
pub open spec fn missing_token_text() -> Seq<char> {
    "BOX_TOKEN must be set and non-empty, or BOX_TOKEN_FILE must point at a file containing it"@
}

fn raw_setting(raw: &Option<String>, default: u64) -> (v: u64)
    ensures
        v == setting(*raw, default),
{
    match raw {
        Some(s) => u64_setting(Some(s.as_str()), default),
        None => default,
    }
}

fn clamp_setting(v: u64, lo: u64, hi: u64) -> (r: u64)
    ensures
        r == clamp_u64(v, lo, hi),
{
    if v < lo {
        lo
    } else if v > hi {
        hi
    } else {
        v
    }
}

impl BoxConfig {
    /// The configuration the settings describe. The box token is required;
    /// the host token defaults to it. Each token that is empty, short or the
    /// demo token is refused unless the insecure-dev opt-in is set and both
    /// binds are loopback (the host token is checked only when it differs).
    /// Numeric settings fall back to their defaults, and the exec limit, the
    /// listing limit and the kill grace are held within their ranges.
    pub fn from_settings(s: ConfigSettings) -> (r: Result<BoxConfig, ConfigError>)
        ensures
            s.token is None ==> (r matches Err(ConfigError(m)) && m@ == missing_token_text()),
            s.token matches Some(t) ==> {
                let ht = match s.host_token {
                    Some(h) => h@,
                    None => t@,
                };
                let open = s.allow_insecure_dev && is_loopback(s.exec_bind.ip) && is_loopback(
                    s.host_bind.ip,
                );
                &&& insecure(t@) && !open ==> (r matches Err(ConfigError(m)) && m@
                    == weak_token_text("BOX_TOKEN"@))
                &&& !(insecure(t@) && !open) && ht != t@ && insecure(ht) && !open ==> (r matches Err(
                    ConfigError(m),
                ) && m@ == weak_token_text("BOX_HOST_TOKEN"@))
                &&& !(insecure(t@) && !open) && !(ht != t@ && insecure(ht) && !open) ==> (r matches Ok(
                    c,
                ) && c.token@ == t@ && c.host_token@ == ht && c.box_id == s.box_id
                    && c.workspace == s.workspace && c.exec_bind == s.exec_bind && c.host_bind
                    == s.host_bind && c.exec_url@ == match s.exec_url {
                    Some(u) => u@,
                    None => "http://127.0.0.1:1337"@,
                } && c.max_file_bytes == setting(s.max_file_bytes, 10485760)
                    && c.default_timeout_ms == setting(s.default_timeout_ms, 30000)
                    && c.max_timeout_ms == setting(s.max_timeout_ms, 600000) && c.max_output_bytes
                    == setting(s.max_output_bytes, 8388608) as usize && c.max_concurrent_execs
                    == clamp_u64(setting(s.max_concurrent_execs, 8), 1, 256) as usize
                    && c.max_dir_entries == clamp_u64(setting(s.max_dir_entries, 4096), 1, 100000)
                    as usize && c.kill_grace_ms == clamp_u64(setting(s.kill_grace_ms, 2000), 50, 30000))
            },
    {
        let token = match s.token {
            None => {
                return Err(
                    ConfigError(
                        "BOX_TOKEN must be set and non-empty, or BOX_TOKEN_FILE must point at a file containing it".to_owned(),
                    ),
                );
            },
            Some(t) => t,
        };
        let host_token = match s.host_token {
            Some(h) => h,
            None => token.clone(),
        };
        let loopback = binds_are_loopback(s.exec_bind, s.host_bind);
        validate_token("BOX_TOKEN", token.as_str(), s.allow_insecure_dev, loopback)?;
        let tc = chars_of(token.as_str());
        let hc = chars_of(host_token.as_str());
        if !chars_eq(tc.as_slice(), hc.as_slice()) {
            validate_token("BOX_HOST_TOKEN", host_token.as_str(), s.allow_insecure_dev, loopback)?;
        }
        let exec_url = match s.exec_url {
            Some(u) => u,
            None => "http://127.0.0.1:1337".to_owned(),
        };
        let max_output = raw_setting(&s.max_output_bytes, 8388608);
        let execs = clamp_setting(raw_setting(&s.max_concurrent_execs, 8), 1, 256);
        let entries = clamp_setting(raw_setting(&s.max_dir_entries, 4096), 1, 100000);
        Ok(
            BoxConfig {
                box_id: s.box_id,
                token,
                host_token,
                workspace: s.workspace,
                exec_bind: s.exec_bind,
                host_bind: s.host_bind,
                exec_url,
                max_file_bytes: raw_setting(&s.max_file_bytes, 10485760),
                default_timeout_ms: raw_setting(&s.default_timeout_ms, 30000),
                max_timeout_ms: raw_setting(&s.max_timeout_ms, 600000),
                max_output_bytes: max_output as usize,
                max_concurrent_execs: execs as usize,
                max_dir_entries: entries as usize,
                kill_grace_ms: clamp_setting(raw_setting(&s.kill_grace_ms, 2000), 50, 30000),
            },
        )
    }
}

} // verus!
