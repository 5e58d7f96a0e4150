//! Client URL checks and the relay host list given on the command line.
use vstd::prelude::*;

use crate::common::config::{insecure, nonempty_value, validate_token, weak_token_text, ConfigError};
use crate::egress::allowlist::{parse_list, Allowlist};
use crate::egress::destination::DestinationPolicy;
use crate::text::{
    chars_eq, chars_of, copy_range, extend_chars, extend_str, find, find_class, has_prefix, rfind,
    rfind_class, split, split_class, starts_with, string_of, trim, trim_class, trim_start,
    CharClass,
};

verus! {

/// How the operator's side of the tunnel connects.
#[derive(Clone, Debug)]
pub struct TunnelClientConfig {
    pub url: String,
    pub bearer: String,
    pub allowlist: Allowlist,
    /// Resolved-address and port policy applied before each dial.
    pub destination: DestinationPolicy,
    pub reconnect: bool,
}

/// The client URL, trimmed; it must be `ws://` or `wss://`.
pub fn check_client_url(url: &str) -> (r: Result<String, ConfigError>)
    ensures
        ({
            let t = trim(url@, CharClass::Whitespace);
            if has_prefix(t, "ws://"@) || has_prefix(t, "wss://"@) {
                r is Ok && r->Ok_0@ == t
            } else {
                r matches Err(ConfigError(m)) && m@ == "client URL must start with ws:// or wss://"@
            }
        }),
{
    let t = trim_class(chars_of(url).as_slice(), CharClass::Whitespace);
    if starts_with(t.as_slice(), chars_of("ws://").as_slice()) || starts_with(
        t.as_slice(),
        chars_of("wss://").as_slice(),
    ) {
        Ok(string_of(t.as_slice()))
    } else {
        Err(ConfigError("client URL must start with ws:// or wss://".to_owned()))
    }
}

/// The host a WebSocket URL names: after the scheme, before the first `/`,
/// after the last `@`; a bracketed IPv6 host up to `]`, else up to `:`.
pub open spec fn url_host(url: Seq<char>) -> Seq<char> {
    let rest = if has_prefix(url, "ws://"@) {
        url.skip(5)
    } else if has_prefix(url, "wss://"@) {
        url.skip(6)
    } else {
        url
    };
    let hostport = split(rest, CharClass::Is('/'))[0];
    let at = rfind(hostport, CharClass::Is('@'));
    let host = if at >= 0 {
        hostport.skip(at + 1)
    } else {
        hostport
    };
    if host.len() > 0 && host[0] == '[' {
        trim_start(split(host, CharClass::Is(']'))[0], CharClass::Is('['))
    } else {
        split(host, CharClass::Is(':'))[0]
    }
}

pub open spec fn loopback_name(h: Seq<char>) -> bool {
    h == "127.0.0.1"@ || h == "localhost"@ || h == "::1"@ || h == "ip6-localhost"@ || h
        == "ip6-loopback"@
}

fn first_piece(s: &[char], c: char) -> (r: Vec<char>)
    ensures
        r@ == split(s@, CharClass::Is(c))[0],
{
    let parts = split_class(s, CharClass::Is(c));
    proof {
        crate::text::lemma_split_nonempty(s@, CharClass::Is(c));
    }
    assert(parts.deep_view()[0] == parts@[0]@);
    let p = copy_range(parts[0].as_slice(), 0, parts[0].len());
    assert(p@ =~= parts@[0]@);
    p
}

/// The URL points at this machine.
pub fn url_is_loopback(url: &str) -> (b: bool)
    ensures
        b == loopback_name(url_host(url@)),
{
    let u = chars_of(url);
    let rest = if starts_with(u.as_slice(), chars_of("ws://").as_slice()) {
        proof {
            reveal_strlit("ws://");
        }
        copy_range(u.as_slice(), 5, u.len())
    } else if starts_with(u.as_slice(), chars_of("wss://").as_slice()) {
        proof {
            reveal_strlit("wss://");
        }
        copy_range(u.as_slice(), 6, u.len())
    } else {
        copy_range(u.as_slice(), 0, u.len())
    };
    proof {
        reveal_strlit("ws://");
        reveal_strlit("wss://");
        assert(u@.subrange(0, u@.len() as int) =~= u@);
        assert(u@.len() >= 5 ==> u@.subrange(5, u@.len() as int) =~= u@.skip(5));
        assert(u@.len() >= 6 ==> u@.subrange(6, u@.len() as int) =~= u@.skip(6));
    }
    let hostport = first_piece(rest.as_slice(), '/');
    let host = match rfind_class(hostport.as_slice(), CharClass::Is('@')) {
        Some(i) => copy_range(hostport.as_slice(), i + 1, hostport.len()),
        None => copy_range(hostport.as_slice(), 0, hostport.len()),
    };
    proof {
        assert(hostport@.subrange(0, hostport@.len() as int) =~= hostport@);
        let at = rfind(hostport@, CharClass::Is('@'));
        if at >= 0 {
            assert(hostport@.subrange(at + 1, hostport@.len() as int) =~= hostport@.skip(at + 1));
        }
    }
    let h = if host.len() > 0 && host[0] == '[' {
        let inner = first_piece(host.as_slice(), ']');
        let mut k: usize = 0;
        while k < inner.len() && inner[k] == '['
            invariant
                k <= inner@.len(),
                forall|j: int| 0 <= j < k ==> crate::text::in_class(
                    CharClass::Is('['),
                    #[trigger] inner@[j],
                ),
            decreases inner@.len() - k,
        {
            k = k + 1;
        }
        proof {
            crate::text::lemma_trim_start_at(inner@, CharClass::Is('['), k as int);
            assert(inner@.subrange(k as int, inner@.len() as int) =~= inner@.skip(k as int));
        }
        copy_range(inner.as_slice(), k, inner.len())
    } else {
        first_piece(host.as_slice(), ':')
    };
    chars_eq(h.as_slice(), chars_of("127.0.0.1").as_slice()) || chars_eq(
        h.as_slice(),
        chars_of("localhost").as_slice(),
    ) || chars_eq(h.as_slice(), chars_of("::1").as_slice()) || chars_eq(
        h.as_slice(),
        chars_of("ip6-localhost").as_slice(),
    ) || chars_eq(h.as_slice(), chars_of("ip6-loopback").as_slice())
}

/// The list text: the comma-separated value, then each extra host, joined
/// with commas.
pub open spec fn merged(csv: Seq<char>, extra: Seq<Seq<char>>) -> Seq<char>
    decreases extra.len(),
{
    if extra.len() == 0 {
        csv
    } else {
        let m = merged(csv, extra.drop_last());
        if m.len() == 0 {
            extra.last()
        } else {
            m + seq![','] + extra.last()
        }
    }
}

/// The relay allowlist from `--relay-hosts` and each `--allow-host`.
pub fn merge_allowlist(csv: Option<String>, extra: Vec<String>) -> (a: Allowlist)
    ensures
        a@ == parse_list(
            merged(
                match csv {
                    Some(c) => c@,
                    None => Seq::empty(),
                },
                extra@.map_values(|s: String| s@),
            ),
        ),
{
    let ghost c0 = match &csv {
        Some(c) => c@,
        None => Seq::<char>::empty(),
    };
    let ghost ex = extra@.map_values(|s: String| s@);
    let mut raw: Vec<char> = match &csv {
        Some(c) => chars_of(c.as_str()),
        None => Vec::new(),
    };
    let mut i: usize = 0;
    assert(ex.take(0) =~= Seq::<Seq<char>>::empty());
    while i < extra.len()
        invariant
            i <= extra@.len(),
            ex == extra@.map_values(|s: String| s@),
            raw@ == merged(c0, ex.take(i as int)),
        decreases extra@.len() - i,
    {
        assert(ex.take(i + 1).drop_last() =~= ex.take(i as int));
        assert(ex.take(i + 1).last() == extra@[i as int]@);
        let h = chars_of(extra[i].as_str());
        if raw.len() == 0 {
            raw = h;
        } else {
            raw.push(',');
            extend_chars(&mut raw, h.as_slice());
        }
        i = i + 1;
    }
    assert(ex.take(extra@.len() as int) =~= ex);
    let text = string_of(raw.as_slice());
    Allowlist::parse(text.as_str())
}

/// The name under which the tunnel bearer is configured.
pub const BEARER_NAME: &'static str = "BOX_EGRESS_TUNNEL_BEARER";

/// The refusal when no client URL is configured.
pub open spec fn missing_url_text() -> Seq<char> {
    "BOX_EGRESS_CLIENT_URL must be a ws:// or wss:// URL"@
}

/// The refusal when no bearer is configured.
pub open spec fn missing_bearer_text() -> Seq<char> {
    "BOX_EGRESS_TUNNEL_BEARER must be set and non-empty, or BOX_EGRESS_TUNNEL_BEARER_FILE must point at a file containing it"@
}

/// What a client configuration built from its parts is: the bearer must be
/// strong unless the insecure-dev opt-in and a loopback URL allow a weak
/// one; then the URL must be `ws://` or `wss://`, and is kept trimmed.
pub open spec fn client_parts_ok(
    url: Seq<char>,
    bearer: Seq<char>,
    ws_is_loopback: bool,
    allow_insecure_dev: bool,
) -> Result<Seq<char>, Seq<char>> {
    if insecure(bearer) && !(allow_insecure_dev && ws_is_loopback) {
        Err(weak_token_text(BEARER_NAME@))
    } else {
        let t = trim(url, CharClass::Whitespace);
        if has_prefix(t, "ws://"@) || has_prefix(t, "wss://"@) {
            Ok(t)
        } else {
            Err("client URL must start with ws:// or wss://"@)
        }
    }
}

impl TunnelClientConfig {
    /// A client configuration from its parts; `destination` is the policy
    /// read from the environment.
    pub fn from_parts(
        url: String,
        bearer: String,
        allowlist: Allowlist,
        reconnect: bool,
        ws_is_loopback: bool,
        allow_insecure_dev: bool,
        destination: DestinationPolicy,
    ) -> (r: Result<Self, ConfigError>)
        ensures
            match client_parts_ok(url@, bearer@, ws_is_loopback, allow_insecure_dev) {
                Ok(u) => (r matches Ok(c) && c.url@ == u && c.bearer == bearer && c.allowlist
                    == allowlist && c.reconnect == reconnect && c.destination == destination),
                Err(m) => r matches Err(ConfigError(e)) && e@ == m,
            },
    {
        proof {
            reveal_strlit("BOX_EGRESS_TUNNEL_BEARER");
        }
        if let Err(e) = validate_token(BEARER_NAME, bearer.as_str(), allow_insecure_dev, ws_is_loopback) {
            return Err(e);
        }
        let url = check_client_url(url.as_str())?;
        Ok(TunnelClientConfig { url, bearer, allowlist, destination, reconnect })
    }

    /// A client configuration from the raw settings: the URL and the bearer
    /// (each absent when blank), the relay host list, whether to reconnect,
    /// the insecure-dev opt-in and the destination policy.
    pub fn from_settings(
        url: Option<String>,
        bearer: Option<String>,
        relay_hosts: Option<String>,
        reconnect: bool,
        allow_insecure_dev: bool,
        destination: DestinationPolicy,
    ) -> (r: Result<Self, ConfigError>)
        ensures
            match (url, bearer) {
                (None, _) => (r matches Err(ConfigError(e)) && e@ == missing_url_text()),
                (Some(_), None) => (r matches Err(ConfigError(e)) && e@ == missing_bearer_text()),
                (Some(u), Some(b)) => match client_parts_ok(
                    u@,
                    b@,
                    loopback_name(url_host(u@)),
                    allow_insecure_dev,
                ) {
                    Ok(t) => (r matches Ok(c) && c.url@ == t && c.bearer == b && c.allowlist@
                        == parse_list(
                        match relay_hosts {
                            Some(h) => h@,
                            None => Seq::empty(),
                        },
                    ) && c.reconnect == reconnect && c.destination == destination),
                    Err(m) => (r matches Err(ConfigError(e)) && e@ == m),
                },
            },
    {
        let url = match url {
            Some(u) => u,
            None => {
                return Err(ConfigError("BOX_EGRESS_CLIENT_URL must be a ws:// or wss:// URL".to_owned()));
            },
        };
        let bearer = match bearer {
            Some(b) => b,
            None => {
                return Err(
                    ConfigError(
                        "BOX_EGRESS_TUNNEL_BEARER must be set and non-empty, or BOX_EGRESS_TUNNEL_BEARER_FILE must point at a file containing it".to_owned(),
                    ),
                );
            },
        };
        let allowlist = match relay_hosts {
            Some(h) => Allowlist::parse(h.as_str()),
            None => Allowlist::parse(""),
        };
        proof {
            reveal_strlit("");
            assert(""@ =~= Seq::<char>::empty());
        }
        let loopback = url_is_loopback(url.as_str());
        Self::from_parts(url, bearer, allowlist, reconnect, loopback, allow_insecure_dev, destination)
    }
}

} // verus!
