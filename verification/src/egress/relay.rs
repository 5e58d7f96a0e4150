//! The decisions around one tunnel connection and one proxied request: when
//! a silent client is dropped, what a refused request is answered, and the
//! replies of the loopback admin port.
use vstd::prelude::*;

use crate::egress::allowlist::{list_allows, Allowlist};
use crate::egress::http1::ProxyRequest;
use crate::egress::protocol::{ControlMsg, PROTOCOL_NAME, WIRE_VERSION};
use crate::num::{dec_text, nat_string};
use crate::text::{
    chars_eq, chars_of, contains_run, extend_chars, extend_str, lower, lower_all, split,
    split_class, starts_with, string_of, trim, trim_class, CharClass,
};

verus! {

/// Silent keepalive intervals tolerated before a session is dropped.
pub const KEEPALIVE_MISSES: u8 = 2;

/// What to do when the keepalive interval elapses.
#[derive(Debug, Clone, Copy, PartialEq, Eq, Structural)]
pub enum Tick {
    /// Send a ping and keep waiting.
    Ping,
    /// The client has been silent too long: drop the session.
    Drop,
}

/// Counts keepalive intervals that passed without a frame from the client.
pub struct Keepalive {
    silent: u8,
}

impl Keepalive {
    pub closed spec fn silent_ticks(&self) -> nat {
        self.silent as nat
    }

    pub fn new() -> (k: Self)
        ensures
            k.silent_ticks() == 0,
    {
        Keepalive { silent: 0 }
    }

    /// Any frame at all is proof of life.
    pub fn on_frame(&mut self)
        ensures
            final(self).silent_ticks() == 0,
    {
        self.silent = 0;
    }

    /// The interval elapsed: ping while fewer than `KEEPALIVE_MISSES`
    /// intervals were silent, else drop.
    pub fn on_tick(&mut self) -> (t: Tick)
        requires
            old(self).silent_ticks() <= KEEPALIVE_MISSES,
        ensures
            old(self).silent_ticks() >= KEEPALIVE_MISSES ==> t == Tick::Drop
                && final(self).silent_ticks() == old(self).silent_ticks(),
            old(self).silent_ticks() < KEEPALIVE_MISSES ==> t == Tick::Ping
                && final(self).silent_ticks() == old(self).silent_ticks() + 1,
            final(self).silent_ticks() <= KEEPALIVE_MISSES,
    {
        if self.silent >= KEEPALIVE_MISSES {
            return Tick::Drop;
        }
        self.silent = self.silent + 1;
        Tick::Ping
    }
}

/// A plain-text HTTP answer to a proxy client.
#[derive(Debug, Clone)]
pub struct Reply {
    pub status: u16,
    pub reason: &'static str,
    pub body: String,
}

pub open spec fn is_reply(r: Reply, status: u16, reason: Seq<char>, body: Seq<char>) -> bool {
    r.status == status && r.reason@ == reason && r.body@ == body
}

/// Answer to a head that could not be read or parsed.
pub fn bad_request() -> (r: Reply)
    ensures
        is_reply(r, 400, "Bad Request"@, "bad request\n"@),
{
    Reply { status: 400, reason: "Bad Request", body: "bad request\n".to_owned() }
}

/// Answer when no client is attached, or the session has no room.
pub fn no_client() -> (r: Reply)
    ensures
        is_reply(r, 503, "Service Unavailable"@, "box-egress-tunnel: no client attached\n"@),
{
    Reply {
        status: 503,
        reason: "Service Unavailable",
        body: "box-egress-tunnel: no client attached\n".to_owned(),
    }
}

/// Whether a parsed request may be relayed: `None` when it may, else the
/// answer. A head that did not parse is a bad request; a host outside the
/// allowlist is forbidden whatever the method; and only `CONNECT` is
/// relayed, so an absolute-form request to an allowed host is refused even
/// with a client attached.
pub fn admit_request(parsed: &Option<ProxyRequest>, allowlist: &Allowlist) -> (r: Option<Reply>)
    ensures
        match parsed {
            None => r matches Some(rep) && is_reply(rep, 400, "Bad Request"@, "bad request\n"@),
            Some(req) => if !list_allows(allowlist@, req.host@) {
                r matches Some(rep) && is_reply(rep, 403, "Forbidden"@, "host not allowed\n"@)
            } else if !req.connect {
                r matches Some(rep) && is_reply(
                    rep,
                    405,
                    "Method Not Allowed"@,
                    "only CONNECT is relayed\n"@,
                )
            } else {
                r is None
            },
        },
{
    match parsed {
        None => Some(bad_request()),
        Some(req) => {
            if !allowlist.allows(req.host.as_str()) {
                Some(
                    Reply {
                        status: 403,
                        reason: "Forbidden",
                        body: "host not allowed\n".to_owned(),
                    },
                )
            } else if !req.connect {
                Some(
                    Reply {
                        status: 405,
                        reason: "Method Not Allowed",
                        body: "only CONNECT is relayed\n".to_owned(),
                    },
                )
            } else {
                None
            }
        },
    }
}

/// How the client answered an `open`.
pub enum OpenOutcome {
    Opened,
    /// The client sent `error` with this message.
    Refused(String),
    /// No answer in time, or the waiter was dropped.
    TimedOut,
}

/// The answer to the proxy client once the tunnel's `open` settled; `None`
/// when the stream opened and relaying starts.
pub fn open_reply(o: &OpenOutcome) -> (r: Option<Reply>)
    ensures
        match o {
            OpenOutcome::Opened => r is None,
            OpenOutcome::Refused(m) => r matches Some(rep) && is_reply(
                rep,
                502,
                "Bad Gateway"@,
                m@ + "\n"@,
            ),
            OpenOutcome::TimedOut => r matches Some(rep) && is_reply(
                rep,
                504,
                "Gateway Timeout"@,
                "client did not open the stream\n"@,
            ),
        },
{
    match o {
        OpenOutcome::Opened => None,
        OpenOutcome::Refused(m) => {
            let mut v: Vec<char> = Vec::new();
            extend_str(&mut v, m.as_str());
            extend_str(&mut v, "\n");
            Some(Reply { status: 502, reason: "Bad Gateway", body: string_of(v.as_slice()) })
        },
        OpenOutcome::TimedOut => Some(
            Reply {
                status: 504,
                reason: "Gateway Timeout",
                body: "client did not open the stream\n".to_owned(),
            },
        ),
    }
}

/// The `close` sent for a stream whose `open` timed out.
pub fn open_timeout_close(id: u32) -> (m: ControlMsg)
    ensures
        m matches ControlMsg::Close { v, id: i, reason: Some(why) } && v == WIRE_VERSION && i == id
            && why@ == "open-timeout"@,
{
    ControlMsg::Close { v: WIRE_VERSION, id, reason: Some("open-timeout".to_owned()) }
}

/// The status line and headers of a reply whose body has `len` bytes.
pub open spec fn head_text(status: u16, reason: Seq<char>, ctype: Seq<char>, len: nat) -> Seq<
    char,
> {
    "HTTP/1.1 "@ + dec_text(status as nat) + " "@ + reason + "\r\nContent-Type: "@ + ctype
        + "\r\nContent-Length: "@ + dec_text(len) + "\r\nConnection: close\r\n\r\n"@
}

/// The head written before a plain-text reply of `len` bytes.
pub fn reply_head(status: u16, reason: &str, len: usize) -> (s: String)
    ensures
        s@ == head_text(status, reason@, "text/plain"@, len as nat),
{
    head_with(status, reason, "text/plain", len)
}

fn head_with(status: u16, reason: &str, ctype: &str, len: usize) -> (s: String)
    ensures
        s@ == head_text(status, reason@, ctype@, len as nat),
{
    let mut v: Vec<char> = Vec::new();
    extend_str(&mut v, "HTTP/1.1 ");
    extend_str(&mut v, nat_string(status as u64).as_str());
    extend_str(&mut v, " ");
    extend_str(&mut v, reason);
    extend_str(&mut v, "\r\nContent-Type: ");
    extend_str(&mut v, ctype);
    extend_str(&mut v, "\r\nContent-Length: ");
    extend_str(&mut v, nat_string(len as u64).as_str());
    extend_str(&mut v, "\r\nConnection: close\r\n\r\n");
    assert(v@ =~= head_text(status, reason@, ctype@, len as nat));
    string_of(v.as_slice())
}

/// What the loopback admin port serves for a request.
#[derive(Debug, Clone, Copy, PartialEq, Eq, Structural)]
pub enum AdminRoute {
    Health,
    Status,
    NotFound,
}

pub open spec fn admin_route_of(req: Seq<char>) -> AdminRoute {
    if crate::text::has_prefix(req, "GET /v1/health"@) {
        AdminRoute::Health
    } else if crate::text::has_prefix(req, "GET /v1/status"@) {
        AdminRoute::Status
    } else {
        AdminRoute::NotFound
    }
}

/// Route an admin request by how its text starts.
pub fn admin_route(req: &str) -> (r: AdminRoute)
    ensures
        r == admin_route_of(req@),
{
    let c = chars_of(req);
    let health = chars_of("GET /v1/health");
    if starts_with(c.as_slice(), health.as_slice()) {
        return AdminRoute::Health;
    }
    let status = chars_of("GET /v1/status");
    if starts_with(c.as_slice(), status.as_slice()) {
        return AdminRoute::Status;
    }
    AdminRoute::NotFound
}

/// The head of an admin JSON reply: `200 OK` for the two routes that exist,
/// `404 Not Found` otherwise.
pub fn admin_head(route: AdminRoute, len: usize) -> (s: String)
    ensures
        route == AdminRoute::NotFound ==> s@ == head_text(
            404,
            "Not Found"@,
            "application/json"@,
            len as nat,
        ),
        route != AdminRoute::NotFound ==> s@ == head_text(
            200,
            "OK"@,
            "application/json"@,
            len as nat,
        ),
{
    match route {
        AdminRoute::NotFound => head_with(404, "Not Found", "application/json", len),
        _ => head_with(200, "OK", "application/json", len),
    }
}

/// The body answering the health route.
pub fn admin_health_body() -> (s: String)
    ensures
        s@ == "{\"status\":\"ok\"}"@,
{
    "{\"status\":\"ok\"}".to_owned()
}

/// The body answering an unknown route.
pub fn admin_not_found_body() -> (s: String)
    ensures
        s@ == "{\"error\":\"not_found\"}"@,
{
    "{\"error\":\"not_found\"}".to_owned()
}

/// A `Sec-WebSocket-Protocol` value offers this protocol among its
/// comma-separated entries.
pub open spec fn offers_protocol(v: Seq<char>) -> bool {
    exists|i: int|
        0 <= i < split(v, CharClass::Is(',')).len() && trim(
            #[trigger] split(v, CharClass::Is(','))[i],
            CharClass::Whitespace,
        ) == PROTOCOL_NAME@
}

/// Whether to answer the handshake with our protocol name.
pub fn offers_our_protocol(header: &str) -> (b: bool)
    ensures
        b == offers_protocol(header@),
{
    let c = chars_of(header);
    let parts = split_class(c.as_slice(), CharClass::Is(','));
    let name = chars_of(PROTOCOL_NAME);
    let mut i: usize = 0;
    while i < parts.len()
        invariant
            i <= parts@.len(),
            parts.deep_view() == split(header@, CharClass::Is(',')),
            name@ == PROTOCOL_NAME@,
            forall|j: int|
                0 <= j < i ==> trim(#[trigger] parts.deep_view()[j], CharClass::Whitespace)
                    != PROTOCOL_NAME@,
        decreases parts@.len() - i,
    {
        assert(parts.deep_view()[i as int] == parts@[i as int]@);
        let t = trim_class(parts[i].as_slice(), CharClass::Whitespace);
        if chars_eq(t.as_slice(), name.as_slice()) {
            return true;
        }
        i = i + 1;
    }
    false
}

/// The client refuses to dial a host outside its allowlist, answering
/// `error` for the stream.
pub fn client_admits(allowlist: &Allowlist, id: u32, host: &str) -> (r: Result<(), ControlMsg>)
    ensures
        list_allows(allowlist@, host@) ==> r is Ok,
        !list_allows(allowlist@, host@) ==> (r matches Err(ControlMsg::Error { v, id: i, message })
            && v == WIRE_VERSION && i == id && message@ == "host not allowed"@),
{
    if allowlist.allows(host) {
        Ok(())
    } else {
        Err(ControlMsg::Error { v: WIRE_VERSION, id, message: "host not allowed".to_owned() })
    }
}

/// A connection error means the bearer was refused: its text names a 401
/// or says unauthorized, in any case.
pub fn is_unauthorized(text: &str) -> (b: bool)
    ensures
        b == (contains_run(lower(text@), "401"@) || contains_run(lower(text@), "unauthorized"@)),
{
    let l = lower_all(chars_of(text).as_slice());
    let a = chars_of("401");
    let u = chars_of("unauthorized");
    has_run(l.as_slice(), a.as_slice()) || has_run(l.as_slice(), u.as_slice())
}

/// `s` contains `p` as a contiguous run.
pub fn has_run(s: &[char], p: &[char]) -> (b: bool)
    ensures
        b == contains_run(s@, p@),
{
    if p.len() > s.len() {
        return false;
    }
    let sl = s.len();
    let mut i: usize = 0;
    while i <= s.len() - p.len()
        invariant
            sl == s@.len(),
            p@.len() <= s@.len(),
            i <= s@.len() - p@.len() + 1,
            forall|k: int| 0 <= k < i ==> #[trigger] s@.subrange(k, k + p@.len()) != p@,
        decreases s@.len() - p@.len() + 1 - i,
    {
        let mut j: usize = 0;
        let mut same = true;
        while j < p.len()
            invariant
                sl == s@.len(),
                p@.len() <= s@.len(),
                i <= s@.len() - p@.len(),
                j <= p@.len(),
                same == (forall|m: int| 0 <= m < j ==> s@[i + m] == p@[m]),
            decreases p@.len() - j,
        {
            if s[i + j] != p[j] {
                same = false;
            }
            j = j + 1;
        }
        if same {
            assert(s@.subrange(i as int, i + p@.len()) =~= p@);
            return true;
        }
        proof {
            let k = choose|m: int| 0 <= m < p@.len() && s@[i + m] != p@[m];
            assert(s@.subrange(i as int, i + p@.len())[k] != p@[k]);
        }
        i = i + 1;
    }
    false
}

} // verus!

verus! {

/// The token a tunnel handshake presents: the `Authorization` bearer, else
/// the trimmed `x-box-egress-bearer` value when it is not blank.
pub open spec fn presented_token(authorization: Option<Seq<char>>, alternate: Option<Seq<char>>) -> Option<
    Seq<char>,
> {
    let from_auth = match authorization {
        Some(v) => crate::common::auth::bearer_of(v),
        None => None,
    };
    match from_auth {
        Some(t) => Some(t),
        None => match alternate {
            Some(a) => if crate::text::trim(a, CharClass::Whitespace).len() > 0 {
                Some(crate::text::trim(a, CharClass::Whitespace))
            } else {
                None
            },
            None => None,
        },
    }
}

/// A tunnel client may attach when the token it presents is the bearer.
pub fn ws_authorized(authorization: Option<&str>, alternate: Option<&str>, expected: &str) -> (b:
    bool)
    ensures
        b == (presented_token(
            match authorization {
                Some(v) => Some(v@),
                None => None,
            },
            match alternate {
                Some(v) => Some(v@),
                None => None,
            },
        ) == Some(expected@)),
{
    let from_auth = match authorization {
        Some(v) => crate::common::auth::bearer_token(v),
        None => None,
    };
    let presented = match from_auth {
        Some(t) => Some(t),
        None => match alternate {
            Some(a) => {
                let t = crate::text::trim_class(chars_of(a).as_slice(), CharClass::Whitespace);
                if t.len() > 0 {
                    Some(string_of(t.as_slice()))
                } else {
                    None
                }
            },
            None => None,
        },
    };
    match presented {
        Some(t) => crate::common::auth::tokens_equal(t.as_str(), expected),
        None => false,
    }
}

} // verus!
