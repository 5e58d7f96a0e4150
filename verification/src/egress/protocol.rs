//! `box-egress-v1` control and data frames.
//!
//! Control messages are WebSocket text frames holding a JSON object with
//! `"v": 1` and a `"type"` tag. Payload for a stream is a WebSocket binary
//! frame: a 4-byte big-endian stream id, then the raw bytes.
use vstd::prelude::*;

use crate::num::{dec_text, lemma_dec_text_reads_back, parse_u16, parse_unsigned};
use crate::text::{
    chars_of, find, find_class, has_class, in_class, lemma_rfind_at, lemma_rfind_bounds,
    lemma_trim_end_at, lemma_trim_start_at, rfind, rfind_class, string_of, trim, trim_class,
    CharClass,
};

verus! {

/// Wire version in every control object (`v`).
pub const WIRE_VERSION: u8 = 1;

/// Protocol name used as `Sec-WebSocket-Protocol` and in status JSON.
pub const PROTOCOL_NAME: &'static str = "box-egress-v1";

/// One control message of the tunnel.
#[derive(Debug, Clone, PartialEq, Eq)]
pub enum ControlMsg {
    Hello { v: u8, role: String, protocol: Option<String> },
    Open { v: u8, id: u32, host: String, port: u16 },
    Opened { v: u8, id: u32 },
    Close { v: u8, id: u32, reason: Option<String> },
    Error { v: u8, id: u32, message: String },
}

impl ControlMsg {
    /// The wire version the message carries.
    pub open spec fn version(&self) -> u8 {
        match self {
            ControlMsg::Hello { v, .. } => *v,
            ControlMsg::Open { v, .. } => *v,
            ControlMsg::Opened { v, .. } => *v,
            ControlMsg::Close { v, .. } => *v,
            ControlMsg::Error { v, .. } => *v,
        }
    }

    /// The stream a message is about; `hello` is about none.
    pub open spec fn stream_of(&self) -> Option<u32> {
        match self {
            ControlMsg::Hello { .. } => None,
            ControlMsg::Open { id, .. } => Some(*id),
            ControlMsg::Opened { id, .. } => Some(*id),
            ControlMsg::Close { id, .. } => Some(*id),
            ControlMsg::Error { id, .. } => Some(*id),
        }
    }

    pub fn hello(role: &str) -> (m: Self)
        ensures
            (m matches ControlMsg::Hello { v, role: r, protocol: Some(p) } && v == WIRE_VERSION
                && r@ == role@ && p@ == PROTOCOL_NAME@),
    {
        ControlMsg::Hello {
            v: WIRE_VERSION,
            role: role.to_owned(),
            protocol: Some(PROTOCOL_NAME.to_owned()),
        }
    }

    pub fn open(id: u32, host: String, port: u16) -> (m: Self)
        ensures
            m == (ControlMsg::Open { v: WIRE_VERSION, id, host, port }),
    {
        ControlMsg::Open { v: WIRE_VERSION, id, host, port }
    }

    pub fn opened(id: u32) -> (m: Self)
        ensures
            m == (ControlMsg::Opened { v: WIRE_VERSION, id }),
    {
        ControlMsg::Opened { v: WIRE_VERSION, id }
    }

    pub fn close(id: u32, reason: Option<&str>) -> (m: Self)
        ensures
            (m matches ControlMsg::Close { v, id: i, reason: r } && v == WIRE_VERSION && i == id
                && match reason {
                Some(t) => (r matches Some(s) && s@ == t@),
                None => r is None,
            }),
    {
        let reason = match reason {
            Some(t) => Some(t.to_owned()),
            None => None,
        };
        ControlMsg::Close { v: WIRE_VERSION, id, reason }
    }

    pub fn error(id: u32, message: String) -> (m: Self)
        ensures
            m == (ControlMsg::Error { v: WIRE_VERSION, id, message }),
    {
        ControlMsg::Error { v: WIRE_VERSION, id, message }
    }

    pub fn stream_id(&self) -> (r: Option<u32>)
        ensures
            r == self.stream_of(),
    {
        match self {
            ControlMsg::Hello { .. } => None,
            ControlMsg::Open { id, .. } => Some(*id),
            ControlMsg::Opened { id, .. } => Some(*id),
            ControlMsg::Close { id, .. } => Some(*id),
            ControlMsg::Error { id, .. } => Some(*id),
        }
    }

    pub fn wire_ok(&self) -> (b: bool)
        ensures
            b == (self.version() == WIRE_VERSION),
    {
        match self {
            ControlMsg::Hello { v, .. } => *v == WIRE_VERSION,
            ControlMsg::Open { v, .. } => *v == WIRE_VERSION,
            ControlMsg::Opened { v, .. } => *v == WIRE_VERSION,
            ControlMsg::Close { v, .. } => *v == WIRE_VERSION,
            ControlMsg::Error { v, .. } => *v == WIRE_VERSION,
        }
    }
}

/// The four big-endian bytes of a stream id.
pub open spec fn be_bytes(id: u32) -> Seq<u8> {
    seq![
        (id / 0x100_0000) as u8,
        ((id / 0x1_0000) % 0x100) as u8,
        ((id / 0x100) % 0x100) as u8,
        (id % 0x100) as u8,
    ]
}

/// The stream id that four big-endian bytes spell.
pub open spec fn be_value(b: Seq<u8>) -> int {
    b[0] * 0x100_0000 + b[1] * 0x1_0000 + b[2] * 0x100 + b[3]
}

/// A binary frame: `id` as a big-endian `u32`, then the payload.
pub fn encode_data(id: u32, payload: &[u8]) -> (out: Vec<u8>)
    ensures
        out@ == be_bytes(id) + payload@,
{
    let mut out: Vec<u8> = Vec::new();
    out.push((id / 0x100_0000) as u8);
    out.push(((id / 0x1_0000) % 0x100) as u8);
    out.push(((id / 0x100) % 0x100) as u8);
    out.push((id % 0x100) as u8);
    let mut i: usize = 0;
    while i < payload.len()
        invariant
            i <= payload@.len(),
            out@ == be_bytes(id) + payload@.take(i as int),
        decreases payload@.len() - i,
    {
        out.push(payload[i]);
        i = i + 1;
        assert(out@ =~= be_bytes(id) + payload@.take(i as int));
    }
    assert(payload@.take(payload@.len() as int) =~= payload@);
    out
}

/// Split a binary frame into its stream id and payload; `None` when the
/// frame is shorter than the id.
pub fn decode_data(frame: &[u8]) -> (r: Option<(u32, &[u8])>)
    ensures
        frame@.len() < 4 ==> r is None,
        frame@.len() >= 4 ==> (r matches Some((id, payload)) && id as int == be_value(frame@)
            && payload@ == frame@.skip(4)),
{
    if frame.len() < 4 {
        return None;
    }
    let id: u32 = (frame[0] as u32) * 0x100_0000 + (frame[1] as u32) * 0x1_0000 + (frame[2] as u32)
        * 0x100 + (frame[3] as u32);
    let payload = &frame[4..frame.len()];
    assert(payload@ =~= frame@.skip(4));
    Some((id, payload))
}

/// A frame `encode_data` wrote decodes to the same stream id and payload:
/// it is long enough to hold an id, the id reads back, and the payload is
/// what follows it.
pub proof fn law_data_frame_roundtrip(id: u32, payload: Seq<u8>)
    ensures
        (be_bytes(id) + payload).len() >= 4,
        be_value(be_bytes(id) + payload) == id,
        (be_bytes(id) + payload).skip(4) == payload,
{
    assert((be_bytes(id) + payload).skip(4) =~= payload);
}

pub open spec fn nonzero(host: Seq<char>, port: int) -> Option<(Seq<char>, u16)> {
    if port == 0 {
        None
    } else {
        Some((host, port as u16))
    }
}

/// What `parse_hostport` reads from an authority.
pub open spec fn hostport(authority: Seq<char>, default_port: u16) -> Option<(Seq<char>, u16)> {
    let t = trim(authority, CharClass::Whitespace);
    if t.len() == 0 {
        None
    } else if t[0] == '[' {
        let e = find(t, CharClass::Is(']'));
        if e < 0 {
            None
        } else {
            let host = t.subrange(1, e);
            let rest = t.skip(e + 1);
            if host.len() == 0 {
                None
            } else if rest.len() == 0 {
                nonzero(host, default_port as int)
            } else if rest[0] != ':' {
                None
            } else {
                match parse_unsigned(rest.drop_first(), 65535) {
                    Some(p) => nonzero(host, p),
                    None => None,
                }
            }
        }
    } else {
        let c = rfind(t, CharClass::Is(':'));
        if c < 0 {
            nonzero(t, default_port as int)
        } else {
            let host = t.take(c);
            if host.len() > 0 && !has_class(host, CharClass::Is(':')) {
                match parse_unsigned(t.skip(c + 1), 65535) {
                    Some(p) => nonzero(host, p),
                    None => None,
                }
            } else {
                None
            }
        }
    }
}

/// What `parse_hostport` accepts always has a host and a non-zero port;
/// with no port given (no `:` anywhere, or a bracketed host with nothing
/// after `]`) and no default port nothing is accepted; and an
/// unbracketed authority with two or more `:` (bare IPv6) is refused.
pub proof fn law_hostport_shape(authority: Seq<char>, default_port: u16)
    ensures
        hostport(authority, default_port) matches Some((h, p)) ==> h.len() > 0 && p != 0,
        default_port == 0 && !has_class(authority, CharClass::Is(':')) ==> hostport(
            authority,
            default_port,
        ) is None,
        ({
            let t = trim(authority, CharClass::Whitespace);
            t.len() > 0 && t[0] != '[' && (exists|i: int, j: int|
                0 <= i < j < t.len() && #[trigger] t[i] == ':' && #[trigger] t[j] == ':')
        }) ==> hostport(authority, default_port) is None,
        ({
            let t = trim(authority, CharClass::Whitespace);
            &&& default_port == 0
            &&& t.len() >= 2
            &&& t[0] == '['
            &&& t[t.len() - 1] == ']'
            &&& forall|i: int| 0 <= i < t.len() - 1 ==> #[trigger] t[i] != ']'
        }) ==> hostport(authority, default_port) is None,
{
    let t = trim(authority, CharClass::Whitespace);
    if t.len() >= 2 && t[0] == '[' && t[t.len() - 1] == ']' && (forall|i: int|
        0 <= i < t.len() - 1 ==> #[trigger] t[i] != ']') {
        crate::text::lemma_find_at(t, CharClass::Is(']'), t.len() - 1);
        assert(t.skip(t.len() as int).len() == 0);
    }
    let a = crate::text::lemma_trim_run(authority, CharClass::Whitespace);
    lemma_rfind_bounds(t, CharClass::Is(':'));
    if !has_class(authority, CharClass::Is(':')) {
        assert forall|i: int| 0 <= i < t.len() implies !in_class(CharClass::Is(':'), #[trigger] t[i]) by {
            assert(t[i] == authority[a + i]);
        }
    }
    if t.len() > 0 && t[0] != '[' {
        let c = rfind(t, CharClass::Is(':'));
        if exists|i: int, j: int| 0 <= i < j < t.len() && #[trigger] t[i] == ':' && #[trigger] t[j] == ':' {
            let (i, j) = choose|i: int, j: int|
                0 <= i < j < t.len() && #[trigger] t[i] == ':' && #[trigger] t[j] == ':';
            assert(c >= j);
            assert(t.take(c)[i] == ':');
        }
    }
    if t.len() > 0 && t[0] != '[' {
        let c = rfind(t, CharClass::Is(':'));
        if c >= 0 {
            let b = crate::num::unsigned_body(t.skip(c + 1));
            if crate::num::all_digits(b) {
                crate::num::lemma_dec_nonneg(b);
            }
        }
    }
    if t.len() > 0 && t[0] == '[' {
        let e = find(t, CharClass::Is(']'));
        crate::text::lemma_find_bounds(t, CharClass::Is(']'));
        if e >= 0 {
            let rest = t.skip(e + 1);
            if rest.len() > 0 {
                let b = crate::num::unsigned_body(rest.drop_first());
                if crate::num::all_digits(b) {
                    crate::num::lemma_dec_nonneg(b);
                }
            }
        }
        if e >= 0 && default_port == 0 && !has_class(authority, CharClass::Is(':')) {
            let rest = t.skip(e + 1);
            if rest.len() > 0 {
                assert(rest[0] == t[e + 1]);
            }
        }
    }
}

/// A host without `:` that does not start with `[` or whitespace, joined
/// to a non-zero port by `:` (as `format!("{host}:{port}")` and the listen
/// inventory write it), parses back to that host and port.
pub proof fn law_hostport_roundtrip(host: Seq<char>, port: u16, default_port: u16)
    requires
        host.len() > 0,
        !crate::text::is_ws(host[0]),
        host[0] != '[',
        !has_class(host, CharClass::Is(':')),
        port != 0,
    ensures
        hostport(host + seq![':'] + dec_text(port as nat), default_port) == Some((host, port)),
        hostport(crate::common::listen::host_port(host, port), default_port) == Some((host, port)),
{
    reveal_strlit(":");
    if host.contains(':') {
        let j = choose|j: int| 0 <= j < host.len() && host[j] == ':';
        assert(in_class(CharClass::Is(':'), host[j]));
    }
    assert(crate::common::listen::host_port(host, port) =~= host + seq![':'] + dec_text(port as nat));
    let d = dec_text(port as nat);
    lemma_dec_text_reads_back(port as nat);
    let s = host + seq![':'] + d;
    assert(s[0] == host[0]);
    lemma_trim_start_at(s, CharClass::Whitespace, 0);
    assert(s.skip(0) =~= s);
    assert(s.last() == d.last());
    assert(crate::num::is_digit(d[d.len() - 1]));
    lemma_trim_end_at(s, CharClass::Whitespace, s.len() as int);
    assert(s.take(s.len() as int) =~= s);
    assert(trim(s, CharClass::Whitespace) == s);
    assert forall|j: int| host.len() < j < s.len() implies !in_class(CharClass::Is(':'), #[trigger] s[j]) by {
        assert(s[j] == d[j - host.len() - 1]);
        assert(crate::num::is_digit(d[j - host.len() - 1]));
    }
    assert(s[host.len() as int] == ':');
    lemma_rfind_at(s, CharClass::Is(':'), host.len() as int);
    assert(s.take(host.len() as int) =~= host);
    assert(s.skip(host.len() as int + 1) =~= d);
    assert(d.len() > 0 && d[0] != '+') by {
        assert(crate::num::is_digit(d[0]));
    }
    assert(crate::num::unsigned_body(d) == d);
    assert(dec_text(port as nat) == d);
}

/// A host without `]` (an IPv6 address among them) written in brackets and
/// joined to a non-zero port, as the listen inventory writes a host with
/// `:`, parses back to that host and port.
pub proof fn law_bracketed_hostport_roundtrip(host: Seq<char>, port: u16, default_port: u16)
    requires
        host.len() > 0,
        !has_class(host, CharClass::Is(']')),
        port != 0,
    ensures
        hostport(seq!['['] + host + seq![']', ':'] + dec_text(port as nat), default_port) == Some(
            (host, port),
        ),
        has_class(host, CharClass::Is(':')) && host[0] != '[' ==> hostport(
            crate::common::listen::host_port(host, port),
            default_port,
        ) == Some((host, port)),
{
    let d = dec_text(port as nat);
    lemma_dec_text_reads_back(port as nat);
    let s = seq!['['] + host + seq![']', ':'] + d;
    assert(s[0] == '[');
    lemma_trim_start_at(s, CharClass::Whitespace, 0);
    assert(s.skip(0) =~= s);
    assert(s.last() == d.last());
    assert(crate::num::is_digit(d[d.len() - 1]));
    lemma_trim_end_at(s, CharClass::Whitespace, s.len() as int);
    assert(s.take(s.len() as int) =~= s);
    assert(trim(s, CharClass::Whitespace) == s);
    let e: int = host.len() + 1int;
    assert forall|j: int| 0 <= j < e implies !in_class(CharClass::Is(']'), #[trigger] s[j]) by {
        if j > 0 {
            assert(s[j] == host[j - 1]);
            if in_class(CharClass::Is(']'), host[j - 1]) {
                assert(has_class(host, CharClass::Is(']')));
            }
        }
    }
    assert(s[e] == ']');
    crate::text::lemma_find_at(s, CharClass::Is(']'), e);
    assert(s.subrange(1, e) =~= host);
    let rest = s.skip(e + 1);
    assert(rest[0] == ':');
    assert(rest.drop_first() =~= d);
    assert(d.len() > 0 && d[0] != '+') by {
        assert(crate::num::is_digit(d[0]));
    }
    assert(crate::num::unsigned_body(d) == d);
    if has_class(host, CharClass::Is(':')) && host[0] != '[' {
        reveal_strlit("[");
        reveal_strlit("]:");
        let j = choose|j: int| 0 <= j < host.len() && in_class(CharClass::Is(':'), #[trigger] host[j]);
        assert(host.contains(host[j]));
        assert(crate::common::listen::host_port(host, port) =~= s);
    }
}

pub open spec fn hostport_view(r: Option<(String, u16)>) -> Option<(Seq<char>, u16)> {
    match r {
        Some((h, p)) => Some((h@, p)),
        None => None,
    }
}

pub open spec fn hostport_chars_view(r: Option<(Vec<char>, u16)>) -> Option<(Seq<char>, u16)> {
    match r {
        Some((h, p)) => Some((h@, p)),
        None => None,
    }
}

fn nonzero_port(host: &[char], port: u16) -> (r: Option<(Vec<char>, u16)>)
    ensures
        hostport_chars_view(r) == nonzero(host@, port as int),
{
    if port == 0 {
        None
    } else {
        let v = crate::text::copy_range(host, 0, host.len());
        assert(v@ =~= host@);
        Some((v, port))
    }
}

/// Parse `host:port`, `[ipv6]:port`, or `host` with `default_port`.
///
/// Port `0` is rejected. Unbracketed IPv6 (several colons) is rejected so
/// nothing is guessed.
pub fn parse_hostport(authority: &str, default_port: u16) -> (r: Option<(String, u16)>)
    ensures
        hostport_view(r) == hostport(authority@, default_port),
{
    let all = chars_of(authority);
    match hostport_chars(all.as_slice(), default_port) {
        Some((h, p)) => Some((string_of(h.as_slice()), p)),
        None => None,
    }
}

/// [`parse_hostport`] on characters.
pub fn hostport_chars(authority: &[char], default_port: u16) -> (r: Option<(Vec<char>, u16)>)
    ensures
        hostport_chars_view(r) == hostport(authority@, default_port),
{
    let t = trim_class(authority, CharClass::Whitespace);
    let ts = t.as_slice();
    if ts.len() == 0 {
        return None;
    }
    if ts[0] == '[' {
        let e = match find_class(ts, CharClass::Is(']')) {
            Some(e) => e,
            None => return None,
        };
        if e == 0 {
            return None;
        }
        if e < 1 {
            return None;
        }
        let host = crate::text::copy_range(ts, 1, e);
        if host.len() == 0 {
            return None;
        }
        let rest = crate::text::copy_range(ts, e + 1, ts.len());
        assert(rest@ =~= t@.skip(e + 1));
        if rest.len() == 0 {
            return nonzero_port(host.as_slice(), default_port);
        }
        if rest[0] != ':' {
            return None;
        }
        let digits = crate::text::copy_range(rest.as_slice(), 1, rest.len());
        assert(digits@ =~= rest@.drop_first());
        return match parse_u16(digits.as_slice()) {
            Some(p) => nonzero_port(host.as_slice(), p),
            None => None,
        };
    }
    match rfind_class(ts, CharClass::Is(':')) {
        None => {
            assert(ts@ =~= ts@.subrange(0, ts@.len() as int));
            nonzero_port(ts, default_port)
        },
        Some(c) => {
            let host = crate::text::copy_range(ts, 0, c);
            assert(host@ =~= t@.take(c as int));
            if host.len() > 0 && !crate::text::contains_class(host.as_slice(), CharClass::Is(':')) {
                let port = crate::text::copy_range(ts, c + 1, ts.len());
                assert(port@ =~= t@.skip(c + 1));
                match parse_u16(port.as_slice()) {
                    Some(p) => nonzero_port(host.as_slice(), p),
                    None => None,
                }
            } else {
                None
            }
        },
    }
}

} // verus!
