//! What the laptop end is willing to dial.
//!
//! The allowlist matches the CONNECT host string, which whatever runs in the
//! guest browser chooses. The real check is here, on the resolved address,
//! right before the dial; the caller connects to the address this vetted,
//! never to the host name a second time.
use vstd::prelude::*;

use crate::net::{IpAddr, SocketAddr};
use crate::num::{parse_u16, parse_unsigned};
use crate::text::{chars_eq, chars_of, split, split_class, trim, trim_class, CharClass};

verus! {

/// Why an address is not public unicast.
#[derive(Clone, Copy, Debug, PartialEq, Eq)]
pub enum Refusal {
    Port,
    Loopback,
    Private,
    LinkLocal,
    Unspecified,
    Broadcast,
    Multicast,
    Documentation,
    CarrierGradeNat,
    ThisNetwork,
    Reserved,
    UniqueLocal,
}

/// The reason as the tunnel reports it.
pub open spec fn refusal_text(r: Refusal) -> Seq<char> {
    match r {
        Refusal::Port => "port not relayed"@,
        Refusal::Loopback => "loopback"@,
        Refusal::Private => "private"@,
        Refusal::LinkLocal => "link-local"@,
        Refusal::Unspecified => "unspecified"@,
        Refusal::Broadcast => "broadcast"@,
        Refusal::Multicast => "multicast"@,
        Refusal::Documentation => "documentation"@,
        Refusal::CarrierGradeNat => "carrier-grade NAT"@,
        Refusal::ThisNetwork => "this-network"@,
        Refusal::Reserved => "reserved"@,
        Refusal::UniqueLocal => "unique local"@,
    }
}

impl Refusal {
    /// The reason as the tunnel reports it.
    pub fn as_str(&self) -> (s: &'static str)
        ensures
            s@ == refusal_text(*self),
    {
        match self {
            Refusal::Port => "port not relayed",
            Refusal::Loopback => "loopback",
            Refusal::Private => "private",
            Refusal::LinkLocal => "link-local",
            Refusal::Unspecified => "unspecified",
            Refusal::Broadcast => "broadcast",
            Refusal::Multicast => "multicast",
            Refusal::Documentation => "documentation",
            Refusal::CarrierGradeNat => "carrier-grade NAT",
            Refusal::ThisNetwork => "this-network",
            Refusal::Reserved => "reserved",
            Refusal::UniqueLocal => "unique local",
        }
    }
}

/// Ports relayed when nothing else is configured.
pub open spec fn default_ports() -> Seq<u16> {
    seq![80u16, 443u16]
}

/// Why an IPv4 address is not public unicast, if it is not.
pub open spec fn classify_v4(a: u8, b: u8, c: u8, d: u8) -> Option<Refusal> {
    if a == 127 {
        Some(Refusal::Loopback)
    } else if a == 10 || (a == 172 && 16 <= b <= 31) || (a == 192 && b == 168) {
        Some(Refusal::Private)
    } else if a == 169 && b == 254 {
        Some(Refusal::LinkLocal)
    } else if a == 0 && b == 0 && c == 0 && d == 0 {
        Some(Refusal::Unspecified)
    } else if a == 255 && b == 255 && c == 255 && d == 255 {
        Some(Refusal::Broadcast)
    } else if 224 <= a <= 239 {
        Some(Refusal::Multicast)
    } else if (a == 192 && b == 0 && c == 2) || (a == 198 && b == 51 && c == 100) || (a == 203 && b
        == 0 && c == 113) {
        Some(Refusal::Documentation)
    } else if a == 100 && 64 <= b < 128 {
        Some(Refusal::CarrierGradeNat)
    } else if a == 0 {
        Some(Refusal::ThisNetwork)
    } else if a >= 240 {
        Some(Refusal::Reserved)
    } else {
        None
    }
}

/// Why an address is not public unicast, if it is not. An IPv4 address
/// mapped into IPv6 is judged as that IPv4 address.
pub open spec fn classify(ip: IpAddr) -> Option<Refusal> {
    match ip {
        IpAddr::V4(a, b, c, d) => classify_v4(a, b, c, d),
        IpAddr::V6(s0, s1, s2, s3, s4, s5, s6, s7) => {
            if s0 == 0 && s1 == 0 && s2 == 0 && s3 == 0 && s4 == 0 && s5 == 0 && s6 == 0 && s7
                == 1 {
                Some(Refusal::Loopback)
            } else if s0 == 0 && s1 == 0 && s2 == 0 && s3 == 0 && s4 == 0 && s5 == 0 && s6 == 0
                && s7 == 0 {
                Some(Refusal::Unspecified)
            } else if s0 >= 0xff00 {
                Some(Refusal::Multicast)
            } else if 0xfc00 <= s0 <= 0xfdff {
                Some(Refusal::UniqueLocal)
            } else if 0xfe80 <= s0 <= 0xfebf {
                Some(Refusal::LinkLocal)
            } else if s0 == 0 && s1 == 0 && s2 == 0 && s3 == 0 && s4 == 0 && s5 == 0xffff {
                classify_v4((s6 / 256) as u8, (s6 % 256) as u8, (s7 / 256) as u8, (s7 % 256) as u8)
            } else if s0 == 0x2001 && s1 == 0x0db8 {
                Some(Refusal::Documentation)
            } else {
                None
            }
        },
    }
}

fn classify_v4_exec(a: u8, b: u8, c: u8, d: u8) -> (r: Option<Refusal>)
    ensures
        r == classify_v4(a, b, c, d),
{
    if a == 127 {
        Some(Refusal::Loopback)
    } else if a == 10 || (a == 172 && 16 <= b && b <= 31) || (a == 192 && b == 168) {
        Some(Refusal::Private)
    } else if a == 169 && b == 254 {
        Some(Refusal::LinkLocal)
    } else if a == 0 && b == 0 && c == 0 && d == 0 {
        Some(Refusal::Unspecified)
    } else if a == 255 && b == 255 && c == 255 && d == 255 {
        Some(Refusal::Broadcast)
    } else if 224 <= a && a <= 239 {
        Some(Refusal::Multicast)
    } else if (a == 192 && b == 0 && c == 2) || (a == 198 && b == 51 && c == 100) || (a == 203
        && b == 0 && c == 113) {
        Some(Refusal::Documentation)
    } else if a == 100 && 64 <= b && b < 128 {
        Some(Refusal::CarrierGradeNat)
    } else if a == 0 {
        Some(Refusal::ThisNetwork)
    } else if a >= 240 {
        Some(Refusal::Reserved)
    } else {
        None
    }
}

/// Why this address is not public unicast, if it is not.
pub fn classify_ip(ip: IpAddr) -> (r: Option<Refusal>)
    ensures
        r == classify(ip),
{
    match ip {
        IpAddr::V4(a, b, c, d) => classify_v4_exec(a, b, c, d),
        IpAddr::V6(s0, s1, s2, s3, s4, s5, s6, s7) => {
            if s0 == 0 && s1 == 0 && s2 == 0 && s3 == 0 && s4 == 0 && s5 == 0 && s6 == 0 && s7
                == 1 {
                Some(Refusal::Loopback)
            } else if s0 == 0 && s1 == 0 && s2 == 0 && s3 == 0 && s4 == 0 && s5 == 0 && s6 == 0
                && s7 == 0 {
                Some(Refusal::Unspecified)
            } else if s0 >= 0xff00 {
                Some(Refusal::Multicast)
            } else if 0xfc00 <= s0 && s0 <= 0xfdff {
                Some(Refusal::UniqueLocal)
            } else if 0xfe80 <= s0 && s0 <= 0xfebf {
                Some(Refusal::LinkLocal)
            } else if s0 == 0 && s1 == 0 && s2 == 0 && s3 == 0 && s4 == 0 && s5 == 0xffff {
                classify_v4_exec(
                    (s6 / 256) as u8,
                    (s6 % 256) as u8,
                    (s7 / 256) as u8,
                    (s7 % 256) as u8,
                )
            } else if s0 == 0x2001 && s1 == 0x0db8 {
                Some(Refusal::Documentation)
            } else {
                None
            }
        },
    }
}

/// Resolved-address and port policy for outbound relays.
#[derive(Clone, Debug)]
pub struct DestinationPolicy {
    /// Set by `BOX_EGRESS_ALLOW_PRIVATE=1`. Off by default.
    pub allow_private: bool,
    /// `BOX_EGRESS_RELAY_PORTS`. `None` means 80 and 443; an empty list
    /// (`*`) relays any port.
    pub ports: Option<Vec<u16>>,
}

pub open spec fn ports_view(p: Option<Vec<u16>>) -> Option<Seq<u16>> {
    match p {
        Some(v) => Some(v@),
        None => None,
    }
}

pub open spec fn port_ok(ports: Option<Seq<u16>>, port: u16) -> bool {
    match ports {
        Some(list) => list.len() == 0 || list.contains(port),
        None => default_ports().contains(port),
    }
}

/// Why a policy refuses to dial an address, if it does.
pub open spec fn refusal(allow_private: bool, ports: Option<Seq<u16>>, addr: SocketAddr) -> Option<
    Refusal,
> {
    if !port_ok(ports, addr.port) {
        Some(Refusal::Port)
    } else if allow_private {
        None
    } else {
        classify(addr.ip)
    }
}

impl DestinationPolicy {
    pub open spec fn refusal_of(&self, addr: SocketAddr) -> Option<Refusal> {
        refusal(self.allow_private, ports_view(self.ports), addr)
    }

    pub fn with_allow_private(self, allow: bool) -> (p: Self)
        ensures
            p.allow_private == allow,
            ports_view(p.ports) == ports_view(self.ports),
    {
        DestinationPolicy { allow_private: allow, ports: self.ports }
    }

    pub fn with_ports(self, ports: Option<Vec<u16>>) -> (p: Self)
        ensures
            p.allow_private == self.allow_private,
            ports_view(p.ports) == ports_view(ports),
    {
        DestinationPolicy { allow_private: self.allow_private, ports }
    }

    pub fn port_allowed(&self, port: u16) -> (b: bool)
        ensures
            b == port_ok(ports_view(self.ports), port),
    {
        match &self.ports {
            Some(list) => {
                if list.len() == 0 {
                    return true;
                }
                let mut i: usize = 0;
                while i < list.len()
                    invariant
                        i <= list@.len(),
                        ports_view(self.ports) == Some(list@),
                        forall|j: int| 0 <= j < i ==> list@[j] != port,
                    decreases list@.len() - i,
                {
                    if list[i] == port {
                        assert(list@[i as int] == port);
                        assert(ports_view(self.ports) == Some(list@));
                        return true;
                    }
                    i = i + 1;
                }
                false
            },
            None => {
                assert(default_ports()[0] == 80u16 && default_ports()[1] == 443u16);
                if port == 80 || port == 443 {
                    true
                } else {
                    assert forall|j: int| 0 <= j < default_ports().len() implies default_ports()[j]
                        != port by {}
                    false
                }
            },
        }
    }

    /// `None` when the address may be dialled, otherwise why it may not.
    pub fn refuse_reason(&self, addr: &SocketAddr) -> (r: Option<Refusal>)
        ensures
            r == self.refusal_of(*addr),
    {
        if !self.port_allowed(addr.port) {
            return Some(Refusal::Port);
        }
        if self.allow_private {
            return None;
        }
        classify_ip(addr.ip)
    }

    /// Keep only the addresses this policy will dial, in order.
    pub fn vet(&self, addrs: Vec<SocketAddr>) -> (r: Vec<SocketAddr>)
        ensures
            r@ == addrs@.filter(|a: SocketAddr| self.refusal_of(a) is None),
    {
        let ghost keep = |a: SocketAddr| self.refusal_of(a) is None;
        let mut out: Vec<SocketAddr> = Vec::new();
        let mut i: usize = 0;
        while i < addrs.len()
            invariant
                i <= addrs@.len(),
                keep == (|a: SocketAddr| self.refusal_of(a) is None),
                out@ == addrs@.take(i as int).filter(keep),
            decreases addrs@.len() - i,
        {
            let a = addrs[i];
            proof {
                reveal(Seq::filter);
                assert(addrs@.take(i + 1).drop_last() =~= addrs@.take(i as int));
                assert(addrs@.take(i + 1).last() == a);
            }
            if self.refuse_reason(&a).is_none() {
                out.push(a);
            }
            i = i + 1;
        }
        assert(addrs@.take(addrs@.len() as int) =~= addrs@);
        out
    }
}

impl Default for DestinationPolicy {
    fn default() -> (p: Self)
        ensures
            !p.allow_private,
            p.ports is None,
    {
        DestinationPolicy { allow_private: false, ports: None }
    }
}

/// The port list binds whether or not private addresses are allowed: a port
/// outside it is refused either way.
pub proof fn law_port_policy_holds_with_private_allowed(
    allow_private: bool,
    ports: Option<Seq<u16>>,
    addr: SocketAddr,
)
    requires
        !port_ok(ports, addr.port),
    ensures
        refusal(allow_private, ports, addr) == Some(Refusal::Port),
{
}

/// The default policy dials only public unicast addresses, and only on
/// ports 80 and 443.
pub proof fn law_default_policy_dials_public_web_only(addr: SocketAddr)
    requires
        refusal(false, None, addr) is None,
    ensures
        classify(addr.ip) is None,
        addr.port == 80 || addr.port == 443,
{
}

/// Opting in to private addresses admits exactly the addresses on allowed
/// ports.
pub proof fn law_private_opt_in_only_lifts_the_address_check(
    ports: Option<Seq<u16>>,
    addr: SocketAddr,
)
    ensures
        (refusal(true, ports, addr) is None) == port_ok(ports, addr.port),
{
}

/// The special-use IPv4 blocks (RFC 6890) are never public unicast, each
/// under its own reason: 127.0.0.0/8 loopback; 10.0.0.0/8, 172.16.0.0/12 and
/// 192.168.0.0/16 private; 169.254.0.0/16 link-local; 224.0.0.0/4
/// multicast; 100.64.0.0/10 shared (carrier-grade NAT); the documentation
/// nets 192.0.2.0/24, 198.51.100.0/24 and 203.0.113.0/24; 0.0.0.0/8
/// (0.0.0.0 itself unspecified); 255.255.255.255 broadcast and the rest of
/// 240.0.0.0/4 reserved. The default policy refuses every one of them, and
/// an IPv4-mapped IPv6 address is judged as its IPv4 address.
pub proof fn law_special_ipv4_blocks_are_refused(a: u8, b: u8, c: u8, d: u8, port: u16, ports: Option<Seq<u16>>)
    ensures
        a == 127 ==> classify(IpAddr::V4(a, b, c, d)) == Some(Refusal::Loopback),
        a == 10 ==> classify(IpAddr::V4(a, b, c, d)) == Some(Refusal::Private),
        a == 172 && 16 <= b && b <= 31 ==> classify(IpAddr::V4(a, b, c, d)) == Some(Refusal::Private),
        a == 192 && b == 168 ==> classify(IpAddr::V4(a, b, c, d)) == Some(Refusal::Private),
        a == 169 && b == 254 ==> classify(IpAddr::V4(a, b, c, d)) == Some(Refusal::LinkLocal),
        224 <= a && a <= 239 ==> classify(IpAddr::V4(a, b, c, d)) == Some(Refusal::Multicast),
        a == 100 && 64 <= b && b <= 127 ==> classify(IpAddr::V4(a, b, c, d)) == Some(
            Refusal::CarrierGradeNat,
        ),
        (a == 192 && b == 0 && c == 2) || (a == 198 && b == 51 && c == 100) || (a == 203 && b == 0
            && c == 113) ==> classify(IpAddr::V4(a, b, c, d)) == Some(Refusal::Documentation),
        a == 0 && b == 0 && c == 0 && d == 0 ==> classify(IpAddr::V4(a, b, c, d)) == Some(
            Refusal::Unspecified,
        ),
        a == 0 && !(b == 0 && c == 0 && d == 0) ==> classify(IpAddr::V4(a, b, c, d)) == Some(
            Refusal::ThisNetwork,
        ),
        a == 255 && b == 255 && c == 255 && d == 255 ==> classify(IpAddr::V4(a, b, c, d)) == Some(
            Refusal::Broadcast,
        ),
        a >= 240 && !(a == 255 && b == 255 && c == 255 && d == 255) ==> classify(
            IpAddr::V4(a, b, c, d),
        ) == Some(Refusal::Reserved),
        a == 127 || a == 10 || (a == 172 && 16 <= b && b <= 31) || (a == 192 && b == 168) || (a
            == 169 && b == 254) || a >= 224 || a == 0 || (a == 100 && 64 <= b && b <= 127) ==> refusal(
            false,
            ports,
            SocketAddr { ip: IpAddr::V4(a, b, c, d), port },
        ) is Some,
        classify(IpAddr::V6(0, 0, 0, 0, 0, 0xffff, (a * 256 + b) as u16, (c * 256 + d) as u16))
            == classify(IpAddr::V4(a, b, c, d)),
{
    let s6 = (a * 256 + b) as u16;
    let s7 = (c * 256 + d) as u16;
    assert(s6 == a * 256 + b);
    assert(s7 == c * 256 + d);
    assert(s6 / 256 == a && s6 % 256 == b && s7 / 256 == c && s7 % 256 == d);
}

/// The special-use IPv6 blocks are never public unicast: `::1` loopback,
/// `::` unspecified, `ff00::/8` multicast, `fc00::/7` unique local,
/// `fe80::/10` link-local and `2001:db8::/32` documentation; the default
/// policy refuses each of them.
pub proof fn law_special_ipv6_blocks_are_refused(
    s0: u16,
    s1: u16,
    s2: u16,
    s3: u16,
    s4: u16,
    s5: u16,
    s6: u16,
    s7: u16,
    port: u16,
    ports: Option<Seq<u16>>,
)
    ensures
        classify(IpAddr::V6(0, 0, 0, 0, 0, 0, 0, 1)) == Some(Refusal::Loopback),
        classify(IpAddr::V6(0, 0, 0, 0, 0, 0, 0, 0)) == Some(Refusal::Unspecified),
        s0 >= 0xff00 ==> classify(IpAddr::V6(s0, s1, s2, s3, s4, s5, s6, s7)) == Some(
            Refusal::Multicast,
        ),
        0xfc00 <= s0 && s0 <= 0xfdff ==> classify(IpAddr::V6(s0, s1, s2, s3, s4, s5, s6, s7))
            == Some(Refusal::UniqueLocal),
        0xfe80 <= s0 && s0 <= 0xfebf ==> classify(IpAddr::V6(s0, s1, s2, s3, s4, s5, s6, s7))
            == Some(Refusal::LinkLocal),
        s0 == 0x2001 && s1 == 0x0db8 ==> classify(IpAddr::V6(s0, s1, s2, s3, s4, s5, s6, s7))
            == Some(Refusal::Documentation),
        s0 >= 0xfc00 && !(0xfe00 <= s0 && s0 < 0xfe80) && !(0xfec0 <= s0 && s0 < 0xff00) ==> refusal(
            false,
            ports,
            SocketAddr { ip: IpAddr::V6(s0, s1, s2, s3, s4, s5, s6, s7), port },
        ) is Some,
{
}

/// The public addresses the default policy dials are exactly those outside
/// the special-use blocks: an IPv4 address outside all of them is dialled on
/// ports 80 and 443.
pub proof fn law_public_ipv4_is_dialled_on_web_ports(a: u8, b: u8, c: u8, d: u8, port: u16)
    requires
        a != 0 && a != 10 && a != 127 && a < 224,
        !(a == 172 && 16 <= b && b <= 31),
        !(a == 192 && b == 168),
        !(a == 169 && b == 254),
        !(a == 100 && 64 <= b && b <= 127),
        !((a == 192 && b == 0 && c == 2) || (a == 198 && b == 51 && c == 100) || (a == 203 && b
            == 0 && c == 113)),
        port == 80 || port == 443,
    ensures
        classify(IpAddr::V4(a, b, c, d)) is None,
        refusal(false, None, SocketAddr { ip: IpAddr::V4(a, b, c, d), port }) is None,
{
}

/// The ports one comma-separated entry list names, junk dropped.
pub open spec fn ports_in(ps: Seq<Seq<char>>) -> Seq<u16>
    decreases ps.len(),
{
    if ps.len() == 0 {
        seq![]
    } else {
        let head = match parse_unsigned(trim(ps[0], CharClass::Whitespace), 65535) {
            Some(p) => seq![p as u16],
            None => seq![],
        };
        head + ports_in(ps.drop_first())
    }
}

/// What `BOX_EGRESS_RELAY_PORTS` asks for: `None` for the default set, an
/// empty list for any port.
pub open spec fn ports_setting(raw: Seq<char>) -> Option<Seq<u16>> {
    let t = trim(raw, CharClass::Whitespace);
    if t.len() == 0 {
        None
    } else if t == seq!['*'] {
        Some(seq![])
    } else {
        let list = ports_in(split(t, CharClass::Is(',')));
        if list.len() == 0 {
            None
        } else {
            Some(list)
        }
    }
}

/// Read a port list setting: a comma-separated list, `*`, or nothing.
pub fn parse_ports(raw: &str) -> (r: Option<Vec<u16>>)
    ensures
        ports_view(r) == ports_setting(raw@),
{
    let chars = chars_of(raw);
    let t = trim_class(chars.as_slice(), CharClass::Whitespace);
    if t.len() == 0 {
        return None;
    }
    let star = ['*'];
    assert(star@ =~= seq!['*']);
    if chars_eq(t.as_slice(), star.as_slice()) {
        return Some(Vec::new());
    }
    let parts = split_class(t.as_slice(), CharClass::Is(','));
    let ghost ps = parts.deep_view();
    let mut list: Vec<u16> = Vec::new();
    let mut i: usize = 0;
    assert(ps.skip(0) =~= ps);
    assert(Seq::<u16>::empty() + ports_in(ps) =~= ports_in(ps));
    while i < parts.len()
        invariant
            i <= parts@.len(),
            ps == parts.deep_view(),
            ports_in(ps) == list@ + ports_in(ps.skip(i as int)),
        decreases parts@.len() - i,
    {
        let p = trim_class(parts[i].as_slice(), CharClass::Whitespace);
        proof {
            assert(parts@[i as int]@ == ps[i as int]);
            let rest = ps.skip(i as int);
            assert(rest[0] == ps[i as int]);
            assert(rest.drop_first() =~= ps.skip(i + 1));
        }
        let ghost before = list@;
        match parse_u16(p.as_slice()) {
            Some(v) => {
                list.push(v);
                assert(before + (seq![v] + ports_in(ps.skip(i + 1))) =~= list@ + ports_in(
                    ps.skip(i + 1),
                ));
            },
            None => {
                assert(before + (Seq::<u16>::empty() + ports_in(ps.skip(i + 1))) =~= list@
                    + ports_in(ps.skip(i + 1)));
            },
        }
        i = i + 1;
    }
    assert(ps.skip(i as int) =~= Seq::<Seq<char>>::empty());
    assert(list@ + Seq::<u16>::empty() =~= list@);
    if list.len() == 0 {
        None
    } else {
        Some(list)
    }
}

/// `BOX_EGRESS_ALLOW_PRIVATE` is on when, trimmed, it is `1`, `true` or
/// `yes`.
pub open spec fn private_allowed(raw: Seq<char>) -> bool {
    let t = trim(raw, CharClass::Whitespace);
    t == "1"@ || t == "true"@ || t == "yes"@
}

impl DestinationPolicy {
    /// The policy the two settings ask for: `allow_private` from
    /// `BOX_EGRESS_ALLOW_PRIVATE`, the ports from `BOX_EGRESS_RELAY_PORTS`.
    pub fn from_settings(allow_private: &str, relay_ports: &str) -> (p: Self)
        ensures
            p.allow_private == private_allowed(allow_private@),
            ports_view(p.ports) == ports_setting(relay_ports@),
    {
        let t = trim_class(chars_of(allow_private).as_slice(), CharClass::Whitespace);
        let one = chars_of("1");
        let yes_true = chars_of("true");
        let yes = chars_of("yes");
        proof {
            reveal_strlit("1");
            reveal_strlit("true");
            reveal_strlit("yes");
        }
        let on = chars_eq(t.as_slice(), one.as_slice()) || chars_eq(t.as_slice(), yes_true.as_slice())
            || chars_eq(t.as_slice(), yes.as_slice());
        DestinationPolicy { allow_private: on, ports: parse_ports(relay_ports) }
    }
}

} // verus!
