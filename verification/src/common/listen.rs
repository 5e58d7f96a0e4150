//! Container-local listen addresses: an unspecified bind is reported as
//! loopback.
use vstd::prelude::*;

use crate::net::{ip_string, ip_text, is_unspecified, IpAddr, SocketAddr};
use crate::num::{dec_text, nat_string};
use crate::text::{extend_chars, extend_str, string_of};

verus! {

/// The host part of a listen address: `0.0.0.0` becomes `127.0.0.1` and
/// `::` becomes `::1`.
pub open spec fn local_host(bind: SocketAddr) -> Seq<char> {
    match bind.ip {
        IpAddr::V4(..) => if is_unspecified(bind.ip) {
            "127.0.0.1"@
        } else {
            ip_text(bind.ip)
        },
        IpAddr::V6(..) => if is_unspecified(bind.ip) {
            "::1"@
        } else {
            ip_text(bind.ip)
        },
    }
}

pub fn container_local_host(bind: SocketAddr) -> (s: String)
    ensures
        s@ == local_host(bind),
{
    if crate::net::ip_is_unspecified(bind.ip) {
        match bind.ip {
            IpAddr::V4(..) => "127.0.0.1".to_owned(),
            IpAddr::V6(..) => "::1".to_owned(),
        }
    } else {
        string_of(ip_string(bind.ip).as_slice())
    }
}

/// `host:port`, with an IPv6 host in brackets.
pub open spec fn host_port(host: Seq<char>, port: u16) -> Seq<char> {
    if host.contains(':') && !(host.len() > 0 && host[0] == '[') {
        "["@ + host + "]:"@ + dec_text(port as nat)
    } else {
        host + ":"@ + dec_text(port as nat)
    }
}

fn host_port_text(host: &String, port: u16) -> (s: String)
    ensures
        s@ == host_port(host@, port),
{
    let h = crate::text::chars_of(host.as_str());
    let colon = crate::text::contains_class(h.as_slice(), crate::text::CharClass::Is(':'));
    proof {
        if colon {
            let k = choose|k: int|
                0 <= k < h@.len() && crate::text::in_class(
                    crate::text::CharClass::Is(':'),
                    #[trigger] h@[k],
                );
            assert(h@[k] == ':');
        }
        if h@.contains(':') {
            let k = choose|k: int| 0 <= k < h@.len() && h@[k] == ':';
            assert(crate::text::in_class(crate::text::CharClass::Is(':'), h@[k]));
        }
    }
    let bracketed = h.len() > 0 && h[0] == '[';
    let mut v: Vec<char> = Vec::new();
    if colon && !bracketed {
        extend_str(&mut v, "[");
        extend_chars(&mut v, h.as_slice());
        extend_str(&mut v, "]:");
    } else {
        extend_chars(&mut v, h.as_slice());
        extend_str(&mut v, ":");
    }
    extend_str(&mut v, nat_string(port as u64).as_str());
    string_of(v.as_slice())
}

/// `http://` URL of a listen address, rewritten to loopback when the
/// process bound `0.0.0.0` or `::`.
pub fn container_local_http_url(bind: SocketAddr) -> (s: String)
    ensures
        s@ == "http://"@ + host_port(local_host(bind), bind.port),
{
    let host = container_local_host(bind);
    let hp = host_port_text(&host, bind.port);
    let mut v: Vec<char> = Vec::new();
    extend_str(&mut v, "http://");
    extend_str(&mut v, hp.as_str());
    string_of(v.as_slice())
}

/// The listen inventory entry of a bind: container-local host and port.
pub fn format_bind(bind: SocketAddr) -> (s: String)
    ensures
        s@ == host_port(local_host(bind), bind.port),
{
    let host = container_local_host(bind);
    host_port_text(&host, bind.port)
}

} // verus!
