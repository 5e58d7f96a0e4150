//! What the host gateway reports about the egress tunnel. `ready` means a
//! client is attached right now; enabled with no client is `enabled: true,
//! ready: false`, and the proxy refuses in that state.
use vstd::prelude::*;

use crate::common::listen::{format_bind, host_port, local_host};
use crate::egress::protocol::PROTOCOL_NAME;
use crate::net::{IpAddr, SocketAddr};

verus! {

#[derive(Clone, Debug)]
pub struct EgressConfig {
    pub enabled: bool,
    pub ws_bind: SocketAddr,
    pub proxy_bind: SocketAddr,
    pub admin_bind: SocketAddr,
}

impl EgressConfig {
    /// Off, on the default loopback ports 8790, 8791 and 8792.
    pub fn disabled() -> (c: Self)
        ensures
            !c.enabled,
            c.ws_bind == (SocketAddr { ip: IpAddr::V4(127, 0, 0, 1), port: 8790 }),
            c.proxy_bind == (SocketAddr { ip: IpAddr::V4(127, 0, 0, 1), port: 8791 }),
            c.admin_bind == (SocketAddr { ip: IpAddr::V4(127, 0, 0, 1), port: 8792 }),
    {
        EgressConfig {
            enabled: false,
            ws_bind: SocketAddr { ip: IpAddr::V4(127, 0, 0, 1), port: 8790 },
            proxy_bind: SocketAddr { ip: IpAddr::V4(127, 0, 0, 1), port: 8791 },
            admin_bind: SocketAddr { ip: IpAddr::V4(127, 0, 0, 1), port: 8792 },
        }
    }
}

#[derive(Debug, Clone)]
pub struct EgressStatus {
    pub enabled: bool,
    /// A client is attached and CONNECT will be relayed.
    pub ready: bool,
    pub client_attached: bool,
    pub protocol: String,
    /// Container-local listen inventory.
    pub ws: String,
    pub proxy: String,
}

impl EgressStatus {
    pub fn from_config(cfg: &EgressConfig, ready: bool) -> (s: Self)
        ensures
            s.enabled == cfg.enabled,
            s.ready == ready,
            s.client_attached == ready,
            s.protocol@ == PROTOCOL_NAME@,
            s.ws@ == host_port(local_host(cfg.ws_bind), cfg.ws_bind.port),
            s.proxy@ == host_port(local_host(cfg.proxy_bind), cfg.proxy_bind.port),
    {
        EgressStatus {
            enabled: cfg.enabled,
            ready,
            client_attached: ready,
            protocol: PROTOCOL_NAME.to_owned(),
            ws: format_bind(cfg.ws_bind),
            proxy: format_bind(cfg.proxy_bind),
        }
    }
}

/// The server's own status: enabled, and ready exactly when a client is
/// attached.
pub fn snapshot(attached: bool, ws_addr: SocketAddr, proxy_addr: SocketAddr) -> (s: EgressStatus)
    ensures
        s.enabled,
        s.ready == attached,
        s.client_attached == attached,
        s.protocol@ == PROTOCOL_NAME@,
        s.ws@ == host_port(local_host(ws_addr), ws_addr.port),
        s.proxy@ == host_port(local_host(proxy_addr), proxy_addr.port),
{
    EgressStatus {
        enabled: true,
        ready: attached,
        client_attached: attached,
        protocol: PROTOCOL_NAME.to_owned(),
        ws: format_bind(ws_addr),
        proxy: format_bind(proxy_addr),
    }
}

/// The reported status: disabled is never probed; enabled takes what the
/// admin port answered, ready only while a client is attached, or is
/// enabled and not ready when the admin port did not answer.
pub fn probe_egress(cfg: &EgressConfig, fetched: Option<EgressStatus>) -> (s: EgressStatus)
    ensures
        !cfg.enabled ==> !s.enabled && !s.ready && !s.client_attached && s.protocol@
            == PROTOCOL_NAME@,
        cfg.enabled && fetched is None ==> s.enabled && !s.ready && !s.client_attached
            && s.protocol@ == PROTOCOL_NAME@,
        !cfg.enabled || fetched is None ==> s.ws@ == host_port(
            local_host(cfg.ws_bind),
            cfg.ws_bind.port,
        ) && s.proxy@ == host_port(local_host(cfg.proxy_bind), cfg.proxy_bind.port),
        cfg.enabled && fetched is Some ==> ({
            let f = fetched->Some_0;
            &&& s.enabled
            &&& s.ready == f.client_attached
            &&& s.client_attached == f.client_attached
            &&& s.protocol@ == if f.protocol@.len() == 0 {
                PROTOCOL_NAME@
            } else {
                f.protocol@
            }
            &&& s.ws == f.ws
            &&& s.proxy == f.proxy
        }),
{
    if !cfg.enabled {
        return EgressStatus::from_config(cfg, false);
    }
    match fetched {
        Some(mut st) => {
            st.enabled = true;
            st.ready = st.client_attached;
            if st.protocol.as_str().is_empty() {
                st.protocol = PROTOCOL_NAME.to_owned();
            }
            st
        },
        None => EgressStatus::from_config(cfg, false),
    }
}

} // verus!
