use grok_box::egress::relay::ws_authorized;
use grok_box::egress::allowlist::Allowlist;
use grok_box::egress::config::{check_client_url, merge_allowlist, url_is_loopback, TunnelClientConfig};
use grok_box::egress::destination::{classify_ip, parse_ports, DestinationPolicy, Refusal};
use grok_box::egress::http1::{parse_proxy_request, split_head};
use grok_box::egress::protocol::{decode_data, encode_data, parse_hostport, ControlMsg, PROTOCOL_NAME};
use grok_box::egress::relay::{
    admin_head, admin_route, admit_request, no_client, offers_our_protocol, open_reply,
    reply_head, AdminRoute, Keepalive, OpenOutcome, Tick, KEEPALIVE_MISSES,
};
use grok_box::egress::session::{Sessions, MAX_STREAMS};
use grok_box::egress::status::{probe_egress, snapshot, EgressConfig, EgressStatus};
use grok_box::net::{IpAddr, SocketAddr};

#[test]
fn empty_allows_all() {
    let a = Allowlist::parse("");
    assert!(a.is_open());
    assert!(a.allows("anything.example"));
}

#[test]
fn exact_and_wildcard() {
    let a = Allowlist::parse("facebook.com, *.fbcdn.net");
    assert!(a.allows("facebook.com"));
    assert!(a.allows("Facebook.COM"));
    assert!(!a.allows("evil-facebook.com"));
    assert!(a.allows("foo.fbcdn.net"));
    assert!(a.allows("fbcdn.net"));
    assert!(!a.allows("example.com"));
}

#[test]
fn star_is_open() {
    let a = Allowlist::parse("*, facebook.com");
    assert!(a.is_open());
    assert!(a.allows("elsewhere.test"));
}

#[test]
fn a_closed_list_refuses_blank_hosts() {
    let a = Allowlist::parse("example.com");
    assert!(!a.allows(" . "));
    assert!(a.allows(" example.com. "));
}

#[test]
fn merged_allowlists_keep_both_sources() {
    let a = merge_allowlist(Some("a.example".into()), vec!["b.example".into()]);
    assert!(a.allows("a.example"));
    assert!(a.allows("b.example"));
    assert!(!a.allows("c.example"));
    assert!(merge_allowlist(None, vec![]).is_open());
}

#[test]
fn loopback_urls() {
    assert!(url_is_loopback("ws://127.0.0.1:8790"));
    assert!(url_is_loopback("ws://localhost:8790/v1/tunnel"));
    assert!(url_is_loopback("wss://[::1]:8790"));
    assert!(!url_is_loopback("ws://10.0.0.5:8790"));
    assert!(!url_is_loopback("wss://box.example.com/egress"));
}

#[test]
fn client_urls_must_be_websockets() {
    assert!(check_client_url("ws://127.0.0.1:8790").is_ok());
    let err = check_client_url("http://127.0.0.1:8790").unwrap_err();
    assert_eq!(err.0, "client URL must start with ws:// or wss://");
}

fn sock(ip: IpAddr, port: u16) -> SocketAddr {
    SocketAddr::new(ip, port)
}

fn reason(p: &DestinationPolicy, ip: IpAddr, port: u16) -> Option<&'static str> {
    p.refuse_reason(&sock(ip, port)).map(|r| r.as_str())
}

const PUBLIC: IpAddr = IpAddr::V4(93, 184, 216, 34);

#[test]
fn the_default_policy_refuses_the_operators_own_network() {
    let p = DestinationPolicy::default();
    for (addr, why) in [
        (IpAddr::V4(127, 0, 0, 1), "loopback"),
        (IpAddr::V4(192, 168, 1, 1), "private"),
        (IpAddr::V4(10, 0, 0, 5), "private"),
        (IpAddr::V4(172, 16, 4, 2), "private"),
        (IpAddr::V4(169, 254, 169, 254), "link-local"),
        (IpAddr::V4(100, 64, 0, 1), "carrier-grade NAT"),
        (IpAddr::V4(0, 0, 0, 0), "unspecified"),
        (IpAddr::V6(0, 0, 0, 0, 0, 0, 0, 1), "loopback"),
        (IpAddr::V6(0xfd00, 0, 0, 0, 0, 0, 0, 1), "unique local"),
        (IpAddr::V6(0xfe80, 0, 0, 0, 0, 0, 0, 1), "link-local"),
        (IpAddr::V6(0, 0, 0, 0, 0, 0xffff, 0x7f00, 0x0001), "loopback"),
    ] {
        assert_eq!(reason(&p, addr, 443), Some(why), "{addr:?} must be refused");
    }
}

#[test]
fn public_unicast_on_a_web_port_is_allowed() {
    let p = DestinationPolicy::default();
    assert_eq!(reason(&p, PUBLIC, 443), None);
    assert_eq!(reason(&p, PUBLIC, 80), None);
    assert_eq!(
        reason(&p, IpAddr::V6(0x2606, 0x2800, 0x0220, 0x0001, 0, 0, 0, 1), 443),
        None
    );
}

#[test]
fn ports_outside_the_web_set_need_opting_in() {
    let p = DestinationPolicy::default();
    assert_eq!(reason(&p, PUBLIC, 22), Some("port not relayed"));
    assert_eq!(reason(&p, PUBLIC, 5432), Some("port not relayed"));

    let open = DestinationPolicy::default().with_ports(Some(Vec::new()));
    assert_eq!(reason(&open, PUBLIC, 22), None);

    let named = DestinationPolicy::default().with_ports(Some(vec![8443]));
    assert_eq!(reason(&named, PUBLIC, 8443), None);
    assert_eq!(reason(&named, PUBLIC, 443), Some("port not relayed"));
}

#[test]
fn opting_in_to_private_is_possible_but_explicit() {
    let p = DestinationPolicy::default().with_allow_private(true);
    assert_eq!(reason(&p, IpAddr::V4(192, 168, 1, 1), 443), None);
    // The port policy still applies.
    assert_eq!(reason(&p, IpAddr::V4(192, 168, 1, 1), 22), Some("port not relayed"));
}

#[test]
fn vet_drops_the_private_answers_and_keeps_the_public_ones() {
    let p = DestinationPolicy::default();
    let vetted = p.vet(vec![
        sock(IpAddr::V4(127, 0, 0, 1), 443),
        sock(PUBLIC, 443),
        sock(IpAddr::V4(192, 168, 1, 1), 443),
    ]);
    assert_eq!(vetted, vec![sock(PUBLIC, 443)]);
}

#[test]
fn parse_ports_reads_a_list_a_star_and_junk() {
    assert_eq!(parse_ports(""), None);
    assert_eq!(parse_ports("  "), None);
    assert_eq!(parse_ports("*"), Some(Vec::new()));
    assert_eq!(parse_ports("80,443, 8443"), Some(vec![80, 443, 8443]));
    assert_eq!(parse_ports("nonsense"), None);
}

#[test]
fn the_other_address_classes() {
    assert_eq!(classify_ip(IpAddr::V4(255, 255, 255, 255)), Some(Refusal::Broadcast));
    assert_eq!(classify_ip(IpAddr::V4(224, 0, 0, 1)), Some(Refusal::Multicast));
    assert_eq!(classify_ip(IpAddr::V4(192, 0, 2, 1)), Some(Refusal::Documentation));
    assert_eq!(classify_ip(IpAddr::V4(0, 1, 2, 3)), Some(Refusal::ThisNetwork));
    assert_eq!(classify_ip(IpAddr::V4(240, 0, 0, 1)), Some(Refusal::Reserved));
    assert_eq!(classify_ip(IpAddr::V6(0xff02, 0, 0, 0, 0, 0, 0, 1)), Some(Refusal::Multicast));
    assert_eq!(classify_ip(IpAddr::V6(0x2001, 0x0db8, 0, 0, 0, 0, 0, 1)), Some(Refusal::Documentation));
    assert_eq!(classify_ip(IpAddr::V4(8, 8, 8, 8)), None);
}

#[test]
fn parse_connect() {
    let head = b"CONNECT example.com:443 HTTP/1.1\r\nHost: example.com:443\r\n\r\n";
    let req = parse_proxy_request(head, b"leftover").unwrap();
    assert!(req.connect);
    assert_eq!(req.host, "example.com");
    assert_eq!(req.port, 443);
    assert_eq!(req.initial, b"leftover");
}

#[test]
fn parse_absolute_get() {
    let head = b"GET http://example.com/foo HTTP/1.1\r\nHost: example.com\r\nProxy-Connection: keep-alive\r\n\r\n";
    let req = parse_proxy_request(head, b"").unwrap();
    assert!(!req.connect);
    assert_eq!(req.host, "example.com");
    assert_eq!(req.port, 80);
    let text = String::from_utf8(req.initial).unwrap();
    assert!(text.starts_with("GET /foo HTTP/1.1\r\n"));
    assert!(!text.to_ascii_lowercase().contains("proxy-connection"));
}

#[test]
fn heads_end_at_the_blank_line() {
    let buf = b"CONNECT a:1 HTTP/1.1\r\n\r\nrest";
    let (head, rest) = split_head(buf).unwrap();
    assert_eq!(head, b"CONNECT a:1 HTTP/1.1\r\n\r\n");
    assert_eq!(rest, b"rest");
    assert!(split_head(b"CONNECT a:1 HTTP/1.1\r\n").is_none());
    assert!(parse_proxy_request(b"nonsense\r\n\r\n", b"").is_none());
}

#[test]
fn data_frame_roundtrip() {
    let frame = encode_data(42, b"abc");
    let (id, payload) = decode_data(&frame).unwrap();
    assert_eq!(id, 42);
    assert_eq!(payload, b"abc");
    assert!(decode_data(&[1, 2, 3]).is_none());
}

#[test]
fn data_frames_are_big_endian() {
    assert_eq!(encode_data(0x0102_0304, b"z"), vec![1, 2, 3, 4, b'z']);
}

#[test]
fn hostport_ipv4_and_name() {
    assert_eq!(
        parse_hostport("example.com:443", 0).unwrap(),
        ("example.com".into(), 443)
    );
    assert_eq!(
        parse_hostport("example.com", 80).unwrap(),
        ("example.com".into(), 80)
    );
    assert!(parse_hostport("example.com:0", 80).is_none());
    assert!(parse_hostport("", 80).is_none());
}

#[test]
fn hostport_ipv6() {
    assert_eq!(parse_hostport("[::1]:443", 0).unwrap(), ("::1".into(), 443));
    assert_eq!(parse_hostport("[::1]", 80).unwrap(), ("::1".into(), 80));
    assert!(parse_hostport("::1", 80).is_none());
}

#[test]
fn control_messages_carry_the_wire_version() {
    let m = ControlMsg::open(7, "example.com".into(), 443);
    assert!(m.wire_ok());
    assert_eq!(m.stream_id(), Some(7));
    assert_eq!(ControlMsg::hello("client").stream_id(), None);
    match ControlMsg::hello("client") {
        ControlMsg::Hello { protocol, .. } => assert_eq!(protocol.as_deref(), Some(PROTOCOL_NAME)),
        _ => unreachable!(),
    }
}

#[test]
fn keepalive_drops_after_silent_intervals() {
    let mut k = Keepalive::new();
    for _ in 0..KEEPALIVE_MISSES {
        assert_eq!(k.on_tick(), Tick::Ping);
    }
    assert_eq!(k.on_tick(), Tick::Drop);
    k.on_frame();
    assert_eq!(k.on_tick(), Tick::Ping);
}

#[test]
fn proxy_replies() {
    let blocked = admit_request(
        &parse_proxy_request(b"CONNECT evil.test:443 HTTP/1.1\r\n\r\n", b""),
        &Allowlist::parse("good.test"),
    )
    .unwrap();
    assert_eq!((blocked.status, blocked.reason), (403, "Forbidden"));
    assert!(admit_request(
        &parse_proxy_request(b"CONNECT good.test:443 HTTP/1.1\r\n\r\n", b""),
        &Allowlist::parse("good.test"),
    )
    .is_none());
    assert_eq!(admit_request(&None, &Allowlist::any()).unwrap().status, 400);
    assert_eq!(no_client().status, 503);
    assert!(open_reply(&OpenOutcome::Opened).is_none());
    let refused = open_reply(&OpenOutcome::Refused("nope".into())).unwrap();
    assert_eq!((refused.status, refused.body.as_str()), (502, "nope\n"));
    assert_eq!(open_reply(&OpenOutcome::TimedOut).unwrap().status, 504);
    assert_eq!(
        reply_head(403, "Forbidden", 17),
        "HTTP/1.1 403 Forbidden\r\nContent-Type: text/plain\r\nContent-Length: 17\r\nConnection: close\r\n\r\n"
    );
}

#[test]
fn admin_routes() {
    assert_eq!(admin_route("GET /v1/health HTTP/1.1\r\n"), AdminRoute::Health);
    assert_eq!(admin_route("GET /v1/status HTTP/1.1\r\n"), AdminRoute::Status);
    assert_eq!(admin_route("POST /x HTTP/1.1\r\n"), AdminRoute::NotFound);
    assert!(admin_head(AdminRoute::NotFound, 2).starts_with("HTTP/1.1 404 Not Found\r\n"));
    assert!(offers_our_protocol("chat, box-egress-v1"));
    assert!(!offers_our_protocol("chat"));
}

#[test]
fn sessions_route_only_to_the_live_connection() {
    let mut s: Sessions<u8, u16, &'static str> = Sessions::new();
    assert!(!s.attached());
    let (g1, old) = s.attach("first");
    assert!(old.is_none());
    let (id, gen) = s.open_stream(1, 10).unwrap();
    assert_eq!(gen, g1);
    assert_eq!(s.route(g1, id), Some(&1));
    let (g2, old) = s.attach("second");
    assert!(g2 != g1);
    assert_eq!(old.map(|o| o.generation()), Some(g1));
    assert_eq!(s.route(g1, id), None);
    assert!(!s.detach(g1));
    assert!(s.attached());
    let (id2, _) = s.open_stream(2, 20).unwrap();
    assert_eq!(
        s.on_control(g2, ControlMsg::opened(id2)).map(|(w, r)| (w, r.is_ok())),
        Some((20, true))
    );
    assert!(s.on_control(g1, ControlMsg::opened(id2)).is_none());
    s.drop_stream(g1, id2);
    assert_eq!(s.route(g2, id2), Some(&2));
    s.drop_stream(g2, id2);
    assert_eq!(s.route(g2, id2), None);
    assert!(s.detach(g2));
    assert!(!s.attached());
    assert!(MAX_STREAMS > 0);
}

fn v4(a: u8, b: u8, c: u8, d: u8, port: u16) -> SocketAddr {
    SocketAddr::new(IpAddr::V4(a, b, c, d), port)
}

#[test]
fn disabled_is_not_ready() {
    let st = probe_egress(&EgressConfig::disabled(), None);
    assert!(!st.enabled);
    assert!(!st.ready);
    assert!(!st.client_attached);
    assert_eq!(st.protocol, PROTOCOL_NAME);
}

#[test]
fn closed_admin_is_enabled_not_ready() {
    let cfg = EgressConfig {
        enabled: true,
        ws_bind: v4(127, 0, 0, 1, 8790),
        proxy_bind: v4(127, 0, 0, 1, 8791),
        admin_bind: v4(127, 0, 0, 1, 1),
    };
    let st = probe_egress(&cfg, None);
    assert!(st.enabled);
    assert!(!st.ready);
    assert_eq!(st.proxy, "127.0.0.1:8791");
}

#[test]
fn a_live_admin_answer_is_reported() {
    let cfg = EgressConfig {
        enabled: true,
        ws_bind: v4(127, 0, 0, 1, 8790),
        proxy_bind: v4(127, 0, 0, 1, 8791),
        admin_bind: v4(127, 0, 0, 1, 8792),
    };
    let live: EgressStatus = snapshot(true, v4(127, 0, 0, 1, 8790), v4(127, 0, 0, 1, 8791));
    let st = probe_egress(&cfg, Some(live));
    assert!(st.enabled && st.ready && st.client_attached);
    assert_eq!(st.ws, "127.0.0.1:8790");
}

#[test]
fn ws_attach_takes_bearer_or_alternate_header() {
    let t = "tunnel-bearer-0123456789";
    assert!(ws_authorized(Some("Bearer tunnel-bearer-0123456789"), None, t));
    assert!(ws_authorized(None, Some("  tunnel-bearer-0123456789 "), t));
    assert!(!ws_authorized(Some("Bearer wrong"), None, t));
    assert!(!ws_authorized(None, None, t));
    assert!(!ws_authorized(None, Some("   "), t));
}

#[test]
fn destination_policy_reads_its_settings() {
    let p = DestinationPolicy::from_settings(" yes ", "8080, 9090");
    assert!(p.allow_private);
    assert_eq!(p.ports, Some(vec![8080, 9090]));
    let d = DestinationPolicy::from_settings("", "");
    assert!(!d.allow_private);
    assert_eq!(d.ports, None);
    let any = DestinationPolicy::from_settings("TRUE", "*");
    assert!(!any.allow_private);
    assert_eq!(any.ports, Some(vec![]));
}

fn open_policy() -> DestinationPolicy {
    DestinationPolicy::from_settings("", "")
}

#[test]
fn client_config_from_parts_checks_bearer_then_url() {
    let strong = "a-long-random-tunnel-bearer".to_string();
    let cfg = TunnelClientConfig::from_parts(
        "  wss://box.example.com/egress ".into(),
        strong.clone(),
        Allowlist::parse(""),
        true,
        false,
        false,
        open_policy(),
    )
    .unwrap();
    assert_eq!(cfg.url, "wss://box.example.com/egress");
    assert_eq!(cfg.bearer, strong);
    assert!(cfg.reconnect);

    let weak = TunnelClientConfig::from_parts(
        "ws://10.0.0.5:8790".into(),
        "short".into(),
        Allowlist::parse(""),
        false,
        false,
        true,
        open_policy(),
    )
    .unwrap_err();
    assert!(weak.0.starts_with("BOX_EGRESS_TUNNEL_BEARER is missing, shorter than 16 characters"));

    // A weak bearer is allowed on loopback with the insecure-dev opt-in.
    assert!(TunnelClientConfig::from_parts(
        "ws://127.0.0.1:8790".into(),
        "dev-box-token".into(),
        Allowlist::parse(""),
        false,
        true,
        true,
        open_policy(),
    )
    .is_ok());

    let scheme = TunnelClientConfig::from_parts(
        "http://box.example.com".into(),
        strong,
        Allowlist::parse(""),
        false,
        false,
        false,
        open_policy(),
    )
    .unwrap_err();
    assert_eq!(scheme.0, "client URL must start with ws:// or wss://");
}

#[test]
fn client_config_from_settings_names_what_is_missing() {
    let no_url = TunnelClientConfig::from_settings(None, Some("x".repeat(32)), None, false, false, open_policy())
        .unwrap_err();
    assert_eq!(no_url.0, "BOX_EGRESS_CLIENT_URL must be a ws:// or wss:// URL");
    let no_bearer =
        TunnelClientConfig::from_settings(Some("ws://127.0.0.1:8790".into()), None, None, false, false, open_policy())
            .unwrap_err();
    assert!(no_bearer.0.starts_with("BOX_EGRESS_TUNNEL_BEARER must be set and non-empty"));
    let cfg = TunnelClientConfig::from_settings(
        Some("ws://127.0.0.1:8790".into()),
        Some("x".repeat(32)),
        Some("example.com".into()),
        false,
        false,
        open_policy(),
    )
    .unwrap();
    assert!(cfg.allowlist.allows("example.com"));
    assert!(!cfg.allowlist.allows("other.org"));
}

#[test]
fn absolute_form_http_is_refused_with_405() {
    let get = parse_proxy_request(b"GET http://example.com/private HTTP/1.1\r\nHost: example.com\r\n\r\n", b"");
    assert!(get.is_some());
    let reply = admit_request(&get, &Allowlist::any()).unwrap();
    assert_eq!((reply.status, reply.reason), (405, "Method Not Allowed"));
    assert_eq!(reply.body, "only CONNECT is relayed\n");
}

#[test]
fn a_refused_host_gets_403_whatever_the_method() {
    let get = parse_proxy_request(b"GET http://evil.test/x HTTP/1.1\r\nHost: evil.test\r\n\r\n", b"");
    let reply = admit_request(&get, &Allowlist::parse("good.test")).unwrap();
    assert_eq!((reply.status, reply.reason), (403, "Forbidden"));
    let allowed = parse_proxy_request(b"GET http://good.test/x HTTP/1.1\r\nHost: good.test\r\n\r\n", b"");
    assert_eq!(admit_request(&allowed, &Allowlist::parse("good.test")).unwrap().status, 405);
}

#[test]
fn hostport_shape_and_roundtrip() {
    assert_eq!(parse_hostport("example.com:443", 0), Some(("example.com".to_string(), 443)));
    assert_eq!(parse_hostport("example.com", 0), None);
    assert_eq!(parse_hostport("[::1]", 0), None);
    assert_eq!(parse_hostport("::1", 443), None);
    assert_eq!(parse_hostport("fe80::1:443", 80), None);
    for (h, p) in [("a", 1u16), ("box.internal", 65535), ("10.0.0.1", 8080)] {
        assert_eq!(parse_hostport(&format!("{h}:{p}"), 0), Some((h.to_string(), p)));
    }
}

#[test]
fn allowlist_ignores_case_and_refuses_an_empty_host() {
    let a = Allowlist::parse("Example.com,*.Corp.test");
    assert!(a.allows("example.com") && a.allows("EXAMPLE.COM"));
    assert!(a.allows("api.corp.test") && a.allows("API.CORP.TEST"));
    assert!(!a.allows(""));
    assert!(!a.allows("evilcorp.test"));
    assert!(Allowlist::parse("").allows(""));
}

#[test]
fn a_session_at_its_stream_cap_opens_no_more() {
    let mut s: Sessions<u32, u16, &'static str> = Sessions::new();
    s.attach("only");
    let mut opened = 0usize;
    while opened < MAX_STREAMS {
        assert!(s.open_stream(opened as u32, 1).is_some());
        opened += 1;
    }
    assert!(s.open_stream(opened as u32, 1).is_none());
}

#[test]
fn blank_lists_are_the_open_list() {
    for raw in ["", " , ", ",", "  ,,  , "] {
        let a = Allowlist::parse(raw);
        assert!(a.is_open());
        assert_eq!(a.is_open(), Allowlist::any().is_open());
        assert!(a.allows("anything.example"));
        assert!(a.allows(""));
    }
}

#[test]
fn a_bracketed_host_without_port_needs_a_default() {
    assert_eq!(parse_hostport("[fe80::1]", 0), None);
    assert_eq!(parse_hostport(" [::1] ", 0), None);
    assert_eq!(parse_hostport("[fe80::1]", 8080).unwrap(), ("fe80::1".into(), 8080));
}

#[test]
fn a_wildcard_entry_covers_its_domain_on_label_boundaries() {
    let a = Allowlist::parse(" other.test , *.Example.COM. ");
    assert!(a.allows("example.com"));
    assert!(a.allows("deep.sub.example.com"));
    assert!(a.allows("SUB.EXAMPLE.COM"));
    assert!(!a.allows("evilexample.com"));
    assert!(a.allows("other.test"));
    assert!(!a.allows("x.other.test"));
}

#[test]
fn stream_ids_count_up_from_the_last_one_handed_out() {
    let mut s: Sessions<u8, u16, &'static str> = Sessions::new();
    s.attach("c");
    let (a, _) = s.open_stream(1, 1).unwrap();
    let (b, g) = s.open_stream(2, 2).unwrap();
    assert_eq!((a, b), (1, 2));
    s.drop_stream(g, a);
    let (c, _) = s.open_stream(3, 3).unwrap();
    assert_eq!(c, 3);
    s.attach("d");
    let (d, _) = s.open_stream(4, 4).unwrap();
    assert_eq!(d, 1);
}

#[test]
fn unprobed_egress_reports_its_configured_listeners() {
    let st = probe_egress(&EgressConfig::disabled(), None);
    assert_eq!(st.ws, "127.0.0.1:8790");
    assert_eq!(st.proxy, "127.0.0.1:8791");
    let cfg = EgressConfig {
        enabled: true,
        ws_bind: v4(0, 0, 0, 0, 9000),
        proxy_bind: v4(10, 0, 0, 2, 9001),
        admin_bind: v4(127, 0, 0, 1, 1),
    };
    let st = probe_egress(&cfg, None);
    assert_eq!(st.ws, "127.0.0.1:9000");
    assert_eq!(st.proxy, "10.0.0.2:9001");
}

#[test]
fn formatted_host_and_port_parse_back() {
    assert_eq!(parse_hostport("example.com:8443", 0).unwrap(), ("example.com".into(), 8443));
    assert_eq!(parse_hostport("[fe80::1]:443", 0).unwrap(), ("fe80::1".into(), 443));
    assert_eq!(parse_hostport("[::1]:65535", 80).unwrap(), ("::1".into(), 65535));
}
