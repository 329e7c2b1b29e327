use rustrtc::transports::ice::address::{parse_bare, parse_host};
use rustrtc::transports::ice::candidate::CandidateError;
use rustrtc::transports::ice::conn::{ConnError, IceConn, PacketClass};
use rustrtc::transports::ice::gatherer::{
    get_socket, servers_to_probe, stun_probed, turn_probed, IceGatherer,
};
use rustrtc::transports::ice::stun::{StunAttribute, StunError, StunMessage};
use rustrtc::transports::ice::transport::{CheckError, CheckReply, IcePacket, SocketChoice};
use rustrtc::transports::ice::turn::TurnAllocation;
use rustrtc::transports::ice::uri::{resolve, UriError};
use rustrtc::transports::ice::{
    IceCandidate, IceCandidatePair, IceCandidateType, IceGathererState, IceParameters, IceRole,
    IceServerUri, IceTransport, IceTransportBuilder, IceTransportProtocol, IceTransportState,
    IceUriKind, IpAddr, SocketAddr,
};
use rustrtc::{IceServer, RtcConfiguration};

fn v4(a: u8, b: u8, c: u8, d: u8, port: u16) -> SocketAddr {
    SocketAddr::new(IpAddr::V4(u32::from_be_bytes([a, b, c, d])), port)
}

#[test]
fn parse_turn_uri() {
    let uri = IceServerUri::parse("turn:example.com:3478?transport=tcp").unwrap();
    assert_eq!(uri.host, "example.com");
    assert_eq!(uri.port, 3478);
    assert_eq!(uri.transport, IceTransportProtocol::Tcp);
    assert_eq!(uri.kind, IceUriKind::Turn);
    assert_eq!(uri.target(), "example.com:3478");
}

#[test]
fn uri_defaults_and_errors() {
    let uri = IceServerUri::parse("stun:host").unwrap();
    assert_eq!((uri.port, uri.transport), (3478, IceTransportProtocol::Udp));
    let uri = IceServerUri::parse("turns:host").unwrap();
    assert_eq!((uri.port, uri.transport), (5349, IceTransportProtocol::Tcp));
    assert_eq!(
        IceServerUri::parse("nothing"),
        Err(UriError::MissingScheme)
    );
    assert_eq!(
        IceServerUri::parse("turn:host:port"),
        Err(UriError::InvalidPort)
    );
    assert_eq!(
        IceServerUri::parse("http:host"),
        Err(UriError::UnsupportedScheme("http".to_string()))
    );
    assert_eq!(
        IceServerUri::parse("turn:host?transport=SCTP"),
        Err(UriError::UnsupportedTransport("sctp".to_string()))
    );
    assert_eq!(
        IceServerUri::parse("stun:host?transport=udp"),
        Err(UriError::StunTransport)
    );
    let v6 = SocketAddr::new(IpAddr::V6(1), 5);
    let addrs = [v6, v4(10, 0, 0, 1, 6)];
    assert_eq!(resolve(&addrs, false), Ok(v6));
    assert_eq!(resolve(&addrs, true), Ok(addrs[1]));
    assert_eq!(resolve(&addrs[..1], true), Err(UriError::Unresolved));
}

#[test]
fn addresses_in_text() {
    let text: Vec<char> = "192.168.1.1".chars().collect();
    assert_eq!(parse_host(&text, 7), Some(v4(192, 168, 1, 1, 7)));
    assert_eq!(v4(192, 168, 1, 1, 0).ip.to_text(), "192.168.1.1");
    let text: Vec<char> = "[2001:db8::1]".chars().collect();
    let ip = IpAddr::V6(0x2001_0db8_0000_0000_0000_0000_0000_0001);
    assert_eq!(parse_host(&text, 7), Some(SocketAddr::new(ip, 7)));
    assert_eq!(parse_bare(&text), None);
    assert_eq!(parse_bare(&text[1..text.len() - 1]), Some(ip));
    assert_eq!(ip.to_text(), "2001:db8::1");
    let text: Vec<char> = "256.1.1.1".chars().collect();
    assert_eq!(parse_host(&text, 7), None);
    assert!(IpAddr::V4(0x7F00_0001).is_loopback());
    assert!(IpAddr::V6(0).is_unspecified());
}

#[test]
fn priorities_by_type_and_component() {
    for (component, low) in [
        (0, 0xFFFF00),
        (1, 0xFFFFFF),
        (2, 0xFFFFFE),
        (255, 0xFFFF01),
        (256, 0xFFFF00),
        (65535, 0xFFFF00),
    ] {
        for (typ, high) in [
            (IceCandidateType::Host, 0x7E00_0000),
            (IceCandidateType::PeerReflexive, 0x6E00_0000),
            (IceCandidateType::ServerReflexive, 0x6400_0000),
            (IceCandidateType::Relay, 0),
        ] {
            assert_eq!(IceCandidate::priority_for(typ, component), high | low);
        }
    }
    assert_eq!(IceCandidate::host(v4(10, 0, 0, 2, 4000), 0).priority, 0x7EFF_FF00);
}

#[test]
fn candidates_in_text() {
    let c = IceCandidate::host(v4(10, 0, 0, 2, 4000), 1);
    assert_eq!(c.priority, 2130706431);
    let line = c.to_sdp();
    assert_eq!(line, "host:10.0.0.2 1 udp 2130706431 10.0.0.2 4000 typ host");
    assert_eq!(IceCandidate::from_sdp(&line), Ok(c));
    let r = IceCandidate::server_reflexive(v4(10, 0, 0, 2, 4000), v4(1, 2, 3, 4, 5), 1);
    assert_eq!(
        r.to_sdp(),
        "srflx:1.2.3.4 1 udp 1694498815 1.2.3.4 5 typ srflx raddr 10.0.0.2 rport 4000"
    );
    let back = IceCandidate::from_sdp(&r.to_sdp()).unwrap();
    assert_eq!(back.related_address, None);
    assert_eq!(back.typ, IceCandidateType::ServerReflexive);
    let prefixed = IceCandidate::from_sdp("candidate:1 1 UDP 5 1.2.3.4 9 typ relay").unwrap();
    assert_eq!(prefixed.foundation, "1");
    assert_eq!(prefixed.transport, "UDP");
    assert_eq!(
        IceCandidate::from_sdp("1 1 udp 5 1.2.3.4 9 typ"),
        Err(CandidateError::Invalid)
    );
    assert_eq!(
        IceCandidate::from_sdp("1 x udp 5 1.2.3.4 9 typ host"),
        Err(CandidateError::Number)
    );
    assert_eq!(
        IceCandidate::from_sdp("1 1 udp 5 nowhere 9 typ host"),
        Err(CandidateError::Address)
    );
    assert_eq!(
        IceCandidate::from_sdp("1 1 udp 5 1.2.3.4 9 typ other"),
        Err(CandidateError::UnknownType)
    );
}

#[test]
fn parameters_are_random_digits() {
    let p = IceParameters::generate();
    assert_eq!(p.username_fragment.len(), 16);
    assert_eq!(p.password.len(), 32);
    let digits = |s: &str| s.chars().all(|c| matches!(c, '0'..='9' | 'a'..='f'));
    assert!(digits(&p.username_fragment) && digits(&p.password));
    assert_ne!(p.password, IceParameters::generate().password);
    let q = IceParameters::from_random(&[0xAB, 1], &[0xCD], 7);
    assert_eq!(q.username_fragment, "ab01");
    assert_eq!(q.password, "cd");
    assert_eq!(IceParameters::new("u".to_string(), "p".to_string()).password, "p");
}

#[test]
fn gathering_keeps_one_candidate_for_an_address() {
    let mut g = IceGatherer::new(true);
    assert!(g.gather());
    assert_eq!(g.state(), IceGathererState::Gathering);
    g.gather_host_candidates(5000, Some(v4(10, 0, 0, 9, 0).ip));
    g.gather_host_candidates(5000, Some(v4(127, 0, 0, 5, 0).ip));
    g.push_candidate(IceCandidate::host(SocketAddr::new(IpAddr::V6(9), 1), 1));
    let lines: Vec<String> = g.local_candidates().iter().map(|c| c.to_sdp()).collect();
    assert_eq!(
        lines,
        vec![
            "host:127.0.0.1 1 udp 2130706431 127.0.0.1 5000 typ host",
            "host:10.0.0.9 1 udp 2130706431 10.0.0.9 5000 typ host",
        ]
    );
    g.complete();
    assert!(!g.gather());
}

#[test]
fn builder_starts_gathering() {
    let mut transport = IceTransportBuilder::new(RtcConfiguration::default()).build();
    assert!(transport.start_gathering());
    assert_eq!(transport.gather_state(), IceGathererState::Gathering);
    transport.gather_host_candidates(4000, None);
    transport.finish_gathering();
    assert!(matches!(
        transport.gather_state(),
        IceGathererState::Complete
    ));
    assert!(!transport.start_gathering());
}

#[test]
fn builder_adds_servers_and_sets_the_role() {
    let transport = IceTransportBuilder::new(RtcConfiguration::default())
        .role(IceRole::Controlling)
        .server(IceServer::new(vec![
            "stun:a".to_string(),
            "bad".to_string(),
            "turn:b".to_string(),
        ]))
        .build();
    assert_eq!(transport.role(), IceRole::Controlling);
    let local = transport.local_parameters();
    assert_eq!((local.username_fragment.len(), local.password.len()), (16, 32));
    assert!(local.password.chars().all(|c| c.is_ascii_hexdigit()));
    assert_eq!(transport.config().ice_servers.len(), 1);
    let uris = servers_to_probe(&transport.config().ice_servers);
    assert_eq!(uris.len(), 2);
    assert_eq!(uris[0].1.host, "a");
    assert_eq!((uris[1].0, uris[1].1.host.as_str()), (0, "b"));
}

#[test]
fn sockets_by_candidate() {
    let locals = vec![
        None,
        Some(v4(10, 0, 0, 1, 7)),
        Some(v4(0, 0, 0, 0, 9)),
    ];
    assert_eq!(get_socket(&locals, v4(10, 0, 0, 1, 7)), Some(1));
    assert_eq!(get_socket(&locals, v4(1, 2, 3, 4, 9)), Some(2));
    assert_eq!(get_socket(&locals, v4(1, 2, 3, 4, 8)), None);
}

#[test]
fn stun_probe_yields_server_reflexive_candidate() {
    let server = v4(1, 1, 1, 1, 3478);
    let base = v4(10, 0, 0, 1, 4000);
    let mapped = v4(9, 9, 9, 9, 4001);
    let reply = StunMessage::binding_success_response([5; 12], mapped)
        .encode(None, true)
        .unwrap();
    let found = stun_probed(server, server, &reply, base).unwrap().unwrap();
    assert!(matches!(found.typ, IceCandidateType::ServerReflexive));
    assert_eq!(found.address, mapped);
    assert_eq!(found.related_address, Some(base));
    assert_eq!(stun_probed(server, base, &reply, base), Ok(None));
    assert_eq!(
        stun_probed(server, server, &[0; 3], base),
        Err(StunError::Truncated)
    );
    let empty = StunMessage::binding_request([5; 12], None)
        .encode(None, false)
        .unwrap();
    assert_eq!(stun_probed(server, server, &empty, base), Ok(None));
}

#[test]
fn turn_probe_yields_relay_candidate() {
    let c = turn_probed(TurnAllocation {
        relayed_address: v4(7, 7, 7, 7, 50000),
        transport: IceTransportProtocol::Udp,
    });
    assert!(matches!(c.typ, IceCandidateType::Relay));
    assert_eq!(c.foundation, "relay:7.7.7.7");
    assert_eq!(c.transport, "udp");
    assert_eq!(c.priority, 16777215);
}

fn checking(params: IceParameters, remote: IceParameters) -> IceTransport {
    let mut t = IceTransport::with_parameters(RtcConfiguration::default(), params);
    assert!(t.start_gathering());
    t.gather_host_candidates(4000, None);
    t.finish_gathering();
    t.start(remote);
    t
}

#[test]
fn a_check_between_two_ends_passes() {
    let left = IceParameters::from_random(&[1; 8], &[2; 16], 3);
    let right = IceParameters::from_random(&[4; 8], &[5; 16], 6);
    let mut a = checking(left.clone(), right.clone());
    let mut b = checking(right, left);
    let here = v4(127, 0, 0, 1, 4000);
    let there = v4(127, 0, 0, 1, 5000);
    a.set_role(IceRole::Controlling);
    assert_eq!(a.state(), IceTransportState::Checking);
    assert!(a.try_connectivity_checks().is_empty());
    a.add_remote_candidate(IceCandidate::host(there, 1));
    let mut other = IceCandidate::host(there, 1);
    other.transport = "tcp".to_string();
    a.add_remote_candidate(other);
    let pairs = a.try_connectivity_checks();
    assert_eq!(pairs.len(), 1);
    let pair = &pairs[0];
    let tx = [9u8; 12];
    let request = a
        .binding_check(&pair.local, &pair.remote, a.role(), tx)
        .unwrap();
    let response = match b.handle_packet(&request, here) {
        IcePacket::Respond(packet) => packet,
        other => panic!("unexpected: {other:?}"),
    };
    let reply = match a.handle_packet(&response, there) {
        IcePacket::Completed(d) => d,
        other => panic!("unexpected: {other:?}"),
    };
    assert_eq!(reply.xor_mapped_address, Some(here));
    assert!(matches!(a.handle_packet(&response, there), IcePacket::Ignored));
    assert_eq!(a.binding_checked(tx, CheckReply::Message(reply)), Ok(()));
    a.select_pair(IceCandidatePair::new(pair.local.clone(), pair.remote.clone()));
    assert_eq!(a.state(), IceTransportState::Connected);
    assert_eq!(a.get_selected_socket(), Some(SocketChoice::Udp(here)));
    assert!(a.try_connectivity_checks().is_empty());
    a.stop();
    assert_eq!(a.state(), IceTransportState::Closed);
}

#[test]
fn checks_that_fail() {
    let params = IceParameters::from_random(&[1; 8], &[2; 16], 3);
    let mut t = IceTransport::with_parameters(RtcConfiguration::default(), params);
    let local = IceCandidate::host(v4(10, 0, 0, 1, 1), 1);
    let mut remote = IceCandidate::host(v4(10, 0, 0, 2, 2), 1);
    assert_eq!(
        t.binding_check(&local, &remote, IceRole::Controlled, [1; 12]),
        Err(CheckError::NoRemoteParameters)
    );
    remote.transport = "tcp".to_string();
    assert_eq!(
        t.binding_check(&local, &remote, IceRole::Controlled, [1; 12]),
        Err(CheckError::NotUdp)
    );
    assert_eq!(
        t.binding_checked([1; 12], CheckReply::Timeout),
        Err(CheckError::Timeout)
    );
    assert_eq!(
        t.binding_checked([1; 12], CheckReply::Closed),
        Err(CheckError::Closed)
    );
    let reply = StunMessage::binding_success_response([2; 12], local.address)
        .encode(None, false)
        .unwrap();
    let decoded = StunMessage::decode(&reply).unwrap();
    assert_eq!(
        t.binding_checked([1; 12], CheckReply::Message(decoded.clone())),
        Err(CheckError::TransactionMismatch)
    );
    assert_eq!(
        t.permission_checked([1; 12], CheckReply::Timeout),
        Err(CheckError::PermissionTimeout)
    );
    assert_eq!(
        t.permission_checked([1; 12], CheckReply::Message(decoded)),
        Ok(())
    );
    let request = StunMessage::binding_request([1; 12], None)
        .encode(None, false)
        .unwrap();
    let decoded = StunMessage::decode(&request).unwrap();
    assert_eq!(
        t.binding_checked([1; 12], CheckReply::Message(decoded)),
        Err(CheckError::Refused)
    );
    assert_eq!(
        CheckError::PermissionRefused(Some(403)).message(),
        "CreatePermission failed: Some(403)"
    );
    assert!(!t.start_direct(local.address));
}

#[test]
fn packets_that_are_not_stun_are_data() {
    let mut t = IceTransport::new(RtcConfiguration::default());
    let from = v4(1, 1, 1, 1, 1);
    assert!(matches!(t.handle_packet(&[], from), IcePacket::Ignored));
    assert!(matches!(t.handle_packet(&[1, 2], from), IcePacket::Ignored));
    match t.handle_packet(&[22, 1, 2], from) {
        IcePacket::Data(d) => assert_eq!(d, vec![22, 1, 2]),
        other => panic!("unexpected: {other:?}"),
    }
}

#[test]
fn a_direct_pair_needs_no_checks() {
    let mut t = IceTransport::new(RtcConfiguration::default());
    t.start_gathering();
    t.gather_host_candidates(4000, None);
    t.finish_gathering();
    let there = v4(10, 0, 0, 2, 6000);
    assert!(t.start_direct(there));
    assert_eq!(t.state(), IceTransportState::Connected);
    let pair = t.get_selected_pair().unwrap();
    assert_eq!(pair.remote.address, there);
    assert_eq!(pair.local.address, v4(127, 0, 0, 1, 4000));
}

#[test]
fn test_ice_conn_send_rtcp_mux() {
    let there = v4(127, 0, 0, 1, 7000);
    let conn = IceConn::new(there);
    assert_eq!(conn.send_rtcp(true), Ok(there));
}

#[test]
fn test_ice_conn_send_rtcp_no_mux() {
    let rtp = v4(127, 0, 0, 1, 7000);
    let rtcp = v4(127, 0, 0, 1, 7001);
    let mut conn = IceConn::new(rtp);
    conn.set_remote_rtcp_addr(Some(rtcp));
    assert_eq!(conn.send(true), Ok(rtp));
    assert_eq!(conn.send_rtcp(true), Ok(rtcp));
}

#[test]
fn connections_learn_their_address() {
    let here = v4(10, 0, 0, 1, 1);
    let there = v4(10, 0, 0, 2, 2);
    let mut conn = IceConn::new(v4(0, 0, 0, 0, 0));
    assert_eq!(conn.send(true), Err(ConnError::NoRemoteAddress));
    assert_eq!(conn.send(false), Err(ConnError::NoSocket));
    assert_eq!(conn.receive(&[], here), PacketClass::Other);
    assert_eq!(conn.receive(&[128], here), PacketClass::Rtp);
    assert_eq!(conn.remote_addr, here);
    assert_eq!(conn.receive(&[130], there), PacketClass::Rtp);
    assert_eq!(conn.remote_addr, here);
    assert_eq!(conn.receive(&[20], there), PacketClass::Dtls);
    assert_eq!(conn.remote_addr, there);
    assert_eq!(conn.receive(&[64], there), PacketClass::Other);
    assert_eq!(ConnError::NoSocket.message(), "No selected socket");
}

#[test]
fn mapped_addresses_of_both_families() {
    let tx = [3u8; 12];
    for addr in [
        v4(1, 2, 3, 4, 5),
        SocketAddr::new(IpAddr::V6(0x2001_0db8_0000_0000_0000_0000_0000_0007), 443),
    ] {
        let bytes = StunMessage::binding_success_response(tx, addr)
            .encode(None, false)
            .unwrap();
        let decoded = StunMessage::decode(&bytes).unwrap();
        assert_eq!(decoded.xor_mapped_address, Some(addr));
    }
    let mut msg = StunMessage::binding_request(tx, Some("rustrtc"));
    msg.attributes.push(StunAttribute::UseCandidate);
    let bytes = msg.encode(None, false).unwrap();
    assert_eq!(bytes.len(), 20 + 4 + 8 + 4);
}

#[test]
fn addresses_can_have_a_scope() {
    let host = |s: &str| parse_host(&s.chars().collect::<Vec<char>>(), 9);
    let ip = IpAddr::V6(0xfe80_0000_0000_0000_0000_0000_0000_0001);
    let at = |scope_id: u32| Some(SocketAddr { ip, port: 9, scope_id });
    assert_eq!(host("[fe80::1%3]"), at(3));
    assert_eq!(host("[fe80::1%0007]"), at(7));
    assert_eq!(host("[fe80::1%4294967295]"), at(4294967295));
    assert_eq!(host("[fe80::1]"), at(0));
    for refused in [
        "[fe80::1%4294967296]",
        "[fe80::1%]",
        "[fe80::1%+3]",
        "[fe80::1%eth0]",
        "[fe80::1%3%3]",
        "[%3]",
        "fe80::1%3",
        "1.2.3.4%3",
    ] {
        assert_eq!(host(refused), None, "{refused}");
    }
    let c = IceCandidate::from_sdp("1 1 udp 5 [fe80::1%3] 9 typ host").unwrap();
    assert_eq!(Some(c.address), at(3));
    assert!(c.to_sdp().contains(" fe80::1 9 "));
}

#[test]
fn addresses_are_read_back_from_their_text() {
    for (ip, text) in [
        (IpAddr::V4(0x7f00_0001), "127.0.0.1"),
        (IpAddr::V6(0), "::"),
        (IpAddr::V6(1), "::1"),
        (IpAddr::V6(0x0001 << 112), "1::"),
        (IpAddr::V6(0xffff_0102_0304), "::ffff:1.2.3.4"),
        (IpAddr::V6(0x2001_0db8_0000_0001_0000_0000_0000_000a), "2001:db8:0:1::a"),
        (IpAddr::V6(0x0001_0002_0003_0004_0005_0006_0007_0000), "1:2:3:4:5:6:7:0"),
    ] {
        assert_eq!(ip.to_text(), text);
        assert_eq!(parse_bare(&text.chars().collect::<Vec<char>>()), Some(ip));
    }
}

#[test]
fn a_related_address_can_be_any() {
    let base = SocketAddr::new(IpAddr::V6(1), 4000);
    let c = IceCandidate::server_reflexive(base, v4(1, 2, 3, 4, 5), 1);
    assert!(c.to_sdp().ends_with("raddr ::1 rport 4000"));
    let back = IceCandidate::from_sdp(&c.to_sdp()).unwrap();
    assert_eq!(back, IceCandidate { related_address: None, ..c });
}

#[test]
fn a_round_without_success_fails() {
    let mut t = IceTransport::new(RtcConfiguration::default());
    t.checks_failed();
    assert_eq!(t.state(), IceTransportState::New);
    t.start(IceParameters::new("u".to_string(), "p".to_string()));
    t.checks_failed();
    assert_eq!(t.state(), IceTransportState::Failed);
    assert!(t.try_connectivity_checks().is_empty());
    let here = IceCandidate::host(v4(1, 2, 3, 4, 5), 1);
    t.select_pair(IceCandidatePair::new(here.clone(), here));
    t.checks_failed();
    assert_eq!(t.state(), IceTransportState::Connected);
}
