use rustrtc::rtp::{
    marshal_rtcp_packets, PictureLossIndication, RtcpPacket, RtpHeader, RtpHeaderExtension,
    RtpPacket,
};
use rustrtc::transports::rtp::{RtcpOutgoing, RtpDelivery, RtpSendError, RtpTransport};
use rustrtc::{SrtpKeyingMaterial, SrtpProfile, SrtpSession};

fn packet(seq: u16, ssrc: u32) -> RtpPacket {
    RtpPacket::new(RtpHeader::new(96, seq, 5000, ssrc), vec![1, 2, 3, 4])
}

fn session() -> SrtpSession {
    let keying = SrtpKeyingMaterial::new(vec![7; 16], vec![8; 14]);
    SrtpSession::new(1, SrtpProfile::Aes128Sha1_80, keying).unwrap()
}

fn pli() -> Vec<RtcpPacket> {
    vec![RtcpPacket::PictureLossIndication(PictureLossIndication {
        sender_ssrc: 1,
        media_ssrc: 2,
    })]
}

#[test]
fn test_rtp_interop_loopback() {
    let mut a = RtpTransport::new(false);
    let mut b = RtpTransport::new(false);
    b.register_listener_sync(0x11223344, 7);
    let payload = vec![0xDE, 0xAD, 0xBE, 0xEF];
    let sent = RtpPacket::new(RtpHeader::new(96, 1001, 12345, 0x11223344), payload.clone());
    let raw = a.send_rtp(&sent).unwrap();
    match b.receive(&raw, None) {
        RtpDelivery::Rtp(listener, received) => {
            assert_eq!(listener, 7);
            assert_eq!(received.header.payload_type, 96);
            assert_eq!(received.header.sequence_number, 1001);
            assert_eq!(received.header.timestamp, 12345);
            assert_eq!(received.header.ssrc, 0x11223344);
            assert_eq!(received.payload, payload);
        }
        other => panic!("expected RTP: {other:?}"),
    }
}

#[test]
fn test_srtp_interop_loopback() {
    let keys = || SrtpKeyingMaterial::new(vec![0x01u8; 16], vec![0x02u8; 14]);
    let open = || SrtpSession::new(0x11223344, SrtpProfile::Aes128Sha1_80, keys()).unwrap();
    let mut a = RtpTransport::new(true);
    let mut b = RtpTransport::new(true);
    a.start_srtp(open());
    b.start_srtp(open());
    b.register_listener_sync(0x11223344, 3);
    let payload = vec![0xCA, 0xFE, 0xBA, 0xBE];
    let sent = RtpPacket::new(RtpHeader::new(96, 5000, 987654, 0x11223344), payload.clone());
    let raw = a.send_rtp(&sent).unwrap();
    let protected = RtpPacket::parse(&raw).unwrap();
    assert_ne!(protected.payload[..4], payload[..], "Payload should be encrypted");
    match b.receive(&raw, None) {
        RtpDelivery::Rtp(listener, received) => {
            assert_eq!(listener, 3);
            assert_eq!(received.payload, payload);
            assert_eq!(received.header.sequence_number, 5000);
        }
        other => panic!("expected RTP: {other:?}"),
    }
    let next = RtpPacket::new(RtpHeader::new(96, 5001, 987655, 0x11223344), payload);
    let again = a.send(&next.marshal().unwrap()).unwrap();
    assert!(matches!(b.receive(&again, None), RtpDelivery::Rtp(3, _)));
    let mut forged = again;
    forged[13] ^= 1;
    assert_eq!(b.receive(&forged, None), RtpDelivery::Nothing);
}

#[test]
fn nothing_goes_in_the_clear_where_keys_are_required() {
    let mut t = RtpTransport::new(true);
    t.register_listener_sync(1, 1);
    t.register_rtcp_listener(2);
    let raw = packet(1, 1).marshal().unwrap();
    assert_eq!(t.send(&raw), Err(RtpSendError::NotReady));
    assert_eq!(t.send_rtp(&packet(1, 1)), Err(RtpSendError::NotReady));
    assert_eq!(t.send_rtcp(&pli()), Err(RtpSendError::NotReady));
    assert_eq!(t.receive(&raw, None), RtpDelivery::Nothing);
    assert_eq!(
        RtpSendError::NotReady.message(),
        "SRTP required but session not ready"
    );
}

#[test]
fn rtcp_goes_to_its_listener() {
    let mut t = RtpTransport::new(false);
    let raw = match t.send_rtcp(&pli()).unwrap() {
        RtcpOutgoing::Plain(raw) => raw,
        other => panic!("unexpected: {other:?}"),
    };
    assert_eq!(raw, marshal_rtcp_packets(&pli()).unwrap());
    assert_eq!(t.receive(&raw, None), RtpDelivery::Nothing);
    t.register_rtcp_listener(9);
    assert_eq!(t.receive(&raw, None), RtpDelivery::Rtcp(9, pli()));
    t.rtcp_listener_closed();
    assert_eq!(t.receive(&raw, None), RtpDelivery::Nothing);
    t.start_srtp(session());
    t.register_rtcp_listener(9);
    assert!(matches!(t.send_rtcp(&pli()), Ok(RtcpOutgoing::Protect(_))));
    assert_eq!(t.receive(&raw, None), RtpDelivery::Nothing);
    assert_eq!(
        t.receive(&raw, Some(raw.clone())),
        RtpDelivery::Rtcp(9, pli())
    );
}

#[test]
fn streams_are_found_by_name_first() {
    let mut t = RtpTransport::new(false);
    t.register_listener_sync(5, 1);
    t.register_rid_listener("hi".to_string(), 2);
    t.register_rid_listener("lo".to_string(), 3);
    t.register_rid_listener("hi".to_string(), 4);
    let mut named = packet(1, 5);
    named.header.extension = Some(RtpHeaderExtension::new(0xBEDE, vec![0x31, b'h', b'i', 0]));
    let raw = named.marshal().unwrap();
    assert!(matches!(t.receive(&raw, None), RtpDelivery::Rtp(1, _)));
    t.set_rid_extension_id(3);
    assert!(matches!(t.receive(&raw, None), RtpDelivery::Rtp(4, _)));
    let plain = packet(1, 5).marshal().unwrap();
    assert!(matches!(t.receive(&plain, None), RtpDelivery::Rtp(1, _)));
    assert!(t.has_listener(5));
    t.listener_closed(5);
    assert!(!t.has_listener(5));
    assert_eq!(t.receive(&plain, None), RtpDelivery::Nothing);
}
