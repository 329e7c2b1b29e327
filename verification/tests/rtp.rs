use rustrtc::errors::RtpError;
use rustrtc::rtp::{
    is_rtcp, marshal_rtcp_packets, pack_nack_pairs, parse_rtcp_packets, FirRequest,
    FullIntraRequest, GenericNack, PictureLossIndication, ReceiverReport, RemoteBitrateEstimate,
    ReportBlock, RtcpPacket, RtpHeader, RtpHeaderExtension, RtpPacket, SenderReport,
    TransportWideCc,
};

#[test]
fn rtp_roundtrip() {
    let mut header = RtpHeader::new(96, 1000, 42, 0x1234_5678);
    header.marker = true;
    header.csrcs = vec![0x0102_0304];
    header.extension = Some(RtpHeaderExtension::new(0xBEDE, vec![0, 1, 2, 3]));
    let packet = RtpPacket {
        header,
        payload: vec![9, 8, 7, 6],
        padding_len: 0,
    };
    let serialized = packet.marshal().unwrap();
    let parsed = RtpPacket::parse(&serialized).unwrap();
    assert_eq!(parsed.header.payload_type, 96);
    assert_eq!(parsed.header.sequence_number, 1000);
    assert!(parsed.header.marker);
    assert_eq!(parsed.payload, vec![9, 8, 7, 6]);
    assert_eq!(parsed, packet);
}

#[test]
fn remb_roundtrip() {
    let remb = RemoteBitrateEstimate {
        sender_ssrc: 1,
        bitrate_bps: 750_000,
        ssrcs: vec![2, 3],
    };
    let bytes = marshal_rtcp_packets(&[RtcpPacket::RemoteBitrateEstimate(remb.clone())]).unwrap();
    let parsed = parse_rtcp_packets(&bytes).unwrap();
    match &parsed[0] {
        RtcpPacket::RemoteBitrateEstimate(decoded) => {
            assert_eq!(decoded.sender_ssrc, remb.sender_ssrc);
            assert_eq!(decoded.ssrcs, remb.ssrcs);
        }
        other => panic!("unexpected packet: {other:?}"),
    }
}

#[test]
fn nack_pair_encoding() {
    let pairs = pack_nack_pairs(&[10, 11, 12, 30]);
    assert_eq!(pairs, vec![(10, 0b0000_0000_0000_0011), (30, 0)]);
}

#[test]
fn pli_roundtrip() {
    let pli = RtcpPacket::PictureLossIndication(PictureLossIndication {
        sender_ssrc: 1,
        media_ssrc: 2,
    });
    let bytes = marshal_rtcp_packets(&[pli.clone()]).unwrap();
    let parsed = parse_rtcp_packets(&bytes).unwrap();
    assert!(matches!(parsed[0], RtcpPacket::PictureLossIndication(_)));
}

#[test]
fn generic_nack_roundtrip() {
    let nack = RtcpPacket::GenericNack(GenericNack {
        sender_ssrc: 5,
        media_ssrc: 6,
        lost_packets: vec![100, 102],
    });
    let bytes = marshal_rtcp_packets(&[nack.clone()]).unwrap();
    let parsed = parse_rtcp_packets(&bytes).unwrap();
    match &parsed[0] {
        RtcpPacket::GenericNack(out) => {
            assert_eq!(out.sender_ssrc, 5);
            assert_eq!(out.media_ssrc, 6);
            assert_eq!(out.lost_packets.len(), 2);
        }
        other => panic!("unexpected packet: {other:?}"),
    }
}

#[test]
fn rtcp_detection() {
    let pli = marshal_rtcp_packets(&[RtcpPacket::PictureLossIndication(PictureLossIndication {
        sender_ssrc: 1,
        media_ssrc: 2,
    })])
    .unwrap();
    assert!(is_rtcp(&pli));
}

#[test]
fn rtp_bytes_on_the_wire() {
    let mut header = RtpHeader::new(111, 0x0102, 0x0304_0506, 0x0708_090A);
    header.marker = true;
    let packet = RtpPacket {
        header,
        payload: vec![0xAA],
        padding_len: 3,
    };
    let bytes = packet.marshal().unwrap();
    assert_eq!(
        bytes,
        vec![0xA0, 0xEF, 1, 2, 3, 4, 5, 6, 7, 8, 9, 10, 0xAA, 3, 3, 3]
    );
    assert_eq!(RtpPacket::parse(&bytes).unwrap(), packet);
}

#[test]
fn rtp_errors() {
    assert_eq!(RtpPacket::parse(&[0x80; 11]), Err(RtpError::PacketTooShort));
    assert_eq!(
        RtpPacket::parse(&[0x40; 12]),
        Err(RtpError::UnsupportedVersion(1))
    );
    let mut cut = vec![0x8F; 12];
    cut[1] = 0;
    assert_eq!(RtpPacket::parse(&cut), Err(RtpError::PacketTooShort));
    let mut header = RtpHeader::new(0, 0, 0, 0);
    header.csrcs = vec![0; 16];
    assert!(matches!(
        RtpPacket::new(header, vec![]).marshal(),
        Err(RtpError::InvalidHeader(_))
    ));
    let mut header = RtpHeader::new(0, 0, 0, 0);
    header.extension = Some(RtpHeaderExtension::new(1, vec![1, 2, 3]));
    assert!(matches!(
        RtpPacket::new(header, vec![]).marshal(),
        Err(RtpError::InvalidHeader(_))
    ));
    assert_eq!(
        RtpError::UnsupportedVersion(1).message(),
        "unsupported RTP version 1"
    );
    assert_eq!(RtpError::PacketTooShort.message(), "RTP packet too short");
}

#[test]
fn one_byte_extension_elements() {
    let mut header = RtpHeader::new(0, 0, 0, 0);
    header.extension = Some(RtpHeaderExtension::new(
        0xBEDE,
        vec![0x10, 7, 0, 0x21, b'h', b'i', 0, 0],
    ));
    assert_eq!(header.get_extension(1), Some(vec![7]));
    assert_eq!(header.get_extension(2), Some(vec![b'h', b'i']));
    assert_eq!(header.get_extension(3), None);
    header.extension = Some(RtpHeaderExtension::new(0x1000, vec![0x10, 7, 0, 0]));
    assert_eq!(header.get_extension(1), None);
}

#[test]
fn compound_rtcp_roundtrip() {
    let block = ReportBlock {
        ssrc: 9,
        fraction_lost: 3,
        packets_lost: -5,
        highest_sequence: 77,
        jitter: 4,
        last_sender_report: 5,
        delay_since_last_sender_report: 6,
    };
    let packets = vec![
        RtcpPacket::SenderReport(SenderReport {
            sender_ssrc: 1,
            ntp_most: 2,
            ntp_least: 3,
            rtp_timestamp: 4,
            packet_count: 5,
            octet_count: 6,
            report_blocks: vec![block.clone()],
        }),
        RtcpPacket::ReceiverReport(ReceiverReport {
            sender_ssrc: 8,
            report_blocks: vec![block],
        }),
        RtcpPacket::FullIntraRequest(FullIntraRequest {
            sender_ssrc: 1,
            requests: vec![FirRequest {
                ssrc: 2,
                sequence_number: 3,
            }],
        }),
        RtcpPacket::TransportWideCc(TransportWideCc {
            sender_ssrc: 1,
            media_ssrc: 2,
            base_sequence: 3,
            packet_status_count: 4,
            reference_time_64ms: 5,
            feedback_packet_count: 6,
            payload: vec![1, 2, 3, 4],
        }),
    ];
    let bytes = marshal_rtcp_packets(&packets).unwrap();
    assert!(is_rtcp(&bytes));
    assert_eq!(bytes.len() % 4, 0);
    let parsed = parse_rtcp_packets(&bytes).unwrap();
    assert_eq!(parsed, packets);
}

#[test]
fn remb_keeps_eighteen_bits() {
    let sent = RemoteBitrateEstimate {
        sender_ssrc: 1,
        bitrate_bps: 1_000_001,
        ssrcs: vec![2],
    };
    let bytes = marshal_rtcp_packets(&[RtcpPacket::RemoteBitrateEstimate(sent)]).unwrap();
    match &parse_rtcp_packets(&bytes).unwrap()[0] {
        RtcpPacket::RemoteBitrateEstimate(r) => assert_eq!(r.bitrate_bps, 1_000_000),
        other => panic!("unexpected packet: {other:?}"),
    }
}

#[test]
fn rtcp_errors() {
    assert_eq!(
        parse_rtcp_packets(&[0x40, 200, 0, 0]),
        Err(RtpError::InvalidRtcp("invalid RTCP version"))
    );
    assert_eq!(
        parse_rtcp_packets(&[0x80, 200, 0, 9]),
        Err(RtpError::LengthMismatch)
    );
    assert!(parse_rtcp_packets(&[0x80, 200, 0, 0]).is_err());
    assert!(!is_rtcp(&[0x80]));
    assert!(!is_rtcp(&[0x80, 191]));
    assert!(is_rtcp(&[0x80, 208]));
    assert!(!is_rtcp(&[0x80, 209]));
}

#[test]
fn nack_numbers_are_sorted_and_read_back() {
    let nack = RtcpPacket::GenericNack(GenericNack {
        sender_ssrc: 5,
        media_ssrc: 6,
        lost_packets: vec![300, 7, 8, 7, 24, 23],
    });
    let bytes = marshal_rtcp_packets(&[nack]).unwrap();
    match &parse_rtcp_packets(&bytes).unwrap()[0] {
        RtcpPacket::GenericNack(out) => assert_eq!(out.lost_packets, vec![7, 8, 23, 24, 300]),
        other => panic!("unexpected packet: {other:?}"),
    }
}
