use rustrtc::transports::sctp::{
    parse_packet, DataChannelState, SctpEvent, SctpState, SctpTransport, CT_COOKIE_ACK,
    CT_COOKIE_ECHO, CT_DATA, CT_HEARTBEAT, CT_HEARTBEAT_ACK, CT_INIT, CT_INIT_ACK, CT_SACK,
};

#[test]
fn the_association_is_established_by_its_peer() {
    let mut sctp = SctpTransport::new();
    assert_eq!(sctp.state, SctpState::New);
    sctp.start();
    assert_eq!(sctp.state, SctpState::Connecting);
    assert_eq!(sctp.create_data_channel("chat", 0), 0);
    assert_eq!(sctp.channels[0].state, DataChannelState::Connecting);

    let mut init = vec![0u8; 16];
    init[3] = 77;
    let peer = SctpTransport::new();
    let packet = peer.send_chunk(CT_INIT, 0, &init, 0);
    let chunks = parse_packet(&packet);
    assert_eq!(chunks.len(), 1);
    let answer = sctp.answer(&chunks[0]).unwrap();
    assert!(sctp.complete_chunk(&chunks[0]).is_none());
    let reply = parse_packet(&answer);
    assert_eq!(reply[0].chunk_type, CT_INIT_ACK);
    assert_eq!(answer[4..8], [0, 0, 0, 77]);

    let packet = peer.send_chunk(CT_COOKIE_ECHO, 0, b"dummy_cookie", 12345);
    let chunks = parse_packet(&packet);
    let answer = sctp.answer(&chunks[0]).unwrap();
    assert_eq!(parse_packet(&answer)[0].chunk_type, CT_COOKIE_ACK);
    assert!(matches!(
        sctp.complete_chunk(&chunks[0]),
        Some(SctpEvent::Opened)
    ));
    assert_eq!(sctp.state, SctpState::Connected);
    assert_eq!(sctp.channels[0].state, DataChannelState::Open);

    let packet = peer.send_chunk(CT_HEARTBEAT, 0, b"beat", 12345);
    let chunks = parse_packet(&packet);
    let answer = sctp.answer(&chunks[0]).unwrap();
    let reply = parse_packet(&answer);
    assert_eq!(reply[0].chunk_type, CT_HEARTBEAT_ACK);
    assert_eq!(reply[0].value, b"beat");

    sctp.close();
    assert_eq!(sctp.state, SctpState::Closed);
}

#[test]
fn data_reaches_the_channel_of_its_stream() {
    let mut receiver = SctpTransport::new();
    receiver.create_data_channel("first", 0);
    let sender = SctpTransport::new();
    let packet = sender.send_data(0, b"payload");
    let chunks = parse_packet(&packet);
    assert_eq!(chunks[0].chunk_type, CT_DATA);
    assert_eq!(chunks[0].flags, 3);
    let answer = receiver.answer(&chunks[0]).unwrap();
    assert_eq!(parse_packet(&answer)[0].chunk_type, CT_SACK);
    match receiver.complete_chunk(&chunks[0]) {
        Some(SctpEvent::Message(index, data)) => {
            assert_eq!(index, 0);
            assert_eq!(data, b"payload");
        }
        other => panic!("unexpected event: {other:?}"),
    }
    let mut elsewhere = SctpTransport::new();
    elsewhere.create_data_channel("other", 9);
    assert!(elsewhere.complete_chunk(&chunks[0]).is_none());
}

#[test]
fn the_checksum_of_a_packet() {
    let sctp = SctpTransport::new();
    let mut packet = sctp.send_chunk(CT_COOKIE_ACK, 0, &[], 0x0102_0304);
    let stored = u32::from_le_bytes([packet[8], packet[9], packet[10], packet[11]]);
    for byte in packet[8..12].iter_mut() {
        *byte = 0;
    }
    assert_eq!(stored, crc32c::crc32c(&packet));
    assert_eq!(packet[..8], [0x13, 0x88, 0x13, 0x88, 1, 2, 3, 4]);
}

#[test]
fn chunks_that_are_cut_off_are_not_read() {
    assert!(parse_packet(&[0; 11]).is_empty());
    let sctp = SctpTransport::new();
    let packet = sctp.send_chunk(CT_HEARTBEAT, 0, b"four", 0);
    assert!(parse_packet(&packet[..packet.len() - 1]).is_empty());
}
