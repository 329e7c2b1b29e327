use bytes::{Bytes, BytesMut};
use rustrtc::transports::dtls::certificate::to_colon_hex;
use rustrtc::transports::dtls::handshake::{
    ClientHello, HandshakeMessage, HandshakeType, Random, ServerHello,
};
use rustrtc::transports::dtls::keys::{
    decrypt_record, encrypt_record, expand_keys, make_aad, prf_sha256,
};
use rustrtc::transports::dtls::record::{ContentType, DtlsRecord, ProtocolVersion};
use rustrtc::transports::dtls::session::fresh_random;
use rustrtc::transports::dtls::{
    fingerprint, generate_certificate, DtlsAction, DtlsError, DtlsState, DtlsTransport,
};

#[test]
fn test_dtls_record_encode_decode() {
    let record = DtlsRecord {
        content_type: ContentType::Handshake,
        version: ProtocolVersion::dtls_1_2(),
        epoch: 1,
        sequence_number: 12345,
        payload: Bytes::from_static(b"hello world"),
    };

    let mut buf = BytesMut::new();
    record.encode(&mut buf);

    let mut decode_buf = buf.freeze();
    let decoded = DtlsRecord::decode(&mut decode_buf).unwrap().unwrap();

    assert_eq!(decoded.content_type, record.content_type);
    assert_eq!(decoded.version, record.version);
    assert_eq!(decoded.epoch, record.epoch);
    assert_eq!(decoded.sequence_number, record.sequence_number);
    assert_eq!(decoded.payload, record.payload);
}

#[test]
fn records_that_are_not_all_there() {
    let mut short = Bytes::from_static(&[22, 254, 253]);
    assert!(DtlsRecord::decode(&mut short).unwrap().is_none());
    assert_eq!(short.len(), 3);
    let mut cut = Bytes::from_static(&[22, 254, 253, 0, 0, 0, 0, 0, 0, 0, 0, 0, 5, 1]);
    assert!(DtlsRecord::decode(&mut cut).unwrap().is_none());
    let mut unknown = Bytes::from_static(&[99, 254, 253, 0, 0, 0, 0, 0, 0, 0, 0, 0, 0]);
    assert!(matches!(
        DtlsRecord::decode(&mut unknown),
        Err(DtlsError::InvalidContentType(99))
    ));
    assert_eq!(
        DtlsError::InvalidContentType(99).message(),
        "Invalid ContentType: 99"
    );
}

#[test]
fn record_protection_roundtrip() {
    let key = [7u8; 16];
    let iv = [9u8; 4];
    let version = ProtocolVersion::dtls_1_2();
    let sealed = encrypt_record(
        ContentType::ApplicationData,
        version,
        (1u64 << 48) + 5,
        b"attack at dawn",
        &key,
        &iv,
    )
    .unwrap();
    assert_eq!(sealed.len(), 8 + 14 + 16);
    assert_ne!(&sealed[8..22], b"attack at dawn");
    let opened = decrypt_record(
        ContentType::ApplicationData,
        version,
        (1u64 << 48) + 5,
        &sealed,
        &key,
        &iv,
    )
    .unwrap();
    assert_eq!(opened, b"attack at dawn");
    assert!(matches!(
        decrypt_record(ContentType::ApplicationData, version, 6, &sealed, &key, &iv),
        Err(DtlsError::DecryptionFailed)
    ));
    assert!(matches!(
        decrypt_record(ContentType::Alert, version, 6, &[0; 7], &key, &iv),
        Err(DtlsError::RecordTooShort)
    ));
    assert!(matches!(
        decrypt_record(ContentType::Alert, version, 6, &[0; 20], &key, &iv),
        Err(DtlsError::CiphertextTooShort)
    ));
}

#[test]
fn associated_data_layout() {
    let aad = make_aad(
        0x0102_0304_0506_0708,
        ContentType::ApplicationData,
        ProtocolVersion::dtls_1_2(),
        0x0A0B,
    );
    assert_eq!(
        aad.to_vec(),
        vec![1, 2, 3, 4, 5, 6, 7, 8, 23, 254, 253, 0x0A, 0x0B]
    );
}

#[test]
fn prf_of_a_known_vector() {
    let secret = [
        0x9b, 0xbe, 0x43, 0x6b, 0xa9, 0x40, 0xf0, 0x17, 0xb1, 0x76, 0x52, 0x84, 0x9a, 0x71, 0xdb,
        0x35,
    ];
    let seed = [
        0xa0, 0xba, 0x9f, 0x93, 0x6c, 0xda, 0x31, 0x18, 0x27, 0xa6, 0xf7, 0x96, 0xff, 0xd5, 0x19,
        0x8c,
    ];
    let out = prf_sha256(&secret, b"test label", &seed, 100);
    assert_eq!(out.len(), 100);
    assert_eq!(
        out[..16],
        [
            0xe3, 0xf2, 0x29, 0xba, 0x72, 0x7b, 0xe1, 0x7b, 0x8d, 0x12, 0x26, 0x20, 0x55, 0x7c,
            0xd4, 0x53
        ]
    );
    let keys = expand_keys(&secret, &seed, &seed);
    assert_eq!(keys.client_write_key.len(), 16);
    assert_eq!(keys.server_write_iv.len(), 4);
}

#[test]
fn fingerprints() {
    assert_eq!(to_colon_hex(&[0x0A, 0xFF, 0x00]), "0A:FF:00");
    let certificate = generate_certificate().unwrap();
    let text = fingerprint(&certificate);
    assert_eq!(text.len(), 32 * 3 - 1);
    assert_eq!(text.chars().filter(|c| *c == ':').count(), 31);
    let other = generate_certificate().unwrap();
    assert_ne!(text, fingerprint(&other));
}

#[test]
fn handshake_messages_read_back() {
    let hello = ClientHello {
        version: ProtocolVersion::dtls_1_2(),
        random: Random {
            gmt_unix_time: 17,
            random_bytes: vec![3; 28],
        },
        session_id: vec![1, 2],
        cookie: vec![4],
        cipher_suites: vec![0xC02B],
        compression_methods: vec![0],
        extensions: vec![0, 1, 2],
    };
    let message = HandshakeMessage::whole(HandshakeType::ClientHello, 5, hello.encode());
    let bytes = message.encode();
    let (decoded, len) = HandshakeMessage::decode(&bytes).unwrap().unwrap();
    assert_eq!(len, bytes.len());
    assert_eq!(decoded.msg_type, HandshakeType::ClientHello);
    assert_eq!(decoded.message_seq, 5);
    let back = ClientHello::decode(&decoded.body).unwrap();
    assert_eq!(back.session_id, vec![1, 2]);
    assert_eq!(back.cookie, vec![4]);
    assert_eq!(back.cipher_suites, vec![0xC02B]);
    assert_eq!(back.random.random_bytes, vec![3; 28]);

    let answer = ServerHello {
        version: ProtocolVersion::dtls_1_2(),
        random: Random {
            gmt_unix_time: 18,
            random_bytes: vec![4; 28],
        },
        session_id: vec![],
        cipher_suite: 0xC02B,
        compression_method: 0,
        extensions: vec![],
    };
    let back = ServerHello::decode(&answer.encode()).unwrap();
    assert_eq!(back.cipher_suite, 0xC02B);
    assert_eq!(back.random.gmt_unix_time, 18);
}

fn sent(actions: &[DtlsAction]) -> Vec<Vec<u8>> {
    let mut out = Vec::new();
    for action in actions {
        if let DtlsAction::Send(datagram) = action {
            out.push(datagram.clone());
        }
    }
    out
}

fn delivered(actions: &[DtlsAction]) -> Vec<Vec<u8>> {
    let mut out = Vec::new();
    for action in actions {
        if let DtlsAction::Deliver(data) = action {
            out.push(data.clone());
        }
    }
    out
}

fn connect() -> (DtlsTransport, DtlsTransport) {
    let mut client = DtlsTransport::new(generate_certificate().unwrap(), true);
    let mut server = DtlsTransport::new(generate_certificate().unwrap(), false);
    assert!(sent(&server.start(fresh_random(1))).is_empty());
    let mut to_server = sent(&client.start(fresh_random(1)));
    assert_eq!(client.retransmit(), Some(to_server[0].clone()));
    for _ in 0..6 {
        let mut to_client = Vec::new();
        for datagram in to_server.drain(..) {
            let (actions, result) = server.handle_datagram(datagram, 2);
            result.unwrap();
            to_client.extend(sent(&actions));
        }
        for datagram in to_client {
            let (actions, result) = client.handle_datagram(datagram, 2);
            result.unwrap();
            to_server.extend(sent(&actions));
        }
    }
    (client, server)
}

#[test]
fn client_and_server_connect_and_talk() {
    let (mut client, mut server) = connect();
    assert!(matches!(client.state(), DtlsState::Connected(_)));
    assert!(matches!(server.state(), DtlsState::Connected(_)));
    assert!(client.is_client());

    let datagram = client.send(b"hello world").unwrap();
    let (actions, result) = server.handle_datagram(datagram.clone(), 3);
    result.unwrap();
    assert_eq!(delivered(&actions), vec![b"hello world".to_vec()]);

    let mut forged = datagram;
    let last = forged.len() - 1;
    forged[last] ^= 1;
    let (actions, _) = server.handle_datagram(forged, 3);
    assert!(delivered(&actions).is_empty());

    let datagram = server.send(b"echo").unwrap();
    let (actions, result) = client.handle_datagram(datagram, 3);
    result.unwrap();
    assert_eq!(delivered(&actions), vec![b"echo".to_vec()]);

    let label = "EXTRACTOR-dtls_srtp";
    let ours = client.export_keying_material(label, 60).unwrap();
    let theirs = server.export_keying_material(label, 60).unwrap();
    assert_eq!(ours.len(), 60);
    assert_eq!(ours, theirs);
}

#[test]
fn nothing_is_sent_before_the_keys_are_known() {
    let mut client = DtlsTransport::new(generate_certificate().unwrap(), true);
    assert_eq!(client.send(b"early"), None);
    assert!(matches!(
        client.export_keying_material("EXTRACTOR-dtls_srtp", 60),
        Err(DtlsError::NotConnected)
    ));
    client.fail();
    assert!(matches!(client.state(), DtlsState::Failed));
}

#[test]
fn secrets_that_are_no_keys() {
    let certificate = generate_certificate().unwrap();
    assert!(DtlsTransport::with_secret(certificate.clone(), true, vec![0; 32]).is_none());
    assert!(DtlsTransport::with_secret(certificate, true, vec![1; 32]).is_some());
}

#[test]
fn protocol_versions_have_their_numbers() {
    let old = ProtocolVersion::dtls_1_0();
    assert_eq!((old.major, old.minor), (254, 255));
    let new = ProtocolVersion::dtls_1_2();
    assert_eq!((new.major, new.minor), (254, 253));
}
