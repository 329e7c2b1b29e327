use rustrtc::transports::ice::stun::{
    crc32_of, random_transaction, StunAttribute, StunClass, StunError, StunMessage, StunMethod,
};
use rustrtc::transports::ice::{IpAddr, SocketAddr};
use stun::attributes::{ATTR_SOFTWARE, ATTR_USERNAME};
use stun::integrity::MessageIntegrity;
use stun::message::{Getter, Message, BINDING_REQUEST};
use stun::textattrs::{Software, Username};
use stun::xoraddr::XorMappedAddress;

#[test]
fn compare_stun_encoding() {
    let tx_id = [1u8; 12];
    let username = "remote:local";
    let password = "password";
    let priority = 12345;
    let controlling = 999;

    let mut msg = StunMessage::binding_request(tx_id, Some("rustrtc"));
    msg.attributes
        .push(StunAttribute::Username(username.to_string()));
    msg.attributes.push(StunAttribute::Priority(priority));
    msg.attributes
        .push(StunAttribute::IceControlling(controlling));

    let rust_bytes = msg.encode(Some(password.as_bytes()), true).unwrap();

    let mut w_msg = Message::new();
    w_msg
        .build(&[
            Box::new(BINDING_REQUEST),
            Box::new(Software::new(ATTR_SOFTWARE, "rustrtc".to_string())),
            Box::new(Username::new(ATTR_USERNAME, username.to_string())),
            Box::new(MessageIntegrity::new_short_term_integrity(
                password.to_string(),
            )),
        ])
        .unwrap();
    w_msg.raw[8..20].copy_from_slice(&tx_id);
    println!("RustRTC bytes: {:02x?}", rust_bytes);

    // The software and the user name come first in both.
    assert_eq!(rust_bytes[..2], w_msg.raw[..2]);
    assert_eq!(rust_bytes[4..48], w_msg.raw[4..48]);
}

#[test]
fn test_stun_encoding_compatibility() {
    let tx_id = [1u8, 2, 3, 4, 5, 6, 7, 8, 9, 10, 11, 12];
    let mut msg = StunMessage::binding_request(tx_id, Some("rustrtc"));

    msg.attributes
        .push(StunAttribute::Username("8u0s:h654".to_string()));
    msg.attributes.push(StunAttribute::Priority(1869119103));
    msg.attributes
        .push(StunAttribute::IceControlled(12977805629827341886));

    let addr = SocketAddr::new(IpAddr::V4(u32::from_be_bytes([192, 168, 1, 1])), 1234);
    msg.attributes.push(StunAttribute::XorMappedAddress(addr));

    let password = "password";
    let encoded = msg
        .encode(Some(password.as_bytes()), true)
        .expect("failed to encode");

    let mut other_msg = Message::new();
    let buf = encoded.clone();
    other_msg
        .unmarshal_binary(&buf)
        .expect("failed to unmarshal with webrtc");

    assert_eq!(other_msg.typ, BINDING_REQUEST);
    assert_eq!(other_msg.transaction_id.0, tx_id);

    let integrity = MessageIntegrity::new_short_term_integrity(password.to_string());
    match integrity.check(&mut other_msg) {
        Ok(_) => println!("Integrity check passed"),
        Err(e) => {
            println!("Integrity check failed: {:?}", e);
            println!("Encoded buffer: {:?}", encoded);
            panic!("Integrity mismatch");
        }
    }

    let mut xor_addr = XorMappedAddress::default();
    match xor_addr.get_from(&other_msg) {
        Ok(_) => {
            println!("Got address: IP={}, Port={}", xor_addr.ip, xor_addr.port);
            assert_eq!(xor_addr.ip.to_string(), "192.168.1.1");
            assert_eq!(xor_addr.port, 1234);
        }
        Err(e) => panic!("Failed to get XorMappedAddress: {}", e),
    }
    assert!(stun::fingerprint::FINGERPRINT.check(&other_msg).is_ok());
}

#[test]
fn checksum_of_a_known_text() {
    assert_eq!(crc32_of(b"123456789"), 0xCBF4_3926);
    assert_eq!(crc32_of(b""), 0);
}

#[test]
fn a_message_is_read_back() {
    let tx = random_transaction();
    let msg = StunMessage {
        class: StunClass::Indication,
        method: StunMethod::Data,
        transaction_id: tx,
        attributes: vec![
            StunAttribute::XorPeerAddress(SocketAddr::new(IpAddr::V4(1), 2)),
            StunAttribute::Data(vec![1, 2, 3]),
            StunAttribute::Realm("realm".to_string()),
            StunAttribute::Nonce("nonce".to_string()),
        ],
    };
    let bytes = msg.encode(Some(b"key"), true).unwrap();
    let d = StunMessage::decode(&bytes).unwrap();
    assert_eq!((d.class, d.method), (StunClass::Indication, StunMethod::Data));
    assert_eq!(d.transaction_id, tx);
    assert_eq!(
        d.xor_peer_address,
        Some(SocketAddr::new(IpAddr::V4(1), 2))
    );
    assert_eq!(d.data, Some(vec![1, 2, 3]));
    assert_eq!(d.realm.as_deref(), Some("realm"));
    assert_eq!(d.nonce.as_deref(), Some("nonce"));
    assert_eq!(d.error_code, None);
}

#[test]
fn messages_that_cannot_be_read_or_written() {
    assert_eq!(StunMessage::decode(&[0; 19]), Err(StunError::Truncated));
    assert_eq!(StunMessage::decode(&[0; 20]), Err(StunError::NotStun));
    let mut bytes = StunMessage::binding_request([0; 12], None)
        .encode(None, true)
        .unwrap();
    assert_eq!(
        StunMessage::decode(&bytes[..24]),
        Err(StunError::Truncated)
    );
    bytes[1] = 2;
    assert_eq!(StunMessage::decode(&bytes), Err(StunError::UnknownMethod));
    let long = StunMessage {
        class: StunClass::Request,
        method: StunMethod::Send,
        transaction_id: [0; 12],
        attributes: vec![StunAttribute::Data(vec![0; 65536])],
    };
    assert_eq!(long.encode(None, false), Err(StunError::TooLong));
    assert_eq!(StunError::NotStun.message(), "not a STUN message");
}

#[test]
fn error_codes() {
    // 401 in an error response to an allocation, with a realm.
    let mut bytes = vec![0x01, 0x13, 0, 16, 0x21, 0x12, 0xA4, 0x42];
    bytes.extend([7u8; 12]);
    bytes.extend([0, 9, 0, 4, 0, 0, 4, 1]);
    bytes.extend([0, 0x14, 0, 2, b'o', b'k', 0, 0]);
    let d = StunMessage::decode(&bytes).unwrap();
    assert_eq!(d.class, StunClass::ErrorResponse);
    assert_eq!(d.method, StunMethod::Allocate);
    assert_eq!(d.error_code, Some(401));
    assert_eq!(d.realm.as_deref(), Some("ok"));
}
