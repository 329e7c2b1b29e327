use rustrtc::transports::ice::stun::{StunAttribute, StunClass, StunMessage, StunMethod};
use rustrtc::transports::ice::turn::{
    long_term_key, relayed_data, TurnCredentials, TurnError, TurnPermission, TurnStep,
};
use rustrtc::transports::ice::{IceTransportProtocol, IpAddr, SocketAddr, TurnClient};
use rustrtc::{IceCredentialType, IceServer};

const TEST_USERNAME: &str = "test";
const TEST_PASSWORD: &str = "test";

fn server() -> IceServer {
    IceServer::new(vec!["turn:127.0.0.1:3478".to_string()])
        .with_credential(TEST_USERNAME.to_string(), TEST_PASSWORD.to_string())
}

fn peer() -> SocketAddr {
    SocketAddr::new(IpAddr::V4(0x7F00_0001), 5000)
}

/// A response of a server: its header and attributes, each padded.
fn response(kind: [u8; 2], tx: [u8; 12], attributes: &[(u16, Vec<u8>)]) -> Vec<u8> {
    let mut body = Vec::new();
    for (typ, value) in attributes {
        body.extend(typ.to_be_bytes());
        body.extend((value.len() as u16).to_be_bytes());
        body.extend(value);
        while body.len() % 4 != 0 {
            body.push(0);
        }
    }
    let mut out = kind.to_vec();
    out.extend((body.len() as u16).to_be_bytes());
    out.extend(0x2112_A442u32.to_be_bytes());
    out.extend(tx);
    out.extend(body);
    out
}

fn challenge(kind: [u8; 2], tx: [u8; 12], nonce: &str) -> Vec<u8> {
    response(
        kind,
        tx,
        &[
            (9, vec![0, 0, 4, 1]),
            (0x14, b"realm".to_vec()),
            (0x15, nonce.as_bytes().to_vec()),
        ],
    )
}

fn relayed(tx: [u8; 12]) -> Vec<u8> {
    response([1, 3], tx, &[(0x16, vec![0, 1, 0x21, 0x12 ^ 9, 0x21 ^ 7, 0x12, 0xA4, 0x42])])
}

fn allocated() -> TurnClient {
    let mut client = TurnClient::new(IceTransportProtocol::Udp);
    let mut run = client.allocate(TurnCredentials::from_server(&server()).unwrap());
    run.request([1; 12]).unwrap();
    assert_eq!(
        client.allocate_response(&mut run, &challenge([1, 0x13], [1; 12], "n")),
        TurnStep::Again
    );
    run.request([2; 12]).unwrap();
    assert!(matches!(
        client.allocate_response(&mut run, &relayed([2; 12])),
        TurnStep::Done(_)
    ));
    client
}

#[test]
fn credentials_of_a_server() {
    let creds = TurnCredentials::from_server(&server()).unwrap();
    assert_eq!(creds.username, "test");
    let mut other = server();
    other.credential_type = IceCredentialType::Oauth;
    assert_eq!(
        TurnCredentials::from_server(&other),
        Err(TurnError::NotPassword)
    );
    let mut other = server();
    other.username = None;
    assert_eq!(
        TurnCredentials::from_server(&other),
        Err(TurnError::MissingUsername)
    );
    let mut other = server();
    other.credential = None;
    assert_eq!(
        TurnCredentials::from_server(&other),
        Err(TurnError::MissingCredential)
    );
}

#[test]
fn key_of_a_known_user() {
    // From RFC 5389, section 15.4.
    assert_eq!(
        long_term_key("user", "realm", "pass"),
        vec![
            0x84, 0x93, 0xfb, 0xc5, 0x3b, 0xa5, 0x82, 0xfb, 0x4c, 0x04, 0x4c, 0x45, 0x6b, 0xdc,
            0x40, 0xeb
        ]
    );
}

#[test]
fn an_allocation_answers_a_challenge() {
    let mut client = TurnClient::new(IceTransportProtocol::Udp);
    let mut run = client.allocate(TurnCredentials::from_server(&server()).unwrap());
    let first = run.request([1; 12]).unwrap();
    let decoded = StunMessage::decode(&first).unwrap();
    assert_eq!(decoded.method, StunMethod::Allocate);
    assert_eq!(decoded.realm, None);
    assert_eq!(
        client.allocate_response(&mut run, &challenge([1, 0x13], [1; 12], "n1")),
        TurnStep::Again
    );
    let second = run.request([2; 12]).unwrap();
    let decoded = StunMessage::decode(&second).unwrap();
    assert_eq!(decoded.class, StunClass::Request);
    assert_eq!(decoded.realm.as_deref(), Some("realm"));
    assert_eq!(decoded.nonce.as_deref(), Some("n1"));
    // A stray packet of another transaction is passed over.
    assert_eq!(
        client.allocate_response(&mut run, &relayed([9; 12])),
        TurnStep::Again
    );
    run.request([3; 12]).unwrap();
    match client.allocate_response(&mut run, &relayed([3; 12])) {
        TurnStep::Done(a) => {
            assert_eq!(a.relayed_address, SocketAddr::new(IpAddr::V4(0x0700_0000), 9));
            assert_eq!(a.transport, IceTransportProtocol::Udp);
        }
        other => panic!("unexpected: {other:?}"),
    }
    let auth = client.auth.clone().unwrap();
    assert_eq!(auth.nonce, "n1");
    assert_eq!(auth.key, long_term_key("test", "realm", "test"));
    assert_eq!(run.request([4; 12]), Err(TurnError::AllocationRetries));
}

#[test]
fn allocations_that_fail() {
    let mut client = TurnClient::new(IceTransportProtocol::Tcp);
    let mut run = client.allocate(TurnCredentials::from_server(&server()).unwrap());
    run.request([1; 12]).unwrap();
    let tx = [1; 12];
    assert_eq!(
        client.allocate_response(&mut run, &response([1, 1], tx, &[])),
        TurnStep::Failed(TurnError::AllocationMethod)
    );
    assert_eq!(
        client.allocate_response(&mut run, &response([1, 3], tx, &[])),
        TurnStep::Failed(TurnError::NoRelayedAddress)
    );
    assert_eq!(
        client.allocate_response(
            &mut run,
            &response([1, 0x13], tx, &[(9, vec![0, 0, 4, 38])])
        ),
        TurnStep::Failed(TurnError::MissingRealm)
    );
    assert_eq!(
        client.allocate_response(
            &mut run,
            &response([1, 0x13], tx, &[(9, vec![0, 0, 4, 38]), (0x14, vec![b'r'])])
        ),
        TurnStep::Failed(TurnError::MissingNonce)
    );
    assert_eq!(
        client.allocate_response(&mut run, &response([1, 0x13], tx, &[(9, vec![0, 0, 5, 0])])),
        TurnStep::Failed(TurnError::AllocationRefused(500))
    );
    assert_eq!(
        client.allocate_response(&mut run, &response([0, 3], tx, &[])),
        TurnStep::Failed(TurnError::ResponseClass)
    );
    assert!(matches!(
        client.allocate_response(&mut run, &[]),
        TurnStep::Failed(TurnError::Stun(_))
    ));
    assert_eq!(
        TurnError::AllocationRefused(500).message(),
        "TURN allocate error 500"
    );
}

#[test]
fn turn_client_can_create_permission() {
    let mut client = allocated();
    let mut run = TurnPermission {
        peer: peer(),
        attempts: 0,
        transaction_id: [0; 12],
    };
    let packet = client.permission_request(&mut run, [5; 12]).unwrap();
    let decoded = StunMessage::decode(&packet).unwrap();
    assert_eq!(decoded.method, StunMethod::CreatePermission);
    assert_eq!(decoded.xor_peer_address, Some(peer()));
    assert_eq!(
        client.permission_response(&run, &challenge([1, 0x18], [5; 12], "fresh")),
        TurnStep::Again
    );
    assert_eq!(client.auth.as_ref().unwrap().nonce, "fresh");
    client.permission_request(&mut run, [6; 12]).unwrap();
    assert_eq!(
        client.permission_response(&run, &response([1, 8], [6; 12], &[])),
        TurnStep::Done(())
    );
    client.permission_request(&mut run, [7; 12]).unwrap();
    assert_eq!(
        client.permission_response(&run, &response([1, 3], [7; 12], &[])),
        TurnStep::Failed(TurnError::PermissionMethod)
    );
    assert_eq!(
        client.permission_response(
            &run,
            &response([1, 0x18], [7; 12], &[(9, vec![0, 0, 4, 3])])
        ),
        TurnStep::Failed(TurnError::PermissionRefused(403))
    );
    assert_eq!(
        client.permission_request(&mut run, [8; 12]),
        Err(TurnError::PermissionRetries)
    );
}

#[test]
fn permissions_need_an_allocation() {
    let client = TurnClient::new(IceTransportProtocol::Udp);
    let mut run = TurnPermission {
        peer: peer(),
        attempts: 0,
        transaction_id: [0; 12],
    };
    assert_eq!(
        client.permission_request(&mut run, [5; 12]),
        Err(TurnError::MissingAuth)
    );
    assert_eq!(
        client.create_permission_packet(peer(), [5; 12]),
        Err(TurnError::NoAuth)
    );
    assert_eq!(TurnError::NoAuth.message(), "no auth");
}

#[test]
fn data_for_a_peer() {
    let client = TurnClient::new(IceTransportProtocol::Tcp);
    let packet = client.send_indication(peer(), b"data", [5; 12]).unwrap();
    let decoded = StunMessage::decode(&packet).unwrap();
    assert_eq!(decoded.class, StunClass::Indication);
    assert_eq!(decoded.data, Some(b"data".to_vec()));
    assert_eq!(decoded.xor_peer_address, Some(peer()));
    let signed = allocated().send_indication(peer(), b"data", [5; 12]).unwrap();
    assert!(signed.len() > packet.len());
    let frame = client.frame(b"abc");
    assert_eq!(frame, vec![0, 3, b'a', b'b', b'c']);
    assert_eq!(TurnClient::new(IceTransportProtocol::Udp).frame(b"abc"), b"abc");
}

#[test]
fn data_from_a_peer() {
    let msg = StunMessage {
        class: StunClass::Indication,
        method: StunMethod::Data,
        transaction_id: [1; 12],
        attributes: vec![
            StunAttribute::XorPeerAddress(peer()),
            StunAttribute::Data(b"hi".to_vec()),
        ],
    };
    let packet = msg.encode(None, false).unwrap();
    assert_eq!(relayed_data(&packet), Some((b"hi".to_vec(), peer())));
    let msg = StunMessage {
        class: StunClass::Indication,
        method: StunMethod::Send,
        ..msg
    };
    assert_eq!(relayed_data(&msg.encode(None, false).unwrap()), None);
    assert_eq!(relayed_data(b"no"), None);
}
