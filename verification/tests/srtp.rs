use rustrtc::errors::SrtpError;
use rustrtc::rtp::{RtpHeader, RtpPacket};
use rustrtc::{SrtpContext, SrtpDirection, SrtpKeyingMaterial, SrtpProfile, SrtpSession};

fn sample_packet(seq: u16) -> RtpPacket {
    let header = RtpHeader::new(96, seq, 1234, 0xdead_beef);
    RtpPacket::new(header, vec![1, 2, 3])
}

fn material() -> SrtpKeyingMaterial {
    SrtpKeyingMaterial::new(vec![0; 16], vec![0; 14])
}

#[test]
fn protect_and_unprotect_roundtrip() {
    let mut session =
        SrtpSession::new(0xdead_beef, SrtpProfile::Aes128Sha1_80, material()).unwrap();
    let mut packet = sample_packet(1);
    let original = packet.payload.clone();
    session.protect_rtp(&mut packet).unwrap();
    assert_eq!(packet.payload.len(), original.len() + 10);
    assert_ne!(packet.payload[..original.len()], original[..]);
    session.unprotect_rtp(&mut packet).unwrap();
    assert_eq!(packet.payload, original);
}

#[test]
fn protect_and_unprotect_roundtrip_gcm() {
    let mut session =
        SrtpSession::new(0xdead_beef, SrtpProfile::AeadAes128Gcm, material()).unwrap();
    let mut packet = sample_packet(1);
    let original = packet.payload.clone();
    session.protect_rtp(&mut packet).unwrap();
    assert_eq!(packet.payload.len(), original.len() + 16);
    assert_ne!(packet.payload[..original.len()], original[..]);
    session.unprotect_rtp(&mut packet).unwrap();
    assert_eq!(packet.payload, original);
}

#[test]
fn authentication_failure_returns_error() {
    let mut ctx = SrtpContext::new(
        42,
        SrtpProfile::Aes128Sha1_80,
        material(),
        SrtpDirection::Receiver,
    )
    .unwrap();
    let mut packet = sample_packet(1);
    ctx.protect(&mut packet).unwrap();
    packet.payload[0] ^= 0xFF;
    let err = ctx.unprotect(&mut packet).unwrap_err();
    assert!(matches!(err, SrtpError::AuthenticationFailed));
}

#[test]
fn null_cipher_still_authenticates() {
    let mut ctx = SrtpContext::new(
        7,
        SrtpProfile::NullCipherHmac,
        material(),
        SrtpDirection::Sender,
    )
    .unwrap();
    let mut packet = sample_packet(10);
    ctx.protect(&mut packet).unwrap();
    assert_eq!(packet.payload.len(), 3 + 10);
    assert_eq!(packet.payload[..3], [1, 2, 3]);
    assert_eq!(ctx.ssrc(), 7);
    assert_eq!(ctx.direction(), SrtpDirection::Sender);
}

#[test]
fn short_tags_of_the_32_bit_profile() {
    let mut session = SrtpSession::new(1, SrtpProfile::Aes128Sha1_32, material()).unwrap();
    let mut packet = sample_packet(5);
    session.protect_rtp(&mut packet).unwrap();
    assert_eq!(packet.payload.len(), 3 + 4);
    session.unprotect_rtp(&mut packet).unwrap();
    assert_eq!(packet.payload, vec![1, 2, 3]);
}

#[test]
fn unsuitable_keys_and_short_packets() {
    let short = SrtpKeyingMaterial::new(vec![0; 15], vec![0; 14]);
    assert!(matches!(
        SrtpSession::new(1, SrtpProfile::Aes128Sha1_80, short),
        Err(SrtpError::UnsupportedProfile)
    ));
    let mut session = SrtpSession::new(1, SrtpProfile::AeadAes128Gcm, material()).unwrap();
    let mut packet = sample_packet(1);
    assert!(matches!(
        session.unprotect_rtp(&mut packet),
        Err(SrtpError::PacketTooShort)
    ));
    assert_eq!(
        SrtpError::PacketTooShort.message(),
        "SRTP packet too short"
    );
}

#[test]
fn rollover_changes_the_keystream() {
    let mut tx =
        SrtpContext::new(1, SrtpProfile::Aes128Sha1_80, material(), SrtpDirection::Sender).unwrap();
    let mut first = sample_packet(2);
    tx.protect(&mut first).unwrap();
    let mut far = sample_packet(60000);
    tx.protect(&mut far).unwrap();
    let mut again = sample_packet(2);
    tx.protect(&mut again).unwrap();
    assert_ne!(first.payload, again.payload);
}
