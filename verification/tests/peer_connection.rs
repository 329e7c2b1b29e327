use rustrtc::config::{
    ApplicationCapability, AudioCapability, MediaCapabilities, VideoCapability,
};
use rustrtc::peer_connection::connection::{supervise, Supervision};
use rustrtc::peer_connection::remote::RemotePlan;
use rustrtc::peer_connection::{IceConnectionState, IceGatheringState};
use rustrtc::sdp::SessionDescription;
use rustrtc::transports::dtls::{fingerprint, generate_certificate};
use rustrtc::transports::ice::{IpAddr, SocketAddr};
use rustrtc::transports::sctp::SctpTransport;
use rustrtc::{
    Direction, IceRole, IceTransport, IceTransportState, MediaKind, MediaSection, PeerConnection,
    PeerConnectionState, RtcConfiguration, RtcError, SdpType, SignalingState,
    TransceiverDirection, TransportMode,
};

const AUDIO_PAYLOAD_TYPE: &str = "111";
const VIDEO_PAYLOAD_TYPE: &str = "96";
const SCTP_FORMAT: &str = "webrtc-datachannel";
const SCTP_PORT: u16 = 5000;

fn gathered(config: RtcConfiguration) -> (PeerConnection, IceTransport) {
    let mut ice = IceTransport::new(config.clone());
    assert!(ice.start_gathering());
    ice.gather_host_candidates(4000, None);
    ice.finish_gathering();
    (PeerConnection::new(config).unwrap(), ice)
}

fn has(section: &MediaSection, key: &str) -> bool {
    section.attributes.iter().any(|a| a.key == key)
}

fn value<'a>(section: &'a MediaSection, key: &str) -> &'a str {
    section
        .attributes
        .iter()
        .find(|a| a.key == key)
        .and_then(|a| a.value.as_deref())
        .unwrap_or("")
}

fn offer(pc: &mut PeerConnection, ice: &mut IceTransport) -> SessionDescription {
    pc.start_offer(ice).unwrap();
    pc.create_offer(ice, 1000).unwrap()
}

#[test]
fn create_offer_contains_transceiver() {
    let (mut pc, mut ice) = gathered(RtcConfiguration::default());
    pc.add_transceiver(MediaKind::Audio, TransceiverDirection::SendRecv, 1);
    let offer = offer(&mut pc, &mut ice);
    assert_eq!(ice.role(), IceRole::Controlling);
    assert_eq!(offer.media_sections.len(), 1);
    let section = &offer.media_sections[0];
    assert_eq!(section.kind, MediaKind::Audio);
    assert_eq!(section.direction, Direction::SendRecv);
    assert_eq!(section.formats, vec![AUDIO_PAYLOAD_TYPE.to_string()]);
    assert!(has(section, "ice-ufrag"));
    assert!(has(section, "ice-pwd"));
    assert!(has(section, "ice-options"));
    assert!(has(section, "end-of-candidates"));
    assert!(
        section
            .attributes
            .iter()
            .filter(|attr| attr.key == "candidate")
            .count()
            >= 1
    );
    assert!(value(section, "rtpmap").contains("opus"));
    assert!(has(section, "fingerprint"));
    assert_eq!(value(section, "setup"), "actpass");
    assert_eq!(pc.signaling_state(), SignalingState::Stable);
    assert_eq!(section.mid, "0");
    assert_eq!(offer.session.origin.session_id, 1000);
    assert_eq!(offer.session.origin.session_version, 1001);
    assert_eq!(
        value(section, "fingerprint"),
        format!("sha-256 {}", fingerprint(pc.certificate()))
    );
}

#[test]
fn offer_includes_video_capabilities() {
    let (mut pc, mut ice) = gathered(RtcConfiguration::default());
    pc.add_transceiver(MediaKind::Video, TransceiverDirection::SendRecv, 1);
    let offer = offer(&mut pc, &mut ice);
    let section = &offer.media_sections[0];
    assert_eq!(section.kind, MediaKind::Video);
    assert_eq!(section.formats, vec![VIDEO_PAYLOAD_TYPE.to_string()]);
    assert!(has(section, "rtcp-fb"));
    assert!(value(section, "rtpmap").contains("VP8"));
}

#[test]
fn offer_includes_application_capabilities() {
    let (mut pc, mut ice) = gathered(RtcConfiguration::default());
    pc.add_transceiver(MediaKind::Application, TransceiverDirection::SendRecv, 1);
    let offer = offer(&mut pc, &mut ice);
    let section = &offer.media_sections[0];
    assert_eq!(section.kind, MediaKind::Application);
    assert_eq!(section.protocol, "UDP/DTLS/SCTP");
    assert_eq!(section.formats, vec![SCTP_FORMAT.to_string()]);
    assert_eq!(value(section, "sctp-port"), SCTP_PORT.to_string());
}

#[test]
fn offer_follows_the_configuration() {
    let mut config = RtcConfiguration::default();
    config.media_capabilities = Some(MediaCapabilities {
        audio: vec![AudioCapability {
            payload_type: 0,
            codec_name: "PCMU".to_string(),
            clock_rate: 8000,
            channels: 1,
            fmtp: Some("x=1".to_string()),
        }],
        video: vec![VideoCapability {
            payload_type: 98,
            codec_name: "H264".to_string(),
            clock_rate: 90000,
            rtcp_fbs: vec!["nack".to_string(), "ccm fir".to_string()],
        }],
        application: Some(ApplicationCapability { sctp_port: 6000 }),
    });
    let (mut pc, mut ice) = gathered(config);
    pc.add_transceiver(MediaKind::Audio, TransceiverDirection::SendRecv, 1);
    pc.add_transceiver(MediaKind::Video, TransceiverDirection::SendRecv, 2);
    pc.add_transceiver(MediaKind::Application, TransceiverDirection::SendRecv, 3);
    let offer = offer(&mut pc, &mut ice);
    assert_eq!(offer.media_sections[0].formats, vec!["0"]);
    assert_eq!(value(&offer.media_sections[0], "rtpmap"), "0 PCMU/8000/1");
    assert_eq!(value(&offer.media_sections[0], "fmtp"), "0 x=1");
    assert_eq!(value(&offer.media_sections[1], "rtpmap"), "98 H264/90000");
    let feedback: Vec<_> = offer.media_sections[1]
        .attributes
        .iter()
        .filter(|a| a.key == "rtcp-fb")
        .map(|a| a.value.clone().unwrap())
        .collect();
    assert_eq!(feedback, vec!["98 nack", "98 ccm fir"]);
    assert_eq!(value(&offer.media_sections[2], "sctp-port"), "6000");
    assert_eq!(offer.media_sections[2].mid, "2");
}

#[test]
fn set_local_description_transitions_state() {
    let (mut pc, mut ice) = gathered(RtcConfiguration::default());
    pc.add_transceiver(MediaKind::Audio, TransceiverDirection::SendRecv, 1);
    let offer = offer(&mut pc, &mut ice);
    pc.set_local_description(offer.clone()).unwrap();
    assert_eq!(pc.signaling_state(), SignalingState::HaveLocalOffer);

    let mut answer = offer.clone();
    answer.sdp_type = SdpType::Answer;
    pc.set_remote_description(&answer).unwrap();
    assert_eq!(pc.complete_remote_description(answer.clone(), 9), 0);
    assert_eq!(pc.signaling_state(), SignalingState::Stable);
    assert_eq!(pc.local_description(), &Some(offer));
    assert_eq!(pc.remote_description(), &Some(answer));
}

#[test]
fn create_answer_requires_remote_offer() {
    let (mut pc, mut ice) = gathered(RtcConfiguration::default());
    pc.add_transceiver(MediaKind::Video, TransceiverDirection::SendOnly, 1);
    let err = pc.create_answer(&ice, 1).unwrap_err();
    assert!(matches!(err, RtcError::InvalidState(_)));
    assert!(pc.start_answer(&mut ice).is_err());

    let offer = offer(&mut pc, &mut ice);
    pc.set_remote_description(&offer).unwrap();
    pc.complete_remote_description(offer, 2);
    pc.start_answer(&mut ice).unwrap();
    assert_eq!(ice.role(), IceRole::Controlled);
    let answer = pc.create_answer(&ice, 1).unwrap();
    assert_eq!(answer.media_sections.len(), 1);
    assert_eq!(answer.media_sections[0].direction, Direction::RecvOnly);
    assert_eq!(value(&answer.media_sections[0], "setup"), "active");
    pc.set_local_description(answer).unwrap();
    assert_eq!(pc.signaling_state(), SignalingState::Stable);
}

#[test]
fn remote_answer_without_local_offer_is_error() {
    let (mut pc, mut ice) = gathered(RtcConfiguration::default());
    pc.add_transceiver(MediaKind::Audio, TransceiverDirection::RecvOnly, 1);
    let mut fake_answer = offer(&mut pc, &mut ice);
    fake_answer.sdp_type = SdpType::Answer;
    let err = pc.set_remote_description(&fake_answer).unwrap_err();
    assert!(matches!(err, RtcError::InvalidState(_)));
    fake_answer.sdp_type = SdpType::Rollback;
    assert!(matches!(
        pc.set_local_description(fake_answer),
        Err(RtcError::NotImplemented("pranswer/rollback"))
    ));
}

#[test]
fn peer_connection_exposes_ice_transport() {
    let ice = IceTransport::new(RtcConfiguration::default());
    assert_eq!(ice.state(), IceTransportState::New);
    assert_eq!(ice.config().ice_servers.len(), 0);
}

#[test]
fn create_offer_rtp_mode() {
    let mut config = RtcConfiguration::default();
    config.transport_mode = TransportMode::Rtp;
    let (mut pc, mut ice) = gathered(config);
    pc.add_transceiver(MediaKind::Audio, TransceiverDirection::SendRecv, 1);
    let offer = offer(&mut pc, &mut ice);
    let section = &offer.media_sections[0];
    assert!(!has(section, "ice-ufrag"));
    assert!(!has(section, "candidate"));
    assert!(!has(section, "fingerprint"));
    assert_eq!(section.protocol, "RTP/AVPF");
    assert_eq!(section.port, 4000);
    assert_eq!(section.connection.as_deref(), Some("IN IP4 127.0.0.1"));
}

#[test]
fn create_offer_srtp_mode() {
    let mut config = RtcConfiguration::default();
    config.transport_mode = TransportMode::Srtp;
    let (mut pc, mut ice) = gathered(config);
    pc.add_transceiver(MediaKind::Audio, TransceiverDirection::SendRecv, 1);
    let offer = offer(&mut pc, &mut ice);
    let section = &offer.media_sections[0];
    assert!(!has(section, "ice-ufrag"));
    assert!(!has(section, "candidate"));
    assert!(has(section, "fingerprint"));
    assert_eq!(section.protocol, "UDP/TLS/RTP/SAVPF");
}

#[test]
fn offers_need_media_and_a_stable_state() {
    let (mut pc, mut ice) = gathered(RtcConfiguration::default());
    let err = pc.create_offer(&ice, 1).unwrap_err();
    assert_eq!(
        err.message(),
        "invalid state: cannot build SDP with no transceivers"
    );
    pc.add_track(rustrtc::media::MediaKind::Audio, 4);
    let first = offer(&mut pc, &mut ice);
    pc.set_local_description(first).unwrap();
    let err = pc.start_offer(&mut ice).unwrap_err();
    assert_eq!(
        err.message(),
        "invalid state: cannot create offer while in state HaveLocalOffer"
    );
    let sender = pc.get_transceivers()[0].sender.unwrap();
    assert_eq!((sender.ssrc, sender.params.payload_type), (12345, 111));
}

#[test]
fn two_ends_understand_each_other() {
    let (mut left, mut left_ice) = gathered(RtcConfiguration::default());
    let (mut right, mut right_ice) = gathered(RtcConfiguration::default());
    left.add_transceiver(MediaKind::Audio, TransceiverDirection::SendRecv, 1);
    left.add_transceiver(MediaKind::Video, TransceiverDirection::SendOnly, 2);
    let offered = offer(&mut left, &mut left_ice);
    left.set_local_description(offered.clone()).unwrap();
    match right.set_remote_description(&offered).unwrap() {
        RemotePlan::Ice(params, candidates) => {
            let ours = left_ice.local_parameters();
            assert_eq!(params.username_fragment, ours.username_fragment);
            assert_eq!(params.password, ours.password);
            assert_eq!(candidates.len(), 2);
            assert_eq!(candidates[0], left_ice.local_candidates()[0]);
        }
        other => panic!("unexpected: {other:?}"),
    }
    assert_eq!(right.complete_remote_description(offered, 10), 2);
    let media = right.get_transceivers();
    assert_eq!(media[1].id(), 11);
    assert_eq!(media[1].kind(), MediaKind::Video);
    assert_eq!(media[1].mid().as_deref(), Some("1"));
    assert_eq!(media[1].receiver.unwrap().ssrc, 2001);
    assert_eq!(right.dtls_role(), Some(true));

    right.start_answer(&mut right_ice).unwrap();
    let answered = right.create_answer(&right_ice, 5).unwrap();
    right.set_local_description(answered.clone()).unwrap();
    left.set_remote_description(&answered).unwrap();
    left.complete_remote_description(answered, 20);
    assert_eq!(left.dtls_role(), Some(false));
    assert_eq!(left.signaling_state(), SignalingState::Stable);
    assert_eq!(right.signaling_state(), SignalingState::Stable);
}

#[test]
fn addresses_are_understood_without_ice() {
    let mut config = RtcConfiguration::default();
    config.transport_mode = TransportMode::Rtp;
    let (mut left, mut left_ice) = gathered(config.clone());
    let (mut right, _) = gathered(config);
    left.add_transceiver(MediaKind::Video, TransceiverDirection::SendRecv, 1);
    let offered = offer(&mut left, &mut left_ice);
    match right.set_remote_description(&offered).unwrap() {
        RemotePlan::Direct(addr) => {
            assert_eq!(addr, SocketAddr::new(IpAddr::V4(0x7F00_0001), 4000))
        }
        other => panic!("unexpected: {other:?}"),
    }
    assert_eq!(right.dtls_role(), Some(true));
}

#[test]
fn dtls_starts_once_ice_is_connected() {
    assert_eq!(
        supervise(IceTransportState::Connected, Some(true)),
        Supervision::Start(true)
    );
    assert_eq!(
        supervise(IceTransportState::Connected, None),
        Supervision::Wait
    );
    assert_eq!(
        supervise(IceTransportState::Checking, Some(true)),
        Supervision::Wait
    );
    assert_eq!(
        supervise(IceTransportState::Failed, Some(true)),
        Supervision::Stop
    );
    let (mut pc, mut ice) = gathered(RtcConfiguration::default());
    assert_eq!(
        pc.start_dtls(&ice, true).unwrap_err().message(),
        "internal error: No selected pair"
    );
    let there = SocketAddr::new(IpAddr::V4(1), 2);
    assert!(ice.start_direct(there));
    assert!(pc.start_dtls(&ice, false).is_err());
    let plan = pc.start_dtls(&ice, true).unwrap();
    assert_eq!((plan.remote, plan.handshake), (there, true));
    pc.dtls_started(true);
    assert_eq!(pc.peer_state(), PeerConnectionState::Connected);
    pc.dtls_started(false);
    assert_eq!(pc.peer_state(), PeerConnectionState::Failed);
}

#[test]
fn the_end_of_ice_ends_the_connection() {
    let (mut pc, mut ice) = gathered(RtcConfiguration::default());
    pc.dtls_started(true);
    for state in [
        IceTransportState::New,
        IceTransportState::Checking,
        IceTransportState::Connected,
        IceTransportState::Completed,
        IceTransportState::Disconnected,
    ] {
        pc.ice_state_changed(state);
        assert_eq!(pc.peer_state(), PeerConnectionState::Connected);
    }
    pc.ice_state_changed(IceTransportState::Failed);
    assert_eq!(pc.peer_state(), PeerConnectionState::Failed);
    ice.stop();
    pc.ice_state_changed(ice.state());
    assert_eq!(pc.peer_state(), PeerConnectionState::Closed);
    assert_eq!(pc.signaling_state(), SignalingState::Stable);
}

#[test]
fn data_channels_and_the_end() {
    let (mut pc, mut ice) = gathered(RtcConfiguration::default());
    let mut sctp = SctpTransport::new();
    assert_eq!(
        pc.send_data(&sctp, 0, b"x").unwrap_err().message(),
        "invalid state: SCTP not connected"
    );
    assert_eq!(pc.create_data_channel(&mut sctp, "a", 1), 0);
    assert_eq!(pc.create_data_channel(&mut sctp, "b", 2), 1);
    assert_eq!((sctp.local_port, sctp.remote_port), (5000, 5000));
    assert_eq!((sctp.verification_tag, sctp.remote_verification_tag), (0, 0));
    assert_eq!(pc.get_transceivers().len(), 1);
    assert_eq!(sctp.channels[1].id, 1);
    assert_eq!(sctp.channels[1].label, "b");
    pc.sctp_started();
    let packet = pc.send_data(&sctp, 0, b"x").unwrap();
    assert_eq!(packet, sctp.send_data(0, b"x"));
    pc.close(&mut ice);
    assert_eq!(pc.signaling_state(), SignalingState::Closed);
    assert_eq!(pc.peer_state(), PeerConnectionState::Closed);
    assert_eq!(pc.ice_connection_state(), IceConnectionState::Closed);
    assert_eq!(pc.ice_gathering_state(), IceGatheringState::Complete);
    assert_eq!(ice.state(), IceTransportState::Closed);
    assert!(pc.create_offer(&ice, 1).is_err());
}

#[test]
fn answers_mirror_the_direction() {
    for d in [
        TransceiverDirection::SendRecv,
        TransceiverDirection::SendOnly,
        TransceiverDirection::RecvOnly,
        TransceiverDirection::Inactive,
    ] {
        assert_eq!(d.answer_direction().answer_direction(), d);
    }
    assert_eq!(
        TransceiverDirection::SendOnly.answer_direction(),
        TransceiverDirection::RecvOnly
    );
    assert_eq!(
        Direction::from(TransceiverDirection::Inactive),
        Direction::Inactive
    );
    assert_eq!(TransceiverDirection::default(), TransceiverDirection::SendRecv);
}

#[test]
fn a_connection_keeps_its_certificate() {
    let certificate = generate_certificate().unwrap();
    let text = fingerprint(&certificate);
    let pc = PeerConnection::with_certificate(RtcConfiguration::default(), certificate);
    assert_eq!(fingerprint(pc.certificate()), text);
}

#[test]
fn offers_show_the_direction_of_the_moment() {
    let (mut pc, mut ice) = gathered(RtcConfiguration::default());
    pc.add_transceiver(MediaKind::Audio, TransceiverDirection::SendRecv, 1);
    pc.add_transceiver(MediaKind::Video, TransceiverDirection::SendRecv, 2);
    pc.set_direction(1, TransceiverDirection::SendOnly);
    assert_eq!(pc.get_transceivers()[1].direction(), TransceiverDirection::SendOnly);
    let offer = offer(&mut pc, &mut ice);
    assert_eq!(offer.media_sections[0].direction, Direction::SendRecv);
    assert_eq!(offer.media_sections[1].direction, Direction::SendOnly);
}
