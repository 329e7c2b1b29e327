use bytes::Bytes;
use rustrtc::media::pipeline::{channel_source_id, check_pump, consumed, pump_step, PumpStep};
use rustrtc::media::track::{
    audio_of, next_relay_track_id, next_track_id, relay_track_id, sample_track, video_of,
    RelayArrival, RelayEvent, RelayStep, SelectorArrival,
};
use rustrtc::media::{
    AudioFrame, AudioSampleFormat, ChannelMediaSink, ChannelMediaSource, MediaError, MediaKind,
    MediaRelay, MediaSample, SelectorTrack, TrackState, VideoFrame, VideoPixelFormat,
};
use rustrtc::peer_connection::{RtpCodecParameters, RtpReceiver, RtpSender};
use rustrtc::rtp::{RtpHeader, RtpHeaderExtension, RtpPacket};

fn audio(samples: u32) -> MediaSample {
    MediaSample::Audio(AudioFrame {
        samples,
        ..AudioFrame::default()
    })
}

#[test]
fn rtp_sender_rewrites_sequence_numbers() {
    let params = RtpCodecParameters {
        payload_type: 111,
        clock_rate: 48000,
        channels: 2,
    };
    let mut sender = RtpSender::new(MediaKind::Audio, 12345);
    sender.set_params(params);

    let packet1 = sender.packet(MediaSample::Audio(AudioFrame {
        sequence_number: Some(100),
        data: Bytes::from_static(&[1, 2, 3]),
        ..AudioFrame::default()
    }));
    let seq1 = packet1.header.sequence_number;
    let packet2 = sender.packet(MediaSample::Audio(AudioFrame {
        sequence_number: Some(200),
        data: Bytes::from_static(&[4, 5, 6]),
        ..AudioFrame::default()
    }));
    let seq2 = packet2.header.sequence_number;

    assert_eq!(
        seq2,
        seq1.wrapping_add(1),
        "Sequence numbers should be continuous despite source gap"
    );
    assert_ne!(seq1, 100, "Sequence number should not match source");
    assert_eq!(packet2.header.ssrc, 12345);
    assert_eq!(packet2.payload, vec![4, 5, 6]);
}

#[test]
fn rtp_sender_rewrites_timestamps() {
    let mut sender = RtpSender::new(MediaKind::Video, 12345);
    sender.set_params(RtpCodecParameters {
        payload_type: 96,
        clock_rate: 90000,
        channels: 0,
    });
    let mut timestamp = |rtp_timestamp: u32| {
        sender
            .packet(MediaSample::Video(VideoFrame {
                rtp_timestamp,
                data: Bytes::from_static(&[1]),
                ..VideoFrame::default()
            }))
            .header
            .timestamp
    };
    let ts1 = timestamp(1000);
    let ts2 = timestamp(4000);
    assert_eq!(ts2.wrapping_sub(ts1), 3000);
    let ts3 = timestamp(1_000_000);
    assert_eq!(ts3.wrapping_sub(ts2), 3000);
    let ts4 = timestamp(1_003_000);
    assert_eq!(ts4.wrapping_sub(ts3), 3000);
}

#[test]
fn test_padding_packet_drop() {
    let mut sender = RtpSender::new(MediaKind::Video, 11111);
    let receiver = RtpReceiver::new(rustrtc::MediaKind::Video, 2000);
    let mut lengths = Vec::new();
    let frames = [
        (1000, false, vec![0x90, 0x80, 0x01]),
        (1000, false, vec![]),
        (4000, true, vec![0x90, 0x80, 0x02]),
    ];
    for (rtp_timestamp, is_last_packet, data) in frames {
        let packet = sender.packet(MediaSample::Video(VideoFrame {
            rtp_timestamp,
            is_last_packet,
            data: Bytes::from(data),
            ..VideoFrame::default()
        }));
        assert_eq!(packet.header.timestamp, rtp_timestamp);
        let raw = packet.marshal().unwrap();
        match receiver.sample(RtpPacket::parse(&raw).unwrap()) {
            MediaSample::Video(f) => lengths.push(f.data.len()),
            MediaSample::Audio(_) => panic!("Expected Video sample"),
        }
    }
    assert_eq!(lengths, vec![3, 0, 3]);
}

#[test]
fn video_packets_survive_the_sample() {
    let mut header = RtpHeader::new(97, 7, 8, 9);
    header.marker = true;
    header.csrcs = vec![1, 2];
    header.extension = Some(RtpHeaderExtension::new(0xBEDE, vec![1, 2, 3, 4]));
    let packet = RtpPacket::new(header, vec![5, 6]);
    let sample = MediaSample::from_rtp_packet(packet.clone(), MediaKind::Video, 90000, 0);
    let mut next = 41;
    assert_eq!(sample.into_rtp_packet(9, 96, &mut next), packet);
    assert_eq!(next, 41);
}

#[test]
fn audio_packets_lose_their_marker() {
    let mut header = RtpHeader::new(111, 7, 8, 9);
    header.marker = true;
    let packet = RtpPacket::new(header, vec![0; 12]);
    let sample = MediaSample::from_rtp_packet(packet, MediaKind::Audio, 48000, 2);
    match &sample {
        MediaSample::Audio(f) => {
            assert_eq!(f.samples, 3);
            assert_eq!(f.format, AudioSampleFormat::S16);
            assert_eq!(f.sample_rate, 48000);
        }
        MediaSample::Video(_) => panic!("expected audio sample"),
    }
    let mut next = 0;
    let back = sample.into_rtp_packet(9, 0, &mut next);
    assert!(!back.header.marker);
    assert_eq!(back.header.payload_type, 111);
}

#[test]
fn samples_without_numbers_take_the_next() {
    let mut next = 65535;
    let packet = audio(0).into_rtp_packet(1, 111, &mut next);
    assert_eq!(packet.header.sequence_number, 65535);
    assert_eq!(packet.header.payload_type, 111);
    assert_eq!(next, 0);
}

#[test]
fn audio_sample_flow() {
    let (source, mut track) = sample_track(MediaKind::Audio, "t".to_string());
    let frame = AudioFrame {
        rtp_timestamp: 10,
        sample_rate: 48_000,
        channels: 2,
        samples: 960,
        format: AudioSampleFormat::S16,
        data: Bytes::from_static(&[0u8; 10]),
        sequence_number: None,
        payload_type: None,
    };
    let sample = MediaSample::Audio(frame);
    source.send(&sample).unwrap();
    match track.recv(Some(sample)).unwrap() {
        MediaSample::Audio(out) => assert_eq!(out.samples, 960),
        _ => panic!("expected audio sample"),
    }
    assert_eq!(track.state(), TrackState::Live);
}

#[test]
fn mismatched_kind_is_error() {
    let (source, _track) = sample_track(MediaKind::Audio, "t".to_string());
    let video = VideoFrame {
        rtp_timestamp: 1,
        width: 640,
        height: 480,
        format: VideoPixelFormat::Rgba,
        rotation_deg: 0,
        is_last_packet: false,
        data: Bytes::new(),
        header_extension: None,
        csrcs: Vec::new(),
        sequence_number: None,
        payload_type: None,
    };
    let err = source.send(&MediaSample::Video(video)).unwrap_err();
    assert!(matches!(err, MediaError::KindMismatch { .. }));
}

#[test]
fn end_of_stream() {
    let (_source, mut track) = sample_track(MediaKind::Video, "t".to_string());
    let result = track.recv(None);
    assert!(matches!(result, Err(MediaError::EndOfStream)));
    assert_eq!(track.state(), TrackState::Ended);
}

#[test]
fn relay_fan_out_delivers_samples() {
    let mut relay = MediaRelay::new("base".to_string(), MediaKind::Audio);
    assert!(relay.ensure_started());
    assert!(!relay.ensure_started());
    let mut subscriber_a = relay.subscribe(1);
    let mut subscriber_b = relay.subscribe(2);
    assert_eq!(subscriber_a.id, "base-relay-1");
    let event = match relay.received(Ok(audio(480))) {
        RelayStep::Forward(event) => event,
        other => panic!("unexpected: {other:?}"),
    };
    for subscriber in [&mut subscriber_a, &mut subscriber_b] {
        match subscriber.recv(RelayArrival::Event(event.clone())).unwrap() {
            MediaSample::Audio(f) => assert_eq!(f.samples, 480),
            _ => panic!("expected audio samples"),
        }
    }
}

#[test]
fn relay_propagates_end_of_stream() {
    let mut relay = MediaRelay::new("base".to_string(), MediaKind::Video);
    let mut subscriber = relay.subscribe(1);
    assert_eq!(relay.received(Err(MediaError::Lagged)), RelayStep::Wait);
    assert_eq!(
        relay.received(Err(MediaError::EndOfStream)),
        RelayStep::Finish(RelayEvent::End)
    );
    assert!(relay.ended);
    assert_eq!(
        subscriber.recv(RelayArrival::Lagged),
        Err(MediaError::Lagged)
    );
    let result = subscriber.recv(RelayArrival::Event(RelayEvent::End));
    assert!(matches!(result, Err(MediaError::EndOfStream)));
    assert_eq!(subscriber.state(), TrackState::Ended);
    assert!(relay.subscribe(2).recv(RelayArrival::Closed).is_err());
}

#[test]
fn audio_trait_helper_returns_frame() {
    assert_eq!(audio_of(audio(7)).unwrap().samples, 7);
    assert!(matches!(
        video_of(audio(7)),
        Err(MediaError::KindMismatch {
            expected: MediaKind::Video,
            actual: MediaKind::Audio
        })
    ));
    assert!(audio_of(MediaSample::Video(VideoFrame::default())).is_err());
}

#[test]
fn relay_trait_helper_handles_audio() {
    let mut relay = MediaRelay::new("base".to_string(), MediaKind::Audio);
    let mut subscriber = relay.subscribe(1);
    let event = match relay.received(Ok(audio(240))) {
        RelayStep::Forward(event) => event,
        other => panic!("unexpected: {other:?}"),
    };
    let sample = subscriber.recv(RelayArrival::Event(event)).unwrap();
    assert_eq!(audio_of(sample).unwrap().samples, 240);
}

#[test]
fn selector_switches_source() {
    let mut selector = SelectorTrack::new("a", MediaKind::Audio, 5, 1);
    assert_eq!(selector.id, "a-relay-5");
    assert_eq!(selector.source(), 1);
    let read = |selector: &SelectorTrack, sample: MediaSample| {
        let res = selector.recv(SelectorArrival::Received(Ok(sample)));
        audio_of(res.unwrap().unwrap()).unwrap().samples
    };
    assert_eq!(read(&selector, audio(100)), 100);
    assert_eq!(
        selector.switch_to(MediaKind::Video, 9),
        Err(MediaError::KindMismatch {
            expected: MediaKind::Audio,
            actual: MediaKind::Video
        })
    );
    assert_eq!(selector.source(), 1);
    assert_eq!(selector.switch_to(MediaKind::Audio, 2), Ok(()));
    assert_eq!(selector.recv(SelectorArrival::Switched), None);
    assert_eq!(selector.source(), 2);
    assert_eq!(read(&selector, audio(200)), 200);
    assert_eq!(selector.state(), TrackState::Live);
}

#[test]
fn selector_propagates_key_frame_request() {
    let mut selector = SelectorTrack::new("a", MediaKind::Video, 5, 1);
    assert_eq!(selector.request_key_frame(), 1);
    selector.switch_to(MediaKind::Video, 2).unwrap();
    assert_eq!(selector.request_key_frame(), 2);
}

#[test]
fn channel_media_sink_forwards_samples() {
    let sink = ChannelMediaSink::new(MediaKind::Audio);
    assert_eq!(sink.consume(&audio(1)), Ok(()));
    assert!(sink
        .consume(&MediaSample::Video(VideoFrame::default()))
        .is_err());
}

#[test]
fn channel_media_source_provides_samples() {
    let mut source = ChannelMediaSource::new(channel_source_id(4), MediaKind::Audio);
    assert_eq!(source.id, "channel-source-4");
    assert_eq!(source.next_sample(Some(audio(123))), Ok(audio(123)));
    assert_eq!(source.next_sample(None), Err(MediaError::EndOfStream));
    assert_eq!(
        source.next_sample(Some(audio(1))),
        Err(MediaError::EndOfStream)
    );
}

#[test]
fn media_pump_moves_samples_until_end_of_stream() {
    assert_eq!(pump_step(Ok(audio(320))), PumpStep::Consume(audio(320)));
    assert_eq!(
        pump_step(Err(MediaError::EndOfStream)),
        PumpStep::Finish(Ok(()))
    );
}

#[test]
fn media_pump_rejects_kind_mismatch() {
    let err = check_pump(MediaKind::Audio, MediaKind::Video).unwrap_err();
    assert!(matches!(err, MediaError::KindMismatch { .. }));
    assert_eq!(check_pump(MediaKind::Audio, MediaKind::Audio), Ok(()));
}

#[test]
fn media_pump_propagates_source_errors() {
    assert_eq!(
        pump_step(Err(MediaError::Closed)),
        PumpStep::Finish(Err(MediaError::Closed))
    );
}

#[test]
fn track_names() {
    let name = next_track_id();
    assert!(name.starts_with("track-"));
    assert!(name[6..].parse::<u64>().is_ok());
    assert_ne!(name, next_track_id());
    let relayed = next_relay_track_id("track-7");
    assert!(relayed.starts_with("track-7-relay-"));
    assert_ne!(relayed, next_relay_track_id("track-7"));
    assert_eq!(relay_track_id("x", 18446744073709551615), "x-relay-18446744073709551615");
}

#[test]
fn media_pump_propagates_sink_error() {
    assert_eq!(
        pump_step(Ok(audio(0))),
        PumpStep::Consume(MediaSample::Audio(AudioFrame::default()))
    );
    assert_eq!(consumed(Ok(())), None);
    let err = consumed(Err(MediaError::Closed)).unwrap().unwrap_err();
    assert!(matches!(err, MediaError::Closed));
    assert_eq!(
        consumed(Err(MediaError::EndOfStream)),
        Some(Err(MediaError::EndOfStream))
    );
}

#[test]
fn senders_write_a_plain_header() {
    let mut sender = RtpSender::new(MediaKind::Video, 12345);
    let packet = sender.packet(MediaSample::Video(VideoFrame {
        rtp_timestamp: 1000,
        is_last_packet: true,
        data: Bytes::from_static(&[1, 2]),
        header_extension: Some(RtpHeaderExtension::new(0xBEDE, vec![1, 2, 3, 4])),
        csrcs: vec![1, 2],
        sequence_number: Some(7),
        payload_type: Some(100),
        ..VideoFrame::default()
    }));
    assert_eq!(
        packet,
        RtpPacket::new(RtpHeader::new(96, 0, 1000, 12345), vec![1, 2])
    );
}
