//! What becomes of media on its way through packets.
use vstd::prelude::*;

use crate::media::error::MediaError;
use crate::media::frame;
use crate::media::frame::{AudioView, MediaKind, MediaSample, SampleView, VideoView};
use crate::media::pipeline;
use crate::media::pipeline::PumpStep;
use crate::media::track;
use crate::peer_connection::transceiver;
use crate::peer_connection::transceiver::{RtpReceiver, RtpSender};
use crate::rtp::packet::{HeaderView, PacketView};
use crate::sdp;

verus! {

/// A packet of audio becomes a sample with its payload, its time, its number and its payload type,
/// at the clock rate and with the channels of the stream. Each sample of a channel has two bytes.
pub proof fn law_audio_of_packet(p: PacketView, clock_rate: u32, channels: u8, n: u32)
    requires
        channels > 0,
        p.payload.len() == n * channels * 2,
        n * channels * 2 < 0x1_0000_0000,
    ensures
        frame::sample_of(p, MediaKind::Audio, clock_rate, channels) matches SampleView::Audio(f) && {
            &&& f.data == p.payload
            &&& f.rtp_timestamp == p.header.timestamp
            &&& f.sequence_number == Some(p.header.sequence_number)
            &&& f.payload_type == Some(p.header.payload_type)
            &&& f.sample_rate == clock_rate
            &&& f.channels == channels
            &&& f.samples == n
        },
{
    let w = channels as nat * 2;
    assert(n * channels * 2 == n as nat * w) by (nonlinear_arith)
        requires
            w == channels as nat * 2,
    ;
    assert((n as nat * w) / w == n) by (nonlinear_arith)
        requires
            w > 0,
    ;
}

/// A packet of video becomes a sample with its payload, its time, its number, its payload type, its
/// sources and its extension; its marker says that it is the last packet of a picture.
pub proof fn law_video_of_packet(p: PacketView, clock_rate: u32, channels: u8)
    ensures
        frame::sample_of(p, MediaKind::Video, clock_rate, channels) matches SampleView::Video(f) && {
            &&& f.data == p.payload
            &&& f.rtp_timestamp == p.header.timestamp
            &&& f.sequence_number == Some(p.header.sequence_number)
            &&& f.payload_type == Some(p.header.payload_type)
            &&& f.is_last_packet == p.header.marker
            &&& f.csrcs == p.header.csrcs
            &&& f.header_extension == p.header.extension
        },
{
}

/// A sample becomes a packet of its source with its data and its time. What it does not bring
/// itself is filled in: the usual payload type, and the next number, which is then used up.
pub proof fn law_packet_of_audio(f: AudioView, ssrc: u32, usual: u8, next: u16)
    ensures
        ({
            let p = frame::packet_of(SampleView::Audio(f), ssrc, usual, next);
            &&& p.payload == f.data
            &&& p.padding_len == 0
            &&& p.header.timestamp == f.rtp_timestamp
            &&& p.header.ssrc == ssrc
            &&& f.payload_type matches Some(t) ==> p.header.payload_type == t
            &&& f.payload_type is None ==> p.header.payload_type == usual
            &&& f.sequence_number matches Some(n) ==> p.header.sequence_number == n
            &&& f.sequence_number is None ==> p.header.sequence_number == next
            &&& f.sequence_number is Some ==> frame::sequence_after(SampleView::Audio(f), next)
                == next
            &&& f.sequence_number is None ==> frame::sequence_after(SampleView::Audio(f), next) == (
            next + 1) % 0x1_0000
        }),
{
}

/// A sample of video becomes a packet of its source in the same way, with a marker where it is the
/// last of its picture.
pub proof fn law_packet_of_video(f: VideoView, ssrc: u32, usual: u8, next: u16)
    ensures
        ({
            let p = frame::packet_of(SampleView::Video(f), ssrc, usual, next);
            &&& p.payload == f.data
            &&& p.padding_len == 0
            &&& p.header.marker == f.is_last_packet
            &&& p.header.timestamp == f.rtp_timestamp
            &&& p.header.ssrc == ssrc
            &&& p.header.csrcs == f.csrcs
            &&& p.header.extension == f.header_extension
            &&& f.payload_type matches Some(t) ==> p.header.payload_type == t
            &&& f.payload_type is None ==> p.header.payload_type == usual
            &&& f.sequence_number matches Some(n) ==> p.header.sequence_number == n
            &&& f.sequence_number is None ==> p.header.sequence_number == next
            &&& f.sequence_number is Some ==> frame::sequence_after(SampleView::Video(f), next)
                == next
            &&& f.sequence_number is None ==> frame::sequence_after(SampleView::Video(f), next) == (
            next + 1) % 0x1_0000
        }),
{
}

/// The first packet of a sender has the time of its sample, the number 0 for a new sender, and
/// the data of the sample behind a header that names the source and the payload type and nothing
/// else.
pub proof fn law_sender_starts(s: RtpSender, sample: SampleView)
    requires
        s.last_timestamp is None,
    ensures
        ({
            let p = transceiver::stream_packet(s, sample);
            &&& p.header == (HeaderView {
                marker: false,
                payload_type: s.params.payload_type,
                sequence_number: s.sequence_number,
                timestamp: match sample {
                    SampleView::Audio(f) => f.rtp_timestamp,
                    SampleView::Video(f) => f.rtp_timestamp,
                },
                ssrc: s.ssrc,
                csrcs: seq![],
                extension: None,
            })
            &&& p.payload == match sample {
                SampleView::Audio(f) => f.data,
                SampleView::Video(f) => f.data,
            }
            &&& p.padding_len == 0
        }),
{
}

/// A sender numbers its packets one after the other, and its times go on as those of its source
/// do, modulo 2^32, unless the source jumps by more than ten seconds: then they go on by 3000.
pub proof fn law_sender_goes_on(s: RtpSender, first: SampleView, second: SampleView)
    ensures
        ({
            let p = transceiver::stream_packet(s, first);
            let after = transceiver::sender_after(s, first);
            let q = transceiver::stream_packet(after, second);
            let a = transceiver::source_timestamp(first);
            let b = transceiver::source_timestamp(second);
            let delta = (b - a) % 0x1_0000_0000;
            &&& q.header.sequence_number == (p.header.sequence_number + 1) % 0x1_0000
            &&& q.header.ssrc == p.header.ssrc
            &&& q.header.payload_type == s.params.payload_type
            &&& after.params == s.params
            &&& delta <= 10 * s.params.clock_rate ==> (q.header.timestamp - p.header.timestamp)
                % 0x1_0000_0000 == delta
            &&& delta > 10 * s.params.clock_rate ==> (q.header.timestamp - p.header.timestamp)
                % 0x1_0000_0000 == 3000
        }),
{
    transceiver::law_stream_is_continuous(s, first, second);
}

/// A receiver of audio makes samples at 48 kHz with two channels, one of video video; data channels
/// count as audio.
pub proof fn law_receivers(ssrc: u32)
    ensures
        ({
            let a = transceiver::new_receiver(sdp::MediaKind::Audio, ssrc);
            let v = transceiver::new_receiver(sdp::MediaKind::Video, ssrc);
            let d = transceiver::new_receiver(sdp::MediaKind::Application, ssrc);
            &&& a.kind == MediaKind::Audio && a.ssrc == ssrc && a.params.payload_type == 111
                && a.params.clock_rate == 48000 && a.params.channels == 2
            &&& v.kind == MediaKind::Video && v.ssrc == ssrc && v.params.payload_type == 96
                && v.params.clock_rate == 90000
            &&& d.kind == MediaKind::Audio && d.ssrc == ssrc
            &&& transceiver::parameters_for(MediaKind::Audio) == a.params
            &&& transceiver::parameters_for(MediaKind::Video) == v.params
        }),
{
}

/// Media of one kind cannot take the place of another; the failure names both.
pub proof fn law_kinds(expected: MediaKind, actual: MediaKind)
    ensures
        track::kinds_agree(expected, actual) is Ok <==> expected == actual,
        expected != actual ==> track::kinds_agree(expected, actual) == Err::<(), MediaError>(
            MediaError::KindMismatch { expected, actual },
        ),
{
}

/// A pump hands on every sample; the end of the stream ends it well, and any other failure is its
/// own.
pub proof fn law_pump(sample: MediaSample, e: MediaError)
    ensures
        pipeline::step_for(Ok(sample)) == PumpStep::Consume(sample),
        pipeline::step_for(Err(MediaError::EndOfStream)) == PumpStep::Finish(Ok(())),
        e != MediaError::EndOfStream ==> pipeline::step_for(Err(e)) == PumpStep::Finish(Err(e)),
        pipeline::end_for(Ok(())) is None,
        pipeline::end_for(Err(e)) == Some(Err::<(), MediaError>(e)),
{
}

} // verus!
