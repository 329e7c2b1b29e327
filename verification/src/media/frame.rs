//! Samples of media, and the packets that they become.
use bytes::Bytes;
use vstd::prelude::*;

use crate::buffer;
use crate::rtp::packet;
use crate::rtp::packet::{ExtensionView, HeaderView, PacketView};
use crate::rtp::{RtpHeader, RtpHeaderExtension, RtpPacket};
use crate::wire;

verus! {

#[derive(Debug, Clone, Copy, PartialEq, Eq, Structural)]
pub enum MediaKind {
    Audio,
    Video,
}

#[derive(Debug, Clone, Copy, PartialEq, Eq, Structural, Default)]
pub enum AudioSampleFormat {
    S16,
    S32,
    F32,
    F64,
    #[default]
    Unspecified,
}

#[derive(Debug, Clone, Copy, PartialEq, Eq, Structural, Default)]
pub enum VideoPixelFormat {
    I420,
    Nv12,
    Rgba,
    Bgra,
    #[default]
    Unspecified,
}

/// A piece of audio.
#[derive(Debug, Clone, PartialEq, Eq)]
pub struct AudioFrame {
    pub rtp_timestamp: u32,
    pub sample_rate: u32,
    pub channels: u8,
    pub samples: u32,
    pub format: AudioSampleFormat,
    pub data: Bytes,
    pub sequence_number: Option<u16>,
    pub payload_type: Option<u8>,
}

/// A piece of audio.
#[verifier::ext_equal]
pub struct AudioView {
    pub rtp_timestamp: u32,
    pub sample_rate: u32,
    pub channels: u8,
    pub samples: u32,
    pub format: AudioSampleFormat,
    pub data: Seq<u8>,
    pub sequence_number: Option<u16>,
    pub payload_type: Option<u8>,
}

impl View for AudioFrame {
    type V = AudioView;

    open spec fn view(&self) -> AudioView {
        AudioView {
            rtp_timestamp: self.rtp_timestamp,
            sample_rate: self.sample_rate,
            channels: self.channels,
            samples: self.samples,
            format: self.format,
            data: buffer::bytes_content(self.data),
            sequence_number: self.sequence_number,
            payload_type: self.payload_type,
        }
    }
}

impl Default for AudioFrame {
    fn default() -> (r: Self)
        ensures
            r@ == (AudioView {
                rtp_timestamp: 0,
                sample_rate: 48_000,
                channels: 2,
                samples: 0,
                format: AudioSampleFormat::Unspecified,
                data: seq![],
                sequence_number: None,
                payload_type: None,
            }),
    {
        AudioFrame {
            rtp_timestamp: 0,
            sample_rate: 48_000,
            channels: 2,
            samples: 0,
            format: AudioSampleFormat::Unspecified,
            data: buffer::bytes_from(Vec::new()),
            sequence_number: None,
            payload_type: None,
        }
    }
}

/// A piece of video: what one packet carries of a picture.
#[derive(Debug, Clone, PartialEq, Eq)]
pub struct VideoFrame {
    pub rtp_timestamp: u32,
    pub width: u16,
    pub height: u16,
    pub format: VideoPixelFormat,
    pub rotation_deg: u16,
    pub is_last_packet: bool,
    pub data: Bytes,
    pub header_extension: Option<RtpHeaderExtension>,
    pub csrcs: Vec<u32>,
    pub sequence_number: Option<u16>,
    pub payload_type: Option<u8>,
}

/// A piece of video.
#[verifier::ext_equal]
pub struct VideoView {
    pub rtp_timestamp: u32,
    pub width: u16,
    pub height: u16,
    pub format: VideoPixelFormat,
    pub rotation_deg: u16,
    pub is_last_packet: bool,
    pub data: Seq<u8>,
    pub header_extension: Option<ExtensionView>,
    pub csrcs: Seq<u32>,
    pub sequence_number: Option<u16>,
    pub payload_type: Option<u8>,
}

impl View for VideoFrame {
    type V = VideoView;

    open spec fn view(&self) -> VideoView {
        VideoView {
            rtp_timestamp: self.rtp_timestamp,
            width: self.width,
            height: self.height,
            format: self.format,
            rotation_deg: self.rotation_deg,
            is_last_packet: self.is_last_packet,
            data: buffer::bytes_content(self.data),
            header_extension: packet::extension_view(self.header_extension),
            csrcs: self.csrcs@,
            sequence_number: self.sequence_number,
            payload_type: self.payload_type,
        }
    }
}

impl Default for VideoFrame {
    fn default() -> (r: Self)
        ensures
            r@ == (VideoView {
                rtp_timestamp: 0,
                width: 0,
                height: 0,
                format: VideoPixelFormat::Unspecified,
                rotation_deg: 0,
                is_last_packet: false,
                data: seq![],
                header_extension: None,
                csrcs: seq![],
                sequence_number: None,
                payload_type: None,
            }),
    {
        VideoFrame {
            rtp_timestamp: 0,
            width: 0,
            height: 0,
            format: VideoPixelFormat::Unspecified,
            rotation_deg: 0,
            is_last_packet: false,
            data: buffer::bytes_from(Vec::new()),
            header_extension: None,
            csrcs: Vec::new(),
            sequence_number: None,
            payload_type: None,
        }
    }
}

/// A piece of media.
#[derive(Debug, Clone, PartialEq, Eq)]
pub enum MediaSample {
    Audio(AudioFrame),
    Video(VideoFrame),
}

/// A piece of media.
#[verifier::ext_equal]
pub enum SampleView {
    Audio(AudioView),
    Video(VideoView),
}

impl View for MediaSample {
    type V = SampleView;

    open spec fn view(&self) -> SampleView {
        match self {
            MediaSample::Audio(f) => SampleView::Audio(f@),
            MediaSample::Video(f) => SampleView::Video(f@),
        }
    }
}

impl SampleView {
    /// What the sample is of.
    pub open spec fn kind(self) -> MediaKind {
        match self {
            SampleView::Audio(_) => MediaKind::Audio,
            SampleView::Video(_) => MediaKind::Video,
        }
    }

    /// The sequence number that the sample brings.
    pub open spec fn sequence_number(self) -> Option<u16> {
        match self {
            SampleView::Audio(f) => f.sequence_number,
            SampleView::Video(f) => f.sequence_number,
        }
    }
}

/// The value, or another where there is none.
pub open spec fn value_or<T>(o: Option<T>, other: T) -> T {
    match o {
        Some(x) => x,
        None => other,
    }
}

/// The packet that a sample becomes. What it does not bring itself comes from the arguments.
pub open spec fn packet_of(
    sample: SampleView,
    ssrc: u32,
    default_payload_type: u8,
    next_sequence: u16,
) -> PacketView {
    match sample {
        SampleView::Audio(f) => PacketView {
            header: HeaderView {
                marker: false,
                payload_type: value_or(f.payload_type, default_payload_type),
                sequence_number: value_or(f.sequence_number, next_sequence),
                timestamp: f.rtp_timestamp,
                ssrc,
                csrcs: seq![],
                extension: None,
            },
            payload: f.data,
            padding_len: 0,
        },
        SampleView::Video(f) => PacketView {
            header: HeaderView {
                marker: f.is_last_packet,
                payload_type: value_or(f.payload_type, default_payload_type),
                sequence_number: value_or(f.sequence_number, next_sequence),
                timestamp: f.rtp_timestamp,
                ssrc,
                csrcs: f.csrcs,
                extension: f.header_extension,
            },
            payload: f.data,
            padding_len: 0,
        },
    }
}

/// The next sequence number after one was used, if it was.
pub open spec fn sequence_after(sample: SampleView, next_sequence: u16) -> u16 {
    if sample.sequence_number() is Some {
        next_sequence
    } else {
        ((next_sequence + 1) % 0x1_0000) as u16
    }
}

/// The sample that a packet carries. Audio is of two bytes for each sample and channel.
pub open spec fn sample_of(p: PacketView, kind: MediaKind, clock_rate: u32, channels: u8) -> SampleView {
    match kind {
        MediaKind::Audio => SampleView::Audio(
            AudioView {
                rtp_timestamp: p.header.timestamp,
                sample_rate: clock_rate,
                channels,
                samples: if channels > 0 {
                    ((p.payload.len() % 0x1_0000_0000) / (channels as nat * 2)) as u32
                } else {
                    0
                },
                format: AudioSampleFormat::S16,
                data: p.payload,
                sequence_number: Some(p.header.sequence_number),
                payload_type: Some(p.header.payload_type),
            },
        ),
        MediaKind::Video => SampleView::Video(
            VideoView {
                rtp_timestamp: p.header.timestamp,
                width: 0,
                height: 0,
                format: VideoPixelFormat::Unspecified,
                rotation_deg: 0,
                is_last_packet: p.header.marker,
                data: p.payload,
                header_extension: p.header.extension,
                csrcs: p.header.csrcs,
                sequence_number: Some(p.header.sequence_number),
                payload_type: Some(p.header.payload_type),
            },
        ),
    }
}

/// A packet of video that became a sample becomes the same packet again, but for its padding,
/// whatever the sender would have filled in. The counter of the sender is left as it is.
pub proof fn law_video_packets_are_kept(
    p: PacketView,
    clock_rate: u32,
    channels: u8,
    default_payload_type: u8,
    next_sequence: u16,
)
    ensures
        packet_of(
            sample_of(p, MediaKind::Video, clock_rate, channels),
            p.header.ssrc,
            default_payload_type,
            next_sequence,
        ) == (PacketView { padding_len: 0, ..p }),
        sequence_after(sample_of(p, MediaKind::Video, clock_rate, channels), next_sequence)
            == next_sequence,
{
}

/// A packet of audio keeps its payload, timestamp, sequence number and payload type; it loses its
/// marker, sources and extension.
pub proof fn law_audio_packets_are_kept(
    p: PacketView,
    clock_rate: u32,
    channels: u8,
    default_payload_type: u8,
    next_sequence: u16,
)
    ensures
        packet_of(
            sample_of(p, MediaKind::Audio, clock_rate, channels),
            p.header.ssrc,
            default_payload_type,
            next_sequence,
        ) == (PacketView {
            header: HeaderView { marker: false, csrcs: seq![], extension: None, ..p.header },
            padding_len: 0,
            ..p
        }),
{
}

impl MediaSample {
    pub fn kind(&self) -> (r: MediaKind)
        ensures
            r == self@.kind(),
    {
        match self {
            MediaSample::Audio(_) => MediaKind::Audio,
            MediaSample::Video(_) => MediaKind::Video,
        }
    }

    /// The packet that the sample becomes. A sample without a sequence number takes the next one.
    pub fn into_rtp_packet(
        self,
        ssrc: u32,
        default_payload_type: u8,
        sequence_number: &mut u16,
    ) -> (r: RtpPacket)
        ensures
            r@ == packet_of(self@, ssrc, default_payload_type, *old(sequence_number)),
            *final(sequence_number) == sequence_after(self@, *old(sequence_number)),
    {
        let ghost sample = self@;
        let (data, marker, rtp_timestamp, csrcs, frame_seq, frame_pt, extension) = match self {
            MediaSample::Audio(f) => {
                (
                    f.data,
                    false,
                    f.rtp_timestamp,
                    Vec::new(),
                    f.sequence_number,
                    f.payload_type,
                    None,
                )
            },
            MediaSample::Video(f) => {
                (
                    f.data,
                    f.is_last_packet,
                    f.rtp_timestamp,
                    f.csrcs,
                    f.sequence_number,
                    f.payload_type,
                    f.header_extension,
                )
            },
        };
        let seq: u16 = match frame_seq {
            Some(seq) => seq,
            None => {
                let seq: u16 = *sequence_number;
                *sequence_number = seq.wrapping_add(1);
                seq
            },
        };
        let pt: u8 = match frame_pt {
            Some(pt) => pt,
            None => default_payload_type,
        };
        let mut header = RtpHeader::new(pt, seq, rtp_timestamp, ssrc);
        header.marker = marker;
        header.csrcs = csrcs;
        header.extension = extension;
        let content = buffer::bytes_slice(&data);
        let payload = wire::copy_range(content, 0, content.len());
        assert(payload@ =~= content@);
        let p = RtpPacket::new(header, payload);
        assert(p@.header.csrcs =~= packet_of(
            sample,
            ssrc,
            default_payload_type,
            *old(sequence_number),
        ).header.csrcs);
        p
    }

    /// The sample that a packet carries.
    pub fn from_rtp_packet(
        packet: RtpPacket,
        kind: MediaKind,
        clock_rate: u32,
        channels: u8,
    ) -> (r: Self)
        ensures
            r@ == sample_of(packet@, kind, clock_rate, channels),
    {
        let len: usize = packet.payload.len();
        let data = buffer::bytes_from(packet.payload);
        match kind {
            MediaKind::Audio => {
                let samples: u32 = if channels > 0 {
                    sample_count(len, channels)
                } else {
                    0
                };
                MediaSample::Audio(
                    AudioFrame {
                        rtp_timestamp: packet.header.timestamp,
                        sample_rate: clock_rate,
                        channels,
                        samples,
                        format: AudioSampleFormat::S16,
                        data,
                        sequence_number: Some(packet.header.sequence_number),
                        payload_type: Some(packet.header.payload_type),
                    },
                )
            },
            MediaKind::Video => MediaSample::Video(
                VideoFrame {
                    rtp_timestamp: packet.header.timestamp,
                    width: 0,
                    height: 0,
                    format: VideoPixelFormat::Unspecified,
                    rotation_deg: 0,
                    is_last_packet: packet.header.marker,
                    data,
                    header_extension: packet.header.extension,
                    csrcs: packet.header.csrcs,
                    sequence_number: Some(packet.header.sequence_number),
                    payload_type: Some(packet.header.payload_type),
                },
            ),
        }
    }
}

/// How many samples a payload of `len` bytes holds of each channel.
fn sample_count(len: usize, channels: u8) -> (r: u32)
    requires
        channels > 0,
    ensures
        r == (len as nat % 0x1_0000_0000) / (channels as nat * 2),
{
    let low: u64 = (len as u64) % 0x1_0000_0000;
    let step: u64 = channels as u64 * 2;
    assert(low / step <= low) by (nonlinear_arith)
        requires
            step > 0,
            low >= 0,
    ;
    (low / step) as u32
}

} // verus!
