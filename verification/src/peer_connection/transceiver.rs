//! The two directions of one medium: what is sent, and what is received.
use vstd::prelude::*;
use vstd::std_specs::convert::FromSpecImpl;
use vstd::string::*;

use crate::buffer;
use crate::media::frame;
use crate::media::frame::{MediaSample, SampleView};
use crate::rtp::packet::{HeaderView, PacketView};
use crate::rtp::{RtpHeader, RtpPacket};
use crate::sdp;
use crate::sdp::{Direction, MediaKind};
use crate::wire;

verus! {

#[derive(Debug, Clone, Copy, PartialEq, Eq, Structural, Default)]
pub enum TransceiverDirection {
    #[default]
    SendRecv,
    SendOnly,
    RecvOnly,
    Inactive,
}

impl TransceiverDirection {
    /// What is answered to an offer of this direction: the same flows, seen from the other end.
    pub open spec fn answered(self) -> TransceiverDirection {
        match self {
            TransceiverDirection::SendRecv => TransceiverDirection::SendRecv,
            TransceiverDirection::SendOnly => TransceiverDirection::RecvOnly,
            TransceiverDirection::RecvOnly => TransceiverDirection::SendOnly,
            TransceiverDirection::Inactive => TransceiverDirection::Inactive,
        }
    }

    /// What is answered to an offer of this direction.
    pub fn answer_direction(self) -> (r: Self)
        ensures
            r == self.answered(),
    {
        match self {
            TransceiverDirection::SendRecv => TransceiverDirection::SendRecv,
            TransceiverDirection::SendOnly => TransceiverDirection::RecvOnly,
            TransceiverDirection::RecvOnly => TransceiverDirection::SendOnly,
            TransceiverDirection::Inactive => TransceiverDirection::Inactive,
        }
    }

    /// The direction in a session description.
    pub open spec fn described(self) -> Direction {
        match self {
            TransceiverDirection::SendRecv => Direction::SendRecv,
            TransceiverDirection::SendOnly => Direction::SendOnly,
            TransceiverDirection::RecvOnly => Direction::RecvOnly,
            TransceiverDirection::Inactive => Direction::Inactive,
        }
    }
}

impl From<TransceiverDirection> for Direction {
    fn from(value: TransceiverDirection) -> (r: Self) {
        match value {
            TransceiverDirection::SendRecv => Direction::SendRecv,
            TransceiverDirection::SendOnly => Direction::SendOnly,
            TransceiverDirection::RecvOnly => Direction::RecvOnly,
            TransceiverDirection::Inactive => Direction::Inactive,
        }
    }
}

impl FromSpecImpl<TransceiverDirection> for Direction {
    open spec fn obeys_from_spec() -> bool {
        true
    }

    open spec fn from_spec(value: TransceiverDirection) -> Direction {
        value.described()
    }
}

/// The answer to an answer is the direction that was offered.
pub proof fn law_answers_mirror(d: TransceiverDirection)
    ensures
        d.answered().answered() == d,
{
}

/// How a codec is used in packets.
#[derive(Debug, Clone, Copy, PartialEq, Eq, Structural)]
pub struct RtpCodecParameters {
    pub payload_type: u8,
    pub clock_rate: u32,
    pub channels: u8,
}

impl Default for RtpCodecParameters {
    fn default() -> (r: Self)
        ensures
            r == video_parameters(),
    {
        RtpCodecParameters { payload_type: 96, clock_rate: 90000, channels: 0 }
    }
}

/// How audio is sent unless told otherwise.
pub open spec fn audio_parameters() -> RtpCodecParameters {
    RtpCodecParameters { payload_type: 111, clock_rate: 48000, channels: 2 }
}

/// How video is sent unless told otherwise.
pub open spec fn video_parameters() -> RtpCodecParameters {
    RtpCodecParameters { payload_type: 96, clock_rate: 90000, channels: 0 }
}

/// How media of a kind is sent unless told otherwise.
pub open spec fn parameters_for(kind: frame::MediaKind) -> RtpCodecParameters {
    match kind {
        frame::MediaKind::Audio => audio_parameters(),
        frame::MediaKind::Video => video_parameters(),
    }
}

/// How far the timestamp goes on when the source jumped.
pub const JUMP_STEP: u32 = 3000;

/// How many seconds a source may go on at once before that counts as a jump.
pub const JUMP_SECONDS: u32 = 10;

/// What turns the samples of a track into the packets of one stream.
#[derive(Debug, Clone, Copy, PartialEq, Eq)]
pub struct RtpSender {
    pub ssrc: u32,
    pub params: RtpCodecParameters,
    /// The number of the next packet.
    pub sequence_number: u16,
    /// The last timestamp of the source, and what became of it.
    pub last_timestamp: Option<(u32, u32)>,
}

/// How far the timestamp of a stream goes on when that of its source goes from `last` to `now`.
pub open spec fn timestamp_step(last: u32, now: u32, clock_rate: u32) -> nat {
    let delta = (now - last) % 0x1_0000_0000;
    if delta > JUMP_SECONDS * clock_rate {
        JUMP_STEP as nat
    } else {
        delta as nat
    }
}

/// The timestamp in the stream of a sample with the timestamp `now`.
pub open spec fn stream_timestamp(s: RtpSender, now: u32) -> u32 {
    match s.last_timestamp {
        None => now,
        Some((last, sent)) => ((sent + timestamp_step(last, now, s.params.clock_rate))
            % 0x1_0000_0000) as u32,
    }
}

/// The packet that a sample becomes in the stream: the data of the sample behind a plain header.
pub open spec fn stream_packet(s: RtpSender, sample: SampleView) -> PacketView {
    PacketView {
        header: HeaderView {
            marker: false,
            payload_type: s.params.payload_type,
            sequence_number: s.sequence_number,
            timestamp: stream_timestamp(s, source_timestamp(sample)),
            ssrc: s.ssrc,
            csrcs: seq![],
            extension: None,
        },
        payload: source_data(sample),
        padding_len: 0,
    }
}

/// The timestamp that a sample brings.
pub open spec fn source_timestamp(sample: SampleView) -> u32 {
    match sample {
        SampleView::Audio(f) => f.rtp_timestamp,
        SampleView::Video(f) => f.rtp_timestamp,
    }
}

/// The data that a sample brings.
pub open spec fn source_data(sample: SampleView) -> Seq<u8> {
    match sample {
        SampleView::Audio(f) => f.data,
        SampleView::Video(f) => f.data,
    }
}

/// The sender after a sample.
pub open spec fn sender_after(s: RtpSender, sample: SampleView) -> RtpSender {
    let now = source_timestamp(sample);
    RtpSender {
        sequence_number: ((s.sequence_number + 1) % 0x1_0000) as u16,
        last_timestamp: Some((now, stream_timestamp(s, now))),
        ..s
    }
}

/// The packets of a stream are numbered without a gap, whatever the numbers of the samples, and
/// their timestamps go on as those of the samples do, but by a small step where those jump.
pub proof fn law_stream_is_continuous(s: RtpSender, first: SampleView, second: SampleView)
    ensures
        ({
            let p = stream_packet(s, first);
            let q = stream_packet(sender_after(s, first), second);
            &&& q.header.sequence_number == (p.header.sequence_number + 1) % 0x1_0000
            &&& (q.header.timestamp - p.header.timestamp) % 0x1_0000_0000 == timestamp_step(
                source_timestamp(first),
                source_timestamp(second),
                s.params.clock_rate,
            )
            &&& q.header.ssrc == p.header.ssrc
        }),
{
    let step = timestamp_step(
        source_timestamp(first),
        source_timestamp(second),
        s.params.clock_rate,
    );
    let sent = stream_timestamp(s, source_timestamp(first));
    let next = (sent + step) % 0x1_0000_0000;
    assert(step < 0x1_0000_0000);
    assert((next - sent) % 0x1_0000_0000 == step);
}

impl RtpSender {
    /// A sender of media of this kind.
    pub fn new(kind: frame::MediaKind, ssrc: u32) -> (r: Self)
        ensures
            r == (RtpSender {
                ssrc,
                params: parameters_for(kind),
                sequence_number: 0,
                last_timestamp: None,
            }),
    {
        let params = match kind {
            frame::MediaKind::Audio => RtpCodecParameters {
                payload_type: 111,
                clock_rate: 48000,
                channels: 2,
            },
            frame::MediaKind::Video => RtpCodecParameters {
                payload_type: 96,
                clock_rate: 90000,
                channels: 0,
            },
        };
        RtpSender { ssrc, params, sequence_number: 0, last_timestamp: None }
    }

    pub fn set_params(&mut self, params: RtpCodecParameters)
        ensures
            *final(self) == (RtpSender { params, ..*old(self) }),
    {
        self.params = params;
    }

    /// The packet that a sample becomes in the stream.
    pub fn packet(&mut self, sample: MediaSample) -> (r: RtpPacket)
        ensures
            r@ == stream_packet(*old(self), sample@),
            *final(self) == sender_after(*old(self), sample@),
    {
        let (now, data) = match sample {
            MediaSample::Audio(f) => (f.rtp_timestamp, f.data),
            MediaSample::Video(f) => (f.rtp_timestamp, f.data),
        };
        let sent: u32 = self.rewritten(now);
        let header = RtpHeader::new(
            self.params.payload_type,
            self.sequence_number,
            sent,
            self.ssrc,
        );
        self.sequence_number = self.sequence_number.wrapping_add(1);
        self.last_timestamp = Some((now, sent));
        let content = buffer::bytes_slice(&data);
        let payload = wire::copy_range(content, 0, content.len());
        assert(payload@ =~= content@);
        RtpPacket::new(header, payload)
    }

    fn rewritten(&self, now: u32) -> (r: u32)
        ensures
            r == stream_timestamp(*self, now),
    {
        match self.last_timestamp {
            None => now,
            Some((last, sent)) => {
                let delta: u32 = now.wrapping_sub(last);
                let most: u64 = JUMP_SECONDS as u64 * self.params.clock_rate as u64;
                let step: u32 = if delta as u64 > most {
                    JUMP_STEP
                } else {
                    delta
                };
                sent.wrapping_add(step)
            },
        }
    }
}

/// What turns the packets of one stream into the samples of a track.
#[derive(Debug, Clone, Copy, PartialEq, Eq, Structural)]
pub struct RtpReceiver {
    pub kind: frame::MediaKind,
    pub ssrc: u32,
    pub params: RtpCodecParameters,
}

/// The medium of a track that receives this kind; data channels count as audio.
pub open spec fn received_kind(kind: MediaKind) -> frame::MediaKind {
    match kind {
        MediaKind::Video => frame::MediaKind::Video,
        _ => frame::MediaKind::Audio,
    }
}

/// A receiver of this kind.
pub open spec fn new_receiver(kind: MediaKind, ssrc: u32) -> RtpReceiver {
    RtpReceiver {
        kind: received_kind(kind),
        ssrc,
        params: match kind {
            MediaKind::Audio => audio_parameters(),
            _ => video_parameters(),
        },
    }
}

impl RtpReceiver {
    pub fn new(kind: MediaKind, ssrc: u32) -> (r: Self)
        ensures
            r == new_receiver(kind, ssrc),
    {
        let params = match kind {
            MediaKind::Audio => RtpCodecParameters {
                payload_type: 111,
                clock_rate: 48000,
                channels: 2,
            },
            _ => RtpCodecParameters { payload_type: 96, clock_rate: 90000, channels: 0 },
        };
        let kind = match kind {
            MediaKind::Video => frame::MediaKind::Video,
            _ => frame::MediaKind::Audio,
        };
        RtpReceiver { kind, ssrc, params }
    }

    pub fn set_params(&mut self, params: RtpCodecParameters)
        ensures
            *final(self) == (RtpReceiver { params, ..*old(self) }),
    {
        self.params = params;
    }

    /// The sample that a packet carries.
    pub fn sample(&self, packet: RtpPacket) -> (r: MediaSample)
        ensures
            r@ == frame::sample_of(
                packet@,
                self.kind,
                self.params.clock_rate,
                self.params.channels,
            ),
    {
        MediaSample::from_rtp_packet(
            packet,
            self.kind,
            self.params.clock_rate,
            self.params.channels,
        )
    }
}

/// One medium of a connection.
#[derive(Debug, Clone, PartialEq, Eq)]
pub struct RtpTransceiver {
    pub id: u64,
    pub kind: MediaKind,
    pub direction: TransceiverDirection,
    pub mid: Option<String>,
    pub sender: Option<RtpSender>,
    pub receiver: Option<RtpReceiver>,
}

/// One medium of a connection.
#[verifier::ext_equal]
pub struct TransceiverView {
    pub id: u64,
    pub kind: MediaKind,
    pub direction: TransceiverDirection,
    pub mid: Option<Seq<char>>,
    pub sender: Option<RtpSender>,
    pub receiver: Option<RtpReceiver>,
}

impl View for RtpTransceiver {
    type V = TransceiverView;

    open spec fn view(&self) -> TransceiverView {
        TransceiverView {
            id: self.id,
            kind: self.kind,
            direction: self.direction,
            mid: sdp::optional(self.mid),
            sender: self.sender,
            receiver: self.receiver,
        }
    }
}

/// The views of some media.
pub open spec fn transceiver_views(ts: Seq<RtpTransceiver>) -> Seq<TransceiverView> {
    ts.map_values(|t: RtpTransceiver| t@)
}

impl RtpTransceiver {
    /// A medium that has no name yet and neither sends nor receives.
    pub fn new(id: u64, kind: MediaKind, direction: TransceiverDirection) -> (r: Self)
        ensures
            r@ == (TransceiverView {
                id,
                kind,
                direction,
                mid: None,
                sender: None,
                receiver: None,
            }),
    {
        RtpTransceiver { id, kind, direction, mid: None, sender: None, receiver: None }
    }

    pub fn id(&self) -> (r: u64)
        ensures
            r == self@.id,
    {
        self.id
    }

    pub fn kind(&self) -> (r: MediaKind)
        ensures
            r == self@.kind,
    {
        self.kind
    }

    pub fn direction(&self) -> (r: TransceiverDirection)
        ensures
            r == self@.direction,
    {
        self.direction
    }

    pub fn set_direction(&mut self, direction: TransceiverDirection)
        ensures
            final(self)@ == (TransceiverView { direction, ..old(self)@ }),
    {
        self.direction = direction;
    }

    pub fn mid(&self) -> (r: Option<String>)
        ensures
            sdp::optional(r) == self@.mid,
    {
        match &self.mid {
            Some(m) => Some(m.clone()),
            None => None,
        }
    }

    pub fn set_mid(&mut self, mid: String)
        ensures
            final(self)@ == (TransceiverView { mid: Some(mid@), ..old(self)@ }),
    {
        self.mid = Some(mid);
    }
}

} // verus!
