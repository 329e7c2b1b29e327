//! RTCP compound packets: sender and receiver reports (RFC 3550), feedback (RFC 4585, RFC 5104),
//! REMB and transport-wide congestion control.
use vstd::prelude::*;
use vstd::slice::slice_subrange;

use crate::errors::{RtpError, RtpResult};
use crate::rtp::nack;
use crate::wire;

verus! {

pub const RTCP_SR: u8 = 200;

pub const RTCP_RR: u8 = 201;

pub const RTCP_RTPFB: u8 = 205;

pub const RTCP_PSFB: u8 = 206;

pub const RTCP_RTPFB_NACK: u8 = 1;

pub const RTCP_RTPFB_TWCC: u8 = 15;

pub const RTCP_PSFB_PLI: u8 = 1;

pub const RTCP_PSFB_FIR: u8 = 4;

/// REMB lives under the application format of payload feedback.
pub const RTCP_PSFB_APP: u8 = 15;

/// The reception statistics of one source.
#[derive(Debug, Clone, PartialEq, Eq)]
pub struct ReportBlock {
    pub ssrc: u32,
    pub fraction_lost: u8,
    pub packets_lost: i32,
    pub highest_sequence: u32,
    pub jitter: u32,
    pub last_sender_report: u32,
    pub delay_since_last_sender_report: u32,
}

#[derive(Debug, Clone, PartialEq, Eq)]
pub struct SenderReport {
    pub sender_ssrc: u32,
    pub ntp_most: u32,
    pub ntp_least: u32,
    pub rtp_timestamp: u32,
    pub packet_count: u32,
    pub octet_count: u32,
    pub report_blocks: Vec<ReportBlock>,
}

#[derive(Debug, Clone, PartialEq, Eq)]
pub struct ReceiverReport {
    pub sender_ssrc: u32,
    pub report_blocks: Vec<ReportBlock>,
}

#[derive(Debug, Clone, PartialEq, Eq)]
pub struct PictureLossIndication {
    pub sender_ssrc: u32,
    pub media_ssrc: u32,
}

#[derive(Debug, Clone, PartialEq, Eq)]
pub struct FirRequest {
    pub ssrc: u32,
    pub sequence_number: u8,
}

#[derive(Debug, Clone, PartialEq, Eq)]
pub struct FullIntraRequest {
    pub sender_ssrc: u32,
    pub requests: Vec<FirRequest>,
}

#[derive(Debug, Clone, PartialEq, Eq)]
pub struct GenericNack {
    pub sender_ssrc: u32,
    pub media_ssrc: u32,
    pub lost_packets: Vec<u16>,
}

#[derive(Debug, Clone, PartialEq, Eq)]
pub struct RemoteBitrateEstimate {
    pub sender_ssrc: u32,
    pub bitrate_bps: u64,
    pub ssrcs: Vec<u32>,
}

#[derive(Debug, Clone, PartialEq, Eq)]
pub struct TransportWideCc {
    pub sender_ssrc: u32,
    pub media_ssrc: u32,
    pub base_sequence: u16,
    pub packet_status_count: u16,
    pub reference_time_64ms: u32,
    pub feedback_packet_count: u8,
    pub payload: Vec<u8>,
}

/// One packet of a compound.
#[derive(Debug, Clone, PartialEq, Eq)]
pub enum RtcpPacket {
    SenderReport(SenderReport),
    ReceiverReport(ReceiverReport),
    PictureLossIndication(PictureLossIndication),
    FullIntraRequest(FullIntraRequest),
    GenericNack(GenericNack),
    RemoteBitrateEstimate(RemoteBitrateEstimate),
    TransportWideCc(TransportWideCc),
}

/// What an RTCP packet says.
#[verifier::ext_equal]
pub enum RtcpView {
    SenderReport {
        sender_ssrc: u32,
        ntp_most: u32,
        ntp_least: u32,
        rtp_timestamp: u32,
        packet_count: u32,
        octet_count: u32,
        report_blocks: Seq<ReportBlock>,
    },
    ReceiverReport { sender_ssrc: u32, report_blocks: Seq<ReportBlock> },
    PictureLossIndication { sender_ssrc: u32, media_ssrc: u32 },
    FullIntraRequest { sender_ssrc: u32, requests: Seq<FirRequest> },
    GenericNack { sender_ssrc: u32, media_ssrc: u32, lost_packets: Seq<u16> },
    RemoteBitrateEstimate { sender_ssrc: u32, bitrate_bps: u64, ssrcs: Seq<u32> },
    TransportWideCc {
        sender_ssrc: u32,
        media_ssrc: u32,
        base_sequence: u16,
        packet_status_count: u16,
        reference_time_64ms: u32,
        feedback_packet_count: u8,
        payload: Seq<u8>,
    },
}

impl View for SenderReport {
    type V = RtcpView;

    open spec fn view(&self) -> RtcpView {
        RtcpView::SenderReport {
            sender_ssrc: self.sender_ssrc,
            ntp_most: self.ntp_most,
            ntp_least: self.ntp_least,
            rtp_timestamp: self.rtp_timestamp,
            packet_count: self.packet_count,
            octet_count: self.octet_count,
            report_blocks: self.report_blocks@,
        }
    }
}

impl View for ReceiverReport {
    type V = RtcpView;

    open spec fn view(&self) -> RtcpView {
        RtcpView::ReceiverReport {
            sender_ssrc: self.sender_ssrc,
            report_blocks: self.report_blocks@,
        }
    }
}

impl View for PictureLossIndication {
    type V = RtcpView;

    open spec fn view(&self) -> RtcpView {
        RtcpView::PictureLossIndication {
            sender_ssrc: self.sender_ssrc,
            media_ssrc: self.media_ssrc,
        }
    }
}

impl View for FullIntraRequest {
    type V = RtcpView;

    open spec fn view(&self) -> RtcpView {
        RtcpView::FullIntraRequest { sender_ssrc: self.sender_ssrc, requests: self.requests@ }
    }
}

impl View for GenericNack {
    type V = RtcpView;

    open spec fn view(&self) -> RtcpView {
        RtcpView::GenericNack {
            sender_ssrc: self.sender_ssrc,
            media_ssrc: self.media_ssrc,
            lost_packets: self.lost_packets@,
        }
    }
}

impl View for RemoteBitrateEstimate {
    type V = RtcpView;

    open spec fn view(&self) -> RtcpView {
        RtcpView::RemoteBitrateEstimate {
            sender_ssrc: self.sender_ssrc,
            bitrate_bps: self.bitrate_bps,
            ssrcs: self.ssrcs@,
        }
    }
}

impl View for TransportWideCc {
    type V = RtcpView;

    open spec fn view(&self) -> RtcpView {
        RtcpView::TransportWideCc {
            sender_ssrc: self.sender_ssrc,
            media_ssrc: self.media_ssrc,
            base_sequence: self.base_sequence,
            packet_status_count: self.packet_status_count,
            reference_time_64ms: self.reference_time_64ms,
            feedback_packet_count: self.feedback_packet_count,
            payload: self.payload@,
        }
    }
}

impl View for RtcpPacket {
    type V = RtcpView;

    open spec fn view(&self) -> RtcpView {
        match self {
            RtcpPacket::SenderReport(p) => p@,
            RtcpPacket::ReceiverReport(p) => p@,
            RtcpPacket::PictureLossIndication(p) => p@,
            RtcpPacket::FullIntraRequest(p) => p@,
            RtcpPacket::GenericNack(p) => p@,
            RtcpPacket::RemoteBitrateEstimate(p) => p@,
            RtcpPacket::TransportWideCc(p) => p@,
        }
    }
}

/// What the packets of a compound say.
pub open spec fn rtcp_views(packets: Seq<RtcpPacket>) -> Seq<RtcpView> {
    packets.map_values(|p: RtcpPacket| p@)
}

/// Whether a parser's result is the result `s` says it should be.
pub open spec fn parses_to<T: View<V = RtcpView>>(
    r: RtpResult<T>,
    s: Result<RtcpView, RtpError>,
) -> bool {
    match r {
        Ok(p) => s == Ok::<RtcpView, RtpError>(p@),
        Err(e) => s == Err::<RtcpView, RtpError>(e),
    }
}

/// Whether a builder's result is the result `s` says it should be.
pub open spec fn builds_to(r: RtpResult<Vec<u8>>, s: Result<Seq<u8>, RtpError>) -> bool {
    match r {
        Ok(b) => s == Ok::<Seq<u8>, RtpError>(b@),
        Err(e) => s == Err::<Seq<u8>, RtpError>(e),
    }
}

// Report blocks.
/// The signed number that 24 bits in two's complement stand for.
pub open spec fn sign24(x: u32) -> i32 {
    if x >= 0x80_0000 {
        (x - 0x100_0000) as i32
    } else {
        x as i32
    }
}

/// The nearest number that 24 bits in two's complement can hold.
pub open spec fn clamp24(x: i32) -> i32 {
    if x < -0x80_0000 {
        (-0x80_0000) as i32
    } else if x > 0x7F_FFFF {
        0x7F_FFFF
    } else {
        x
    }
}

/// The 24 bits in two's complement of the nearest number that they can hold.
pub open spec fn lost24(x: i32) -> u32 {
    if clamp24(x) < 0 {
        (clamp24(x) + 0x100_0000) as u32
    } else {
        clamp24(x) as u32
    }
}

/// The report block that starts at `at`.
pub open spec fn block_at(s: Seq<u8>, at: int) -> ReportBlock {
    ReportBlock {
        ssrc: wire::be32(s, at),
        fraction_lost: s[at + 4],
        packets_lost: sign24(wire::be24(s, at + 5)),
        highest_sequence: wire::be32(s, at + 8),
        jitter: wire::be32(s, at + 12),
        last_sender_report: wire::be32(s, at + 16),
        delay_since_last_sender_report: wire::be32(s, at + 20),
    }
}

/// `n` consecutive report blocks, of which the first starts at `at`.
pub open spec fn blocks_at(s: Seq<u8>, at: int, n: nat) -> Seq<ReportBlock> {
    Seq::new(n, |i: int| block_at(s, at + 24 * i))
}

/// The bytes of a report block.
pub open spec fn block_bytes(b: ReportBlock) -> Seq<u8> {
    wire::enc32(b.ssrc) + seq![b.fraction_lost] + wire::enc24(lost24(b.packets_lost))
        + wire::enc32(b.highest_sequence) + wire::enc32(b.jitter) + wire::enc32(
        b.last_sender_report,
    ) + wire::enc32(b.delay_since_last_sender_report)
}

/// The bytes of report blocks, one after the other.
pub open spec fn blocks_bytes(bs: Seq<ReportBlock>) -> Seq<u8>
    decreases bs.len(),
{
    if bs.len() == 0 {
        seq![]
    } else {
        blocks_bytes(bs.drop_last()) + block_bytes(bs.last())
    }
}

// Feedback entries.
/// `n` consecutive FIR entries, of which the first starts at `at`.
pub open spec fn fir_at(s: Seq<u8>, at: int, n: nat) -> Seq<FirRequest> {
    Seq::new(
        n,
        |i: int|
            FirRequest { ssrc: wire::be32(s, at + 8 * i), sequence_number: s[at + 8 * i + 4] },
    )
}

/// The bytes of FIR entries, one after the other.
pub open spec fn fir_bytes(rs: Seq<FirRequest>) -> Seq<u8>
    decreases rs.len(),
{
    if rs.len() == 0 {
        seq![]
    } else {
        fir_bytes(rs.drop_last()) + wire::enc32(rs.last().ssrc) + seq![
            rs.last().sequence_number,
            0,
            0,
            0,
        ]
    }
}

/// `n` consecutive NACK pairs, of which the first starts at `at`.
pub open spec fn pairs_at(s: Seq<u8>, at: int, n: nat) -> Seq<(u16, u16)> {
    Seq::new(n, |i: int| (wire::be16(s, at + 4 * i), wire::be16(s, at + 4 * i + 2)))
}

/// The bytes of NACK pairs, one after the other.
pub open spec fn pairs_bytes(ps: Seq<(u16, u16)>) -> Seq<u8>
    decreases ps.len(),
{
    if ps.len() == 0 {
        seq![]
    } else {
        pairs_bytes(ps.drop_last()) + wire::enc16(ps.last().0) + wire::enc16(ps.last().1)
    }
}

// The bitrate of a REMB.
/// How often `bitrate` is halved until it fits 18 bits.
pub open spec fn remb_exponent(bitrate: u64) -> nat
    decreases bitrate,
{
    if bitrate > 0x3_FFFF {
        remb_exponent(bitrate / 2) + 1
    } else {
        0
    }
}

/// What `bitrate` is halved to until it fits 18 bits.
pub open spec fn remb_mantissa(bitrate: u64) -> u64
    decreases bitrate,
{
    if bitrate > 0x3_FFFF {
        remb_mantissa(bitrate / 2)
    } else {
        bitrate
    }
}

/// `x` doubled `n` times, modulo 2^64.
pub open spec fn doubled(x: u64, n: nat) -> u64
    decreases n,
{
    if n == 0 {
        x
    } else {
        ((doubled(x, (n - 1) as nat) * 2) % 0x1_0000_0000_0000_0000) as u64
    }
}

/// The bitrate that a REMB conveys for `bitrate`.
pub open spec fn remb_conveyed(bitrate: u64) -> u64 {
    doubled(remb_mantissa(bitrate), remb_exponent(bitrate))
}

// Bodies.
/// The sender report in a body, with `fmt` report blocks.
pub open spec fn sr_parsed(fmt: u8, body: Seq<u8>) -> Result<RtcpView, RtpError> {
    if body.len() < 24 {
        Err(RtpError::InvalidRtcp("sender report too short"))
    } else if body.len() < 24 + 24 * fmt {
        Err(RtpError::LengthMismatch)
    } else {
        Ok(
            RtcpView::SenderReport {
                sender_ssrc: wire::be32(body, 0),
                ntp_most: wire::be32(body, 4),
                ntp_least: wire::be32(body, 8),
                rtp_timestamp: wire::be32(body, 12),
                packet_count: wire::be32(body, 16),
                octet_count: wire::be32(body, 20),
                report_blocks: blocks_at(body, 24, fmt as nat),
            },
        )
    }
}

/// The receiver report in a body, with `fmt` report blocks.
pub open spec fn rr_parsed(fmt: u8, body: Seq<u8>) -> Result<RtcpView, RtpError> {
    if body.len() < 4 {
        Err(RtpError::InvalidRtcp("receiver report too short"))
    } else if body.len() < 4 + 24 * fmt {
        Err(RtpError::LengthMismatch)
    } else {
        Ok(
            RtcpView::ReceiverReport {
                sender_ssrc: wire::be32(body, 0),
                report_blocks: blocks_at(body, 4, fmt as nat),
            },
        )
    }
}

/// The picture loss indication in a body.
pub open spec fn pli_parsed(body: Seq<u8>) -> Result<RtcpView, RtpError> {
    if body.len() < 8 {
        Err(RtpError::InvalidRtcp("payload feedback body too short"))
    } else {
        Ok(
            RtcpView::PictureLossIndication {
                sender_ssrc: wire::be32(body, 0),
                media_ssrc: wire::be32(body, 4),
            },
        )
    }
}

/// The full intra request in a body: as many entries as the body has room for.
pub open spec fn fir_parsed(body: Seq<u8>) -> Result<RtcpView, RtpError> {
    if body.len() < 8 {
        Err(RtpError::InvalidRtcp("FIR body too short"))
    } else {
        Ok(
            RtcpView::FullIntraRequest {
                sender_ssrc: wire::be32(body, 0),
                requests: fir_at(body, 8, ((body.len() - 8) / 8) as nat),
            },
        )
    }
}

/// The generic NACK in a body: as many pairs as the body has room for.
pub open spec fn nack_parsed(body: Seq<u8>) -> Result<RtcpView, RtpError> {
    if body.len() < 8 {
        Err(RtpError::InvalidRtcp("NACK body too short"))
    } else {
        Ok(
            RtcpView::GenericNack {
                sender_ssrc: wire::be32(body, 0),
                media_ssrc: wire::be32(body, 4),
                lost_packets: nack::pair_numbers(
                    pairs_at(body, 8, ((body.len() - 8) / 4) as nat),
                ),
            },
        )
    }
}

/// Whether a payload feedback body carries the identifier `REMB`.
pub open spec fn has_remb_mark(body: Seq<u8>) -> bool {
    body[8] == 0x52 && body[9] == 0x45 && body[10] == 0x4D && body[11] == 0x42
}

/// The REMB in a body.
pub open spec fn remb_parsed(body: Seq<u8>) -> Result<RtcpView, RtpError> {
    if body.len() < 16 || !has_remb_mark(body) {
        Err(RtpError::InvalidRtcp("invalid REMB payload"))
    } else if body.len() < 16 + 4 * body[12] {
        Err(RtpError::LengthMismatch)
    } else {
        Ok(
            RtcpView::RemoteBitrateEstimate {
                sender_ssrc: wire::be32(body, 0),
                bitrate_bps: doubled(
                    ((body[13] % 4) * 0x1_0000 + body[14] * 0x100 + body[15]) as u64,
                    (body[13] / 4) as nat,
                ),
                ssrcs: wire::be32s(body, 16, body[12] as nat),
            },
        )
    }
}

/// The transport-wide feedback in a body.
pub open spec fn twcc_parsed(body: Seq<u8>) -> Result<RtcpView, RtpError> {
    if body.len() < 16 {
        Err(RtpError::InvalidRtcp("TWCC body too short"))
    } else {
        Ok(
            RtcpView::TransportWideCc {
                sender_ssrc: wire::be32(body, 0),
                media_ssrc: wire::be32(body, 4),
                base_sequence: wire::be16(body, 8),
                packet_status_count: wire::be16(body, 10),
                reference_time_64ms: wire::be24(body, 12),
                feedback_packet_count: body[15],
                payload: body.subrange(16, body.len() as int),
            },
        )
    }
}

/// The transport feedback in a body.
pub open spec fn rtpfb_parsed(fmt: u8, body: Seq<u8>) -> Result<RtcpView, RtpError> {
    if fmt == RTCP_RTPFB_NACK {
        nack_parsed(body)
    } else if fmt == RTCP_RTPFB_TWCC {
        twcc_parsed(body)
    } else {
        Err(RtpError::InvalidRtcp("unsupported RTP feedback format"))
    }
}

/// The payload feedback in a body.
pub open spec fn psfb_parsed(fmt: u8, body: Seq<u8>) -> Result<RtcpView, RtpError> {
    if fmt == RTCP_PSFB_PLI {
        pli_parsed(body)
    } else if fmt == RTCP_PSFB_FIR {
        fir_parsed(body)
    } else if fmt == RTCP_PSFB_APP {
        remb_parsed(body)
    } else {
        Err(RtpError::InvalidRtcp("unsupported payload feedback format"))
    }
}

/// The packet in a body, given the packet type and the format of its header.
pub open spec fn body_parsed(packet_type: u8, fmt: u8, body: Seq<u8>) -> Result<
    RtcpView,
    RtpError,
> {
    if packet_type == RTCP_SR {
        sr_parsed(fmt, body)
    } else if packet_type == RTCP_RR {
        rr_parsed(fmt, body)
    } else if packet_type == RTCP_RTPFB {
        rtpfb_parsed(fmt, body)
    } else if packet_type == RTCP_PSFB {
        psfb_parsed(fmt, body)
    } else {
        Err(RtpError::InvalidRtcp("unsupported RTCP packet type"))
    }
}

/// The length of the first packet of a compound, as its header gives it.
pub open spec fn first_len(raw: Seq<u8>) -> int {
    (wire::be16(raw, 2) + 1) * 4
}

/// The first packet of a compound of at least four bytes.
pub open spec fn first_parsed(raw: Seq<u8>) -> Result<RtcpView, RtpError> {
    let len = first_len(raw);
    let padded = (raw[0] / 32) % 2 == 1;
    let pad = if padded {
        raw[len - 1] as int
    } else {
        0
    };
    if raw[0] / 64 != 2 {
        Err(RtpError::InvalidRtcp("invalid RTCP version"))
    } else if raw.len() < len {
        Err(RtpError::LengthMismatch)
    } else if padded && (pad == 0 || pad > len - 4) {
        Err(RtpError::InvalidRtcp("invalid padding in RTCP packet"))
    } else {
        body_parsed(raw[1], raw[0] % 32, raw.subrange(4, len - pad))
    }
}

/// A result for the rest of a compound, with packets put before it.
pub open spec fn with_packets_before(
    head: Seq<RtcpView>,
    rest: Result<Seq<RtcpView>, RtpError>,
) -> Result<Seq<RtcpView>, RtpError> {
    match rest {
        Ok(ps) => Ok(head + ps),
        Err(e) => Err(e),
    }
}

/// The packets of a compound. Fewer than four bytes at the end are ignored.
pub open spec fn rtcp_parsed(raw: Seq<u8>) -> Result<Seq<RtcpView>, RtpError>
    decreases raw.len(),
{
    if raw.len() < 4 {
        Ok(seq![])
    } else {
        match first_parsed(raw) {
            Ok(p) => if raw.len() < first_len(raw) {
                Err(RtpError::LengthMismatch)
            } else {
                with_packets_before(
                    seq![p],
                    rtcp_parsed(raw.subrange(first_len(raw), raw.len() as int)),
                )
            },
            Err(e) => Err(e),
        }
    }
}

/// The body of the packet that conveys `p`.
#[verifier::opaque]
pub open spec fn body_bytes(p: RtcpView) -> Result<Seq<u8>, RtpError> {
    match p {
        RtcpView::SenderReport {
            sender_ssrc,
            ntp_most,
            ntp_least,
            rtp_timestamp,
            packet_count,
            octet_count,
            report_blocks,
        } => Ok(
            wire::enc32(sender_ssrc) + wire::enc32(ntp_most) + wire::enc32(ntp_least)
                + wire::enc32(rtp_timestamp) + wire::enc32(packet_count) + wire::enc32(octet_count)
                + blocks_bytes(report_blocks),
        ),
        RtcpView::ReceiverReport { sender_ssrc, report_blocks } => Ok(
            wire::enc32(sender_ssrc) + blocks_bytes(report_blocks),
        ),
        RtcpView::PictureLossIndication { sender_ssrc, media_ssrc } => Ok(
            wire::enc32(sender_ssrc) + wire::enc32(media_ssrc),
        ),
        RtcpView::FullIntraRequest { sender_ssrc, requests } => Ok(
            wire::enc32(sender_ssrc) + wire::enc32(0) + fir_bytes(requests),
        ),
        RtcpView::GenericNack { sender_ssrc, media_ssrc, lost_packets } => if lost_packets.len()
            == 0 {
            Err(RtpError::InvalidRtcp("NACK requires at least one packet"))
        } else {
            Ok(
                wire::enc32(sender_ssrc) + wire::enc32(media_ssrc) + pairs_bytes(
                    nack::nack_pairs(nack::ascending(lost_packets)),
                ),
            )
        },
        RtcpView::RemoteBitrateEstimate { sender_ssrc, bitrate_bps, ssrcs } => if ssrcs.len()
            > 255 {
            Err(RtpError::InvalidRtcp("too many REMB SSRC entries"))
        } else {
            Ok(
                wire::enc32(sender_ssrc) + wire::enc32(0) + seq![
                    0x52u8,
                    0x45,
                    0x4D,
                    0x42,
                    ssrcs.len() as u8,
                    (remb_exponent(bitrate_bps) * 4 + remb_mantissa(bitrate_bps) / 0x1_0000) as u8,
                    ((remb_mantissa(bitrate_bps) / 0x100) % 256) as u8,
                    (remb_mantissa(bitrate_bps) % 256) as u8,
                ] + wire::enc32s(ssrcs),
            )
        },
        RtcpView::TransportWideCc {
            sender_ssrc,
            media_ssrc,
            base_sequence,
            packet_status_count,
            reference_time_64ms,
            feedback_packet_count,
            payload,
        } => Ok(
            wire::enc32(sender_ssrc) + wire::enc32(media_ssrc) + wire::enc16(base_sequence)
                + wire::enc16(packet_status_count) + wire::enc24(reference_time_64ms) + seq![
                feedback_packet_count,
            ] + payload,
        ),
    }
}

/// The packet type of the packet that conveys `p`.
pub open spec fn packet_type_of(p: RtcpView) -> u8 {
    match p {
        RtcpView::SenderReport { .. } => RTCP_SR,
        RtcpView::ReceiverReport { .. } => RTCP_RR,
        RtcpView::GenericNack { .. } => RTCP_RTPFB,
        RtcpView::TransportWideCc { .. } => RTCP_RTPFB,
        _ => RTCP_PSFB,
    }
}

/// The count or format of the packet that conveys `p`.
pub open spec fn fmt_of(p: RtcpView) -> nat {
    match p {
        RtcpView::SenderReport { report_blocks, .. } => report_blocks.len() % 32,
        RtcpView::ReceiverReport { report_blocks, .. } => report_blocks.len() % 32,
        RtcpView::PictureLossIndication { .. } => 1,
        RtcpView::FullIntraRequest { .. } => 4,
        RtcpView::GenericNack { .. } => 1,
        RtcpView::RemoteBitrateEstimate { .. } => 15,
        RtcpView::TransportWideCc { .. } => 15,
    }
}

/// `body` with zeros up to a multiple of four bytes.
pub open spec fn padded(body: Seq<u8>) -> Seq<u8> {
    body + wire::repeated(0, ((4 - body.len() % 4) % 4) as nat)
}

/// A packet: the header, then the padded body. The header counts 32-bit words, modulo 2^16.
pub open spec fn framed(fmt: nat, packet_type: u8, body: Seq<u8>) -> Seq<u8> {
    seq![(128 + fmt) as u8, packet_type] + wire::enc16(
        ((padded(body).len() / 4) % 0x1_0000) as u16,
    ) + padded(body)
}

/// The packet that conveys `p`.
pub open spec fn packet_bytes(p: RtcpView) -> Result<Seq<u8>, RtpError> {
    match body_bytes(p) {
        Ok(body) => Ok(framed(fmt_of(p), packet_type_of(p), body)),
        Err(e) => Err(e),
    }
}

/// A result for the rest of a compound, with bytes put before it.
pub open spec fn with_bytes_before(
    head: Seq<u8>,
    rest: Result<Seq<u8>, RtpError>,
) -> Result<Seq<u8>, RtpError> {
    match rest {
        Ok(b) => Ok(head + b),
        Err(e) => Err(e),
    }
}

/// The compound that conveys `ps`; the first packet that cannot be built gives the error.
pub open spec fn rtcp_marshaled(ps: Seq<RtcpView>) -> Result<Seq<u8>, RtpError>
    decreases ps.len(),
{
    if ps.len() == 0 {
        Ok(seq![])
    } else {
        match packet_bytes(ps[0]) {
            Ok(b) => with_bytes_before(b, rtcp_marshaled(ps.drop_first())),
            Err(e) => Err(e),
        }
    }
}

/// Parses the 24 bytes of a report block that start at `at`.
pub fn parse_report_block(bytes: &[u8], at: usize) -> (r: ReportBlock)
    requires
        at + 24 <= bytes@.len(),
    ensures
        r == block_at(bytes@, at as int),
{
    let len: usize = bytes.len();
    assert(at + 24 <= len);
    let lost: u32 = wire::get_u24(bytes, at + 5);
    let packets_lost: i32 = if lost >= 0x80_0000 {
        lost as i32 - 0x100_0000
    } else {
        lost as i32
    };
    ReportBlock {
        ssrc: wire::get_u32(bytes, at),
        fraction_lost: bytes[at + 4],
        packets_lost,
        highest_sequence: wire::get_u32(bytes, at + 8),
        jitter: wire::get_u32(bytes, at + 12),
        last_sender_report: wire::get_u32(bytes, at + 16),
        delay_since_last_sender_report: wire::get_u32(bytes, at + 20),
    }
}

/// Parses `count` report blocks, of which the first starts at `at`.
fn parse_report_blocks(body: &[u8], at: usize, count: u8) -> (r: RtpResult<Vec<ReportBlock>>)
    requires
        at <= 24,
        at <= body@.len(),
    ensures
        r == Err::<Vec<ReportBlock>, RtpError>(RtpError::LengthMismatch) <==> body@.len() < at + 24
            * count,
        r is Err ==> r == Err::<Vec<ReportBlock>, RtpError>(RtpError::LengthMismatch),
        r matches Ok(bs) ==> bs@ == blocks_at(body@, at as int, count as nat),
{
    let len: usize = body.len();
    let mut blocks: Vec<ReportBlock> = Vec::new();
    let mut offset: usize = at;
    let mut i: u8 = 0;
    while i < count
        invariant
            len == body@.len(),
            at <= 24,
            i <= count,
            offset == at + 24 * i,
            offset <= len,
            blocks@ == blocks_at(body@, at as int, i as nat),
        decreases count - i,
    {
        if len - offset < 24 {
            return Err(RtpError::LengthMismatch);
        }
        blocks.push(parse_report_block(body, offset));
        offset += 24;
        i += 1;
        assert(blocks@ =~= blocks_at(body@, at as int, i as nat));
    }
    Ok(blocks)
}

pub fn parse_sender_report(fmt: u8, body: &[u8]) -> (r: RtpResult<SenderReport>)
    ensures
        parses_to(r, sr_parsed(fmt, body@)),
{
    if body.len() < 24 {
        return Err(RtpError::InvalidRtcp("sender report too short"));
    }
    let report_blocks = parse_report_blocks(body, 24, fmt)?;
    Ok(
        SenderReport {
            sender_ssrc: wire::get_u32(body, 0),
            ntp_most: wire::get_u32(body, 4),
            ntp_least: wire::get_u32(body, 8),
            rtp_timestamp: wire::get_u32(body, 12),
            packet_count: wire::get_u32(body, 16),
            octet_count: wire::get_u32(body, 20),
            report_blocks,
        },
    )
}

pub fn parse_receiver_report(fmt: u8, body: &[u8]) -> (r: RtpResult<ReceiverReport>)
    ensures
        parses_to(r, rr_parsed(fmt, body@)),
{
    if body.len() < 4 {
        return Err(RtpError::InvalidRtcp("receiver report too short"));
    }
    let report_blocks = parse_report_blocks(body, 4, fmt)?;
    Ok(ReceiverReport { sender_ssrc: wire::get_u32(body, 0), report_blocks })
}

pub fn parse_psfb_common(body: &[u8]) -> (r: RtpResult<PictureLossIndication>)
    ensures
        parses_to(r, pli_parsed(body@)),
{
    if body.len() < 8 {
        return Err(RtpError::InvalidRtcp("payload feedback body too short"));
    }
    Ok(
        PictureLossIndication {
            sender_ssrc: wire::get_u32(body, 0),
            media_ssrc: wire::get_u32(body, 4),
        },
    )
}

pub fn parse_fir_body(body: &[u8]) -> (r: RtpResult<FullIntraRequest>)
    ensures
        parses_to(r, fir_parsed(body@)),
{
    let len: usize = body.len();
    if len < 8 {
        return Err(RtpError::InvalidRtcp("FIR body too short"));
    }
    let mut requests: Vec<FirRequest> = Vec::new();
    let mut offset: usize = 8;
    while len - offset >= 8
        invariant
            len == body@.len(),
            offset == 8 + 8 * requests@.len(),
            offset <= len,
            requests@ == fir_at(body@, 8, requests@.len()),
        decreases len - offset,
    {
        let ghost before = requests@;
        requests.push(
            FirRequest {
                ssrc: wire::get_u32(body, offset),
                sequence_number: body[offset + 4],
            },
        );
        offset += 8;
        assert(requests@ =~= fir_at(body@, 8, requests@.len())) by {
            assert(forall|i: int|
                0 <= i < before.len() ==> before[i] == fir_at(body@, 8, before.len())[i]);
        }
    }
    assert(requests@.len() == (len - 8) / 8);
    Ok(FullIntraRequest { sender_ssrc: wire::get_u32(body, 0), requests })
}

proof fn lemma_pair_numbers_push(ps: Seq<(u16, u16)>, p: (u16, u16))
    ensures
        nack::pair_numbers(ps.push(p)) == nack::pair_numbers(ps) + (seq![p.0] + nack::mask_list(
            p.0,
            p.1,
            16,
        )),
    decreases ps.len(),
{
    let all = ps.push(p);
    if ps.len() == 0 {
        assert(all.drop_first() =~= seq![]);
        assert(nack::pair_numbers(all.drop_first()) =~= seq![]);
        assert(nack::pair_numbers(all) =~= seq![p.0] + nack::mask_list(p.0, p.1, 16));
        assert(nack::pair_numbers(ps) =~= seq![]);
    } else {
        lemma_pair_numbers_push(ps.drop_first(), p);
        assert(all.drop_first() =~= ps.drop_first().push(p));
    }
    assert(nack::pair_numbers(all) =~= nack::pair_numbers(ps) + (seq![p.0] + nack::mask_list(
        p.0,
        p.1,
        16,
    )));
}

pub fn parse_nack_body(body: &[u8]) -> (r: RtpResult<GenericNack>)
    ensures
        parses_to(r, nack_parsed(body@)),
{
    let len: usize = body.len();
    if len < 8 {
        return Err(RtpError::InvalidRtcp("NACK body too short"));
    }
    let mut lost_packets: Vec<u16> = Vec::new();
    let mut offset: usize = 8;
    let ghost mut count: nat = 0;
    assert(lost_packets@ =~= nack::pair_numbers(pairs_at(body@, 8, 0)));
    while len - offset >= 4
        invariant
            len == body@.len(),
            offset == 8 + 4 * count,
            offset <= len,
            lost_packets@ == nack::pair_numbers(pairs_at(body@, 8, count)),
        decreases len - offset,
    {
        let pid: u16 = wire::get_u16(body, offset);
        let blp: u16 = wire::get_u16(body, offset + 2);
        nack::push_pair_numbers(&mut lost_packets, pid, blp);
        proof {
            let ps = pairs_at(body@, 8, count);
            lemma_pair_numbers_push(ps, (pid, blp));
            count = count + 1;
            assert(pairs_at(body@, 8, count) =~= ps.push((pid, blp)));
        }
        offset += 4;
    }
    assert(count == (len - 8) / 4);
    Ok(
        GenericNack {
            sender_ssrc: wire::get_u32(body, 0),
            media_ssrc: wire::get_u32(body, 4),
            lost_packets,
        },
    )
}

pub fn parse_remb_body(body: &[u8]) -> (r: RtpResult<RemoteBitrateEstimate>)
    ensures
        parses_to(r, remb_parsed(body@)),
{
    let len: usize = body.len();
    if len < 16 || !(body[8] == 0x52 && body[9] == 0x45 && body[10] == 0x4D && body[11] == 0x42) {
        return Err(RtpError::InvalidRtcp("invalid REMB payload"));
    }
    let num_ssrc: usize = body[12] as usize;
    let exponent: u8 = body[13] / 4;
    let mantissa: u64 = (body[13] % 4) as u64 * 0x1_0000 + body[14] as u64 * 0x100
        + body[15] as u64;
    let mut bitrate_bps: u64 = mantissa;
    let mut i: u8 = 0;
    while i < exponent
        invariant
            i <= exponent,
            bitrate_bps == doubled(mantissa, i as nat),
        decreases exponent - i,
    {
        bitrate_bps = bitrate_bps.wrapping_mul(2);
        i += 1;
    }
    if len - 16 < 4 * num_ssrc {
        return Err(RtpError::LengthMismatch);
    }
    Ok(
        RemoteBitrateEstimate {
            sender_ssrc: wire::get_u32(body, 0),
            bitrate_bps,
            ssrcs: wire::get_u32s(body, 16, num_ssrc),
        },
    )
}

pub fn parse_twcc_body(body: &[u8]) -> (r: RtpResult<TransportWideCc>)
    ensures
        parses_to(r, twcc_parsed(body@)),
{
    if body.len() < 16 {
        return Err(RtpError::InvalidRtcp("TWCC body too short"));
    }
    Ok(
        TransportWideCc {
            sender_ssrc: wire::get_u32(body, 0),
            media_ssrc: wire::get_u32(body, 4),
            base_sequence: wire::get_u16(body, 8),
            packet_status_count: wire::get_u16(body, 10),
            reference_time_64ms: wire::get_u24(body, 12),
            feedback_packet_count: body[15],
            payload: wire::copy_range(body, 16, body.len()),
        },
    )
}

pub fn parse_rtcp_rtpfb(fmt: u8, body: &[u8]) -> (r: RtpResult<RtcpPacket>)
    ensures
        parses_to(r, rtpfb_parsed(fmt, body@)),
{
    if fmt == RTCP_RTPFB_NACK {
        Ok(RtcpPacket::GenericNack(parse_nack_body(body)?))
    } else if fmt == RTCP_RTPFB_TWCC {
        Ok(RtcpPacket::TransportWideCc(parse_twcc_body(body)?))
    } else {
        Err(RtpError::InvalidRtcp("unsupported RTP feedback format"))
    }
}

pub fn parse_rtcp_psfb(fmt: u8, body: &[u8]) -> (r: RtpResult<RtcpPacket>)
    ensures
        parses_to(r, psfb_parsed(fmt, body@)),
{
    if fmt == RTCP_PSFB_PLI {
        Ok(RtcpPacket::PictureLossIndication(parse_psfb_common(body)?))
    } else if fmt == RTCP_PSFB_FIR {
        Ok(RtcpPacket::FullIntraRequest(parse_fir_body(body)?))
    } else if fmt == RTCP_PSFB_APP {
        Ok(RtcpPacket::RemoteBitrateEstimate(parse_remb_body(body)?))
    } else {
        Err(RtpError::InvalidRtcp("unsupported payload feedback format"))
    }
}

fn parse_rtcp_body(packet_type: u8, fmt: u8, body: &[u8]) -> (r: RtpResult<RtcpPacket>)
    ensures
        parses_to(r, body_parsed(packet_type, fmt, body@)),
{
    if packet_type == RTCP_SR {
        Ok(RtcpPacket::SenderReport(parse_sender_report(fmt, body)?))
    } else if packet_type == RTCP_RR {
        Ok(RtcpPacket::ReceiverReport(parse_receiver_report(fmt, body)?))
    } else if packet_type == RTCP_RTPFB {
        parse_rtcp_rtpfb(fmt, body)
    } else if packet_type == RTCP_PSFB {
        parse_rtcp_psfb(fmt, body)
    } else {
        Err(RtpError::InvalidRtcp("unsupported RTCP packet type"))
    }
}

/// Parses the first packet of a compound of at least four bytes.
fn parse_first(raw: &[u8]) -> (r: RtpResult<(RtcpPacket, usize)>)
    requires
        raw@.len() >= 4,
    ensures
        match r {
            Ok((p, len)) => first_parsed(raw@) == Ok::<RtcpView, RtpError>(p@) && len == first_len(
                raw@,
            ) && len <= raw@.len(),
            Err(e) => first_parsed(raw@) == Err::<RtcpView, RtpError>(e),
        },
{
    let vrc: u8 = raw[0];
    if vrc / 64 != 2 {
        return Err(RtpError::InvalidRtcp("invalid RTCP version"));
    }
    let padding: bool = (vrc / 32) % 2 == 1;
    let length_words: usize = wire::get_u16(raw, 2) as usize;
    let packet_len: usize = (length_words + 1) * 4;
    if raw.len() < packet_len {
        return Err(RtpError::LengthMismatch);
    }
    let mut body_end: usize = packet_len;
    if padding {
        let pad: usize = raw[body_end - 1] as usize;
        if pad == 0 || pad > packet_len - 4 {
            return Err(RtpError::InvalidRtcp("invalid padding in RTCP packet"));
        }
        body_end -= pad;
    }
    let packet = parse_rtcp_body(raw[1], vrc % 32, slice_subrange(raw, 4, body_end))?;
    Ok((packet, packet_len))
}

/// Parses a compound packet.
pub fn parse_rtcp_packets(raw: &[u8]) -> (r: RtpResult<Vec<RtcpPacket>>)
    ensures
        match r {
            Ok(ps) => rtcp_parsed(raw@) == Ok::<Seq<RtcpView>, RtpError>(rtcp_views(ps@)),
            Err(e) => rtcp_parsed(raw@) == Err::<Seq<RtcpView>, RtpError>(e),
        },
{
    let len: usize = raw.len();
    let mut packets: Vec<RtcpPacket> = Vec::new();
    let mut offset: usize = 0;
    proof {
        assert(raw@.subrange(0, len as int) =~= raw@);
        assert(rtcp_views(packets@) =~= seq![]);
        match rtcp_parsed(raw@) {
            Ok(ps) => assert(seq![] + ps =~= ps),
            Err(_) => {},
        }
    }
    while len - offset >= 4
        invariant
            len == raw@.len(),
            offset <= len,
            rtcp_parsed(raw@) == with_packets_before(
                rtcp_views(packets@),
                rtcp_parsed(raw@.subrange(offset as int, len as int)),
            ),
        decreases len - offset,
    {
        let ghost rest = raw@.subrange(offset as int, len as int);
        let ghost head = rtcp_views(packets@);
        let (packet, packet_len) = parse_first(slice_subrange(raw, offset, len))?;
        packets.push(packet);
        offset += packet_len;
        proof {
            let after = raw@.subrange(offset as int, len as int);
            assert(rest.subrange(first_len(rest), rest.len() as int) =~= after);
            assert(rtcp_views(packets@) =~= head.push(packet@));
            match rtcp_parsed(after) {
                Ok(ps) => assert(head + (seq![packet@] + ps) =~= head.push(packet@) + ps),
                Err(_) => {},
            }
        }
    }
    proof {
        assert(rtcp_views(packets@) + seq![] =~= rtcp_views(packets@));
    }
    Ok(packets)
}

/// Builds the 24 bytes of a report block. A number of lost packets that does not fit 24 bits is
/// clamped.
pub fn build_report_block(block: &ReportBlock) -> (buf: Vec<u8>)
    ensures
        buf@ == block_bytes(*block),
{
    let clamped: i32 = if block.packets_lost < -0x80_0000 {
        -0x80_0000
    } else if block.packets_lost > 0x7F_FFFF {
        0x7F_FFFF
    } else {
        block.packets_lost
    };
    let lost: u32 = if clamped < 0 {
        (clamped + 0x100_0000) as u32
    } else {
        clamped as u32
    };
    let mut buf: Vec<u8> = Vec::new();
    wire::put_u32(&mut buf, block.ssrc);
    buf.push(block.fraction_lost);
    wire::put_u24(&mut buf, lost);
    wire::put_u32(&mut buf, block.highest_sequence);
    wire::put_u32(&mut buf, block.jitter);
    wire::put_u32(&mut buf, block.last_sender_report);
    wire::put_u32(&mut buf, block.delay_since_last_sender_report);
    assert(buf@ =~= block_bytes(*block));
    buf
}

fn put_report_blocks(out: &mut Vec<u8>, blocks: &[ReportBlock])
    ensures
        final(out)@ == old(out)@ + blocks_bytes(blocks@),
{
    let n: usize = blocks.len();
    let mut i: usize = 0;
    assert(out@ =~= old(out)@ + blocks_bytes(blocks@.subrange(0, 0)));
    while i < n
        invariant
            n == blocks@.len(),
            i <= n,
            out@ == old(out)@ + blocks_bytes(blocks@.subrange(0, i as int)),
        decreases n - i,
    {
        let buf = build_report_block(&blocks[i]);
        wire::put_bytes(out, buf.as_slice());
        i += 1;
        let ghost head = blocks@.subrange(0, i as int);
        assert(head.drop_last() =~= blocks@.subrange(0, i - 1));
        assert(out@ =~= old(out)@ + blocks_bytes(head));
    }
    assert(blocks@.subrange(0, n as int) =~= blocks@);
}

pub fn build_sender_report_body(sr: &SenderReport) -> (r: RtpResult<Vec<u8>>)
    ensures
        builds_to(r, body_bytes(sr@)),
{
    let mut body: Vec<u8> = Vec::new();
    wire::put_u32(&mut body, sr.sender_ssrc);
    wire::put_u32(&mut body, sr.ntp_most);
    wire::put_u32(&mut body, sr.ntp_least);
    wire::put_u32(&mut body, sr.rtp_timestamp);
    wire::put_u32(&mut body, sr.packet_count);
    wire::put_u32(&mut body, sr.octet_count);
    put_report_blocks(&mut body, sr.report_blocks.as_slice());
    proof {
        reveal(body_bytes);
        assert(body@ =~= body_bytes(sr@)->Ok_0);
    }
    Ok(body)
}

pub fn build_receiver_report_body(rr: &ReceiverReport) -> (r: RtpResult<Vec<u8>>)
    ensures
        builds_to(r, body_bytes(rr@)),
{
    let mut body: Vec<u8> = Vec::new();
    wire::put_u32(&mut body, rr.sender_ssrc);
    put_report_blocks(&mut body, rr.report_blocks.as_slice());
    proof {
        reveal(body_bytes);
        assert(body@ =~= body_bytes(rr@)->Ok_0);
    }
    Ok(body)
}

pub fn build_psfb_common(sender_ssrc: u32, media_ssrc: u32) -> (body: Vec<u8>)
    ensures
        body@ == wire::enc32(sender_ssrc) + wire::enc32(media_ssrc),
{
    let mut body: Vec<u8> = Vec::new();
    wire::put_u32(&mut body, sender_ssrc);
    wire::put_u32(&mut body, media_ssrc);
    assert(body@ =~= wire::enc32(sender_ssrc) + wire::enc32(media_ssrc));
    body
}

pub fn build_fir_body(fir: &FullIntraRequest) -> (body: Vec<u8>)
    ensures
        body_bytes(fir@) == Ok::<Seq<u8>, RtpError>(body@),
{
    let n: usize = fir.requests.len();
    let mut body: Vec<u8> = build_psfb_common(fir.sender_ssrc, 0);
    let ghost head = body@;
    let mut i: usize = 0;
    assert(body@ =~= head + fir_bytes(fir.requests@.subrange(0, 0)));
    while i < n
        invariant
            n == fir.requests@.len(),
            i <= n,
            body@ == head + fir_bytes(fir.requests@.subrange(0, i as int)),
        decreases n - i,
    {
        wire::put_u32(&mut body, fir.requests[i].ssrc);
        body.push(fir.requests[i].sequence_number);
        body.push(0);
        body.push(0);
        body.push(0);
        i += 1;
        let ghost done = fir.requests@.subrange(0, i as int);
        assert(done.drop_last() =~= fir.requests@.subrange(0, i - 1));
        assert(body@ =~= head + fir_bytes(done));
    }
    proof {
        reveal(body_bytes);
        assert(fir.requests@.subrange(0, n as int) =~= fir.requests@);
    }
    body
}

pub fn build_nack_body(nack: &GenericNack) -> (r: RtpResult<Vec<u8>>)
    ensures
        builds_to(r, body_bytes(nack@)),
{
    proof {
        reveal(body_bytes);
    }
    if nack.lost_packets.len() == 0 {
        return Err(RtpError::InvalidRtcp("NACK requires at least one packet"));
    }
    let pairs: Vec<(u16, u16)> = nack::pack_nack_pairs(nack.lost_packets.as_slice());
    let mut body: Vec<u8> = build_psfb_common(nack.sender_ssrc, nack.media_ssrc);
    let ghost head = body@;
    let n: usize = pairs.len();
    let mut i: usize = 0;
    assert(body@ =~= head + pairs_bytes(pairs@.subrange(0, 0)));
    while i < n
        invariant
            n == pairs@.len(),
            i <= n,
            body@ == head + pairs_bytes(pairs@.subrange(0, i as int)),
        decreases n - i,
    {
        wire::put_u16(&mut body, pairs[i].0);
        wire::put_u16(&mut body, pairs[i].1);
        i += 1;
        let ghost done = pairs@.subrange(0, i as int);
        assert(done.drop_last() =~= pairs@.subrange(0, i - 1));
        assert(body@ =~= head + pairs_bytes(done));
    }
    assert(pairs@.subrange(0, n as int) =~= pairs@);
    Ok(body)
}

pub proof fn lemma_remb_parts(bitrate: u64)
    ensures
        remb_mantissa(bitrate) <= 0x3_FFFF,
        remb_exponent(bitrate) <= 46,
{
    lemma_remb_exponent(bitrate, 46);
    lemma_remb_mantissa(bitrate);
}

proof fn lemma_remb_mantissa(bitrate: u64)
    ensures
        remb_mantissa(bitrate) <= 0x3_FFFF,
    decreases bitrate,
{
    if bitrate > 0x3_FFFF {
        lemma_remb_mantissa(bitrate / 2);
    }
}

/// `2` to the power `n`.
pub open spec fn two_to(n: nat) -> nat
    decreases n,
{
    if n == 0 {
        1
    } else {
        2 * two_to((n - 1) as nat)
    }
}

proof fn lemma_remb_exponent_bound(bitrate: u64, n: nat)
    requires
        bitrate < 0x4_0000 * two_to(n),
    ensures
        remb_exponent(bitrate) <= n,
    decreases n,
{
    if bitrate > 0x3_FFFF {
        if n > 0 {
            lemma_remb_exponent_bound(bitrate / 2, (n - 1) as nat);
        }
    }
}

proof fn lemma_remb_exponent(bitrate: u64, n: nat)
    requires
        n == 46,
    ensures
        remb_exponent(bitrate) <= n,
{
    assert(two_to(46) == 0x4000_0000_0000) by {
        reveal_with_fuel(two_to, 47);
    }
    lemma_remb_exponent_bound(bitrate, n);
}

pub fn build_remb_body(remb: &RemoteBitrateEstimate) -> (r: RtpResult<Vec<u8>>)
    ensures
        builds_to(r, body_bytes(remb@)),
{
    proof {
        reveal(body_bytes);
    }
    if remb.ssrcs.len() > 255 {
        return Err(RtpError::InvalidRtcp("too many REMB SSRC entries"));
    }
    let mut body: Vec<u8> = build_psfb_common(remb.sender_ssrc, 0);
    body.push(0x52);
    body.push(0x45);
    body.push(0x4D);
    body.push(0x42);
    body.push(remb.ssrcs.len() as u8);
    let mut exponent: u8 = 0;
    let mut mantissa: u64 = remb.bitrate_bps;
    proof {
        lemma_remb_parts(remb.bitrate_bps);
    }
    while mantissa > 0x3_FFFF
        invariant
            remb_exponent(remb.bitrate_bps) == exponent + remb_exponent(mantissa),
            remb_mantissa(remb.bitrate_bps) == remb_mantissa(mantissa),
            remb_exponent(remb.bitrate_bps) <= 46,
        decreases mantissa,
    {
        mantissa = mantissa / 2;
        exponent += 1;
    }
    body.push(exponent * 4 + (mantissa / 0x1_0000) as u8);
    body.push(((mantissa / 0x100) % 256) as u8);
    body.push((mantissa % 256) as u8);
    wire::put_u32s(&mut body, remb.ssrcs.as_slice());
    assert(body@ =~= body_bytes(remb@)->Ok_0);
    Ok(body)
}

pub fn build_twcc_body(twcc: &TransportWideCc) -> (body: Vec<u8>)
    ensures
        body_bytes(twcc@) == Ok::<Seq<u8>, RtpError>(body@),
{
    let mut body: Vec<u8> = build_psfb_common(twcc.sender_ssrc, twcc.media_ssrc);
    wire::put_u16(&mut body, twcc.base_sequence);
    wire::put_u16(&mut body, twcc.packet_status_count);
    wire::put_u24(&mut body, twcc.reference_time_64ms);
    body.push(twcc.feedback_packet_count);
    wire::put_bytes(&mut body, twcc.payload.as_slice());
    proof {
        reveal(body_bytes);
        assert(body@ =~= body_bytes(twcc@)->Ok_0);
    }
    body
}

/// Appends a packet: the header, then `body` with zeros up to a multiple of four bytes.
pub fn write_rtcp_packet(out: &mut Vec<u8>, fmt: u8, packet_type: u8, body: &[u8])
    ensures
        final(out)@ == old(out)@ + framed((fmt % 32) as nat, packet_type, body@),
{
    let len: usize = body.len();
    let pad: usize = (4 - len % 4) % 4;
    let words: usize = if len % 4 == 0 {
        len / 4
    } else {
        len / 4 + 1
    };
    out.push(128 + fmt % 32);
    out.push(packet_type);
    wire::put_u16(out, (words % 0x1_0000) as u16);
    wire::put_bytes(out, body);
    wire::put_repeated(out, 0, pad);
    assert(out@ =~= old(out)@ + framed((fmt % 32) as nat, packet_type, body@));
}

/// Appends the packet that conveys `packet`.
fn write_packet(out: &mut Vec<u8>, packet: &RtcpPacket) -> (r: RtpResult<()>)
    ensures
        match r {
            Ok(_) => packet_bytes(packet@) is Ok && final(out)@ == old(out)@ + packet_bytes(
                packet@,
            )->Ok_0,
            Err(e) => packet_bytes(packet@) == Err::<Seq<u8>, RtpError>(e),
        },
{
    match packet {
        RtcpPacket::SenderReport(sr) => {
            let body = build_sender_report_body(sr)?;
            let count: u8 = (sr.report_blocks.len() % 32) as u8;
            write_rtcp_packet(out, count, RTCP_SR, body.as_slice());
        },
        RtcpPacket::ReceiverReport(rr) => {
            let body = build_receiver_report_body(rr)?;
            let count: u8 = (rr.report_blocks.len() % 32) as u8;
            write_rtcp_packet(out, count, RTCP_RR, body.as_slice());
        },
        RtcpPacket::PictureLossIndication(pli) => {
            let body = build_psfb_common(pli.sender_ssrc, pli.media_ssrc);
            assert(body_bytes(pli@) == Ok::<Seq<u8>, RtpError>(body@)) by {
                reveal(body_bytes);
            }
            write_rtcp_packet(out, RTCP_PSFB_PLI, RTCP_PSFB, body.as_slice());
        },
        RtcpPacket::FullIntraRequest(fir) => {
            let body = build_fir_body(fir);
            write_rtcp_packet(out, RTCP_PSFB_FIR, RTCP_PSFB, body.as_slice());
        },
        RtcpPacket::GenericNack(nack) => {
            let body = build_nack_body(nack)?;
            write_rtcp_packet(out, RTCP_RTPFB_NACK, RTCP_RTPFB, body.as_slice());
        },
        RtcpPacket::RemoteBitrateEstimate(remb) => {
            let body = build_remb_body(remb)?;
            write_rtcp_packet(out, RTCP_PSFB_APP, RTCP_PSFB, body.as_slice());
        },
        RtcpPacket::TransportWideCc(twcc) => {
            let body = build_twcc_body(twcc);
            write_rtcp_packet(out, RTCP_RTPFB_TWCC, RTCP_RTPFB, body.as_slice());
        },
    }
    Ok(())
}

/// Builds a compound packet.
pub fn marshal_rtcp_packets(packets: &[RtcpPacket]) -> (r: RtpResult<Vec<u8>>)
    ensures
        builds_to(r, rtcp_marshaled(rtcp_views(packets@))),
{
    let n: usize = packets.len();
    let ghost all = rtcp_views(packets@);
    let mut out: Vec<u8> = Vec::new();
    let mut i: usize = 0;
    proof {
        assert(all.subrange(0, n as int) =~= all);
        match rtcp_marshaled(all) {
            Ok(b) => assert(seq![] + b =~= b),
            Err(_) => {},
        }
    }
    while i < n
        invariant
            n == packets@.len(),
            all == rtcp_views(packets@),
            i <= n,
            rtcp_marshaled(all) == with_bytes_before(
                out@,
                rtcp_marshaled(all.subrange(i as int, n as int)),
            ),
        decreases n - i,
    {
        let ghost head = out@;
        let ghost rest = all.subrange(i as int, n as int);
        write_packet(&mut out, &packets[i])?;
        i += 1;
        proof {
            let after = all.subrange(i as int, n as int);
            assert(rest.drop_first() =~= after);
            let b = packet_bytes(rest[0])->Ok_0;
            match rtcp_marshaled(after) {
                Ok(bs) => assert(head + (b + bs) =~= (head + b) + bs),
                Err(_) => {},
            }
        }
    }
    proof {
        assert(out@ + seq![] =~= out@);
    }
    Ok(out)
}

/// Whether a packet that shares a port with RTP is an RTCP packet: its second byte tells
/// (RFC 5761).
pub fn is_rtcp(packet: &[u8]) -> (r: bool)
    ensures
        r == is_rtcp_bytes(packet@),
{
    packet.len() >= 2 && packet[1] >= 192 && packet[1] <= 208
}

/// Whether the bytes are those of an RTCP packet.
pub open spec fn is_rtcp_bytes(packet: Seq<u8>) -> bool {
    packet.len() >= 2 && 192 <= packet[1] <= 208
}

} // verus!
