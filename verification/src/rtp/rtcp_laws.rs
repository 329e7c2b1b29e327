//! What a compound packet says after it was built and parsed again.
use vstd::prelude::*;

use crate::errors::RtpError;
use crate::rtp::nack;
use crate::rtp::rtcp;
use crate::rtp::rtcp::{FirRequest, ReportBlock, RtcpView};
use crate::wire;

verus! {

/// The report block with its number of lost packets as 24 bits can hold it.
pub open spec fn conveyed_block(b: ReportBlock) -> ReportBlock {
    ReportBlock { packets_lost: rtcp::clamp24(b.packets_lost), ..b }
}

/// What the wire format conveys of `p`. Lost packets come in ascending order, each once; a
/// bitrate keeps its 18 leading bits; a reference time keeps its 24 low bits; the payload of
/// transport-wide feedback is filled up to a multiple of four bytes.
pub open spec fn conveyed(p: RtcpView) -> RtcpView {
    match p {
        RtcpView::SenderReport {
            sender_ssrc,
            ntp_most,
            ntp_least,
            rtp_timestamp,
            packet_count,
            octet_count,
            report_blocks,
        } => RtcpView::SenderReport {
            sender_ssrc,
            ntp_most,
            ntp_least,
            rtp_timestamp,
            packet_count,
            octet_count,
            report_blocks: report_blocks.map_values(|b: ReportBlock| conveyed_block(b)),
        },
        RtcpView::ReceiverReport { sender_ssrc, report_blocks } => RtcpView::ReceiverReport {
            sender_ssrc,
            report_blocks: report_blocks.map_values(|b: ReportBlock| conveyed_block(b)),
        },
        RtcpView::GenericNack { sender_ssrc, media_ssrc, lost_packets } => RtcpView::GenericNack {
            sender_ssrc,
            media_ssrc,
            lost_packets: nack::ascending(lost_packets),
        },
        RtcpView::RemoteBitrateEstimate { sender_ssrc, bitrate_bps, ssrcs } => {
            RtcpView::RemoteBitrateEstimate {
                sender_ssrc,
                bitrate_bps: rtcp::remb_conveyed(bitrate_bps),
                ssrcs,
            }
        },
        RtcpView::TransportWideCc {
            sender_ssrc,
            media_ssrc,
            base_sequence,
            packet_status_count,
            reference_time_64ms,
            feedback_packet_count,
            payload,
        } => RtcpView::TransportWideCc {
            sender_ssrc,
            media_ssrc,
            base_sequence,
            packet_status_count,
            reference_time_64ms: reference_time_64ms % 0x100_0000,
            feedback_packet_count,
            payload: rtcp::padded(payload),
        },
        _ => p,
    }
}

/// Whether the wire format has room for `p`: at most 31 report blocks, at least one lost packet,
/// at most 255 sources, and no more 32-bit words than the header can count.
pub open spec fn conveyable(p: RtcpView) -> bool {
    match p {
        RtcpView::SenderReport { report_blocks, .. } => report_blocks.len() <= 31,
        RtcpView::ReceiverReport { report_blocks, .. } => report_blocks.len() <= 31,
        RtcpView::PictureLossIndication { .. } => true,
        RtcpView::FullIntraRequest { requests, .. } => requests.len() <= 32766,
        RtcpView::GenericNack { lost_packets, .. } => lost_packets.len() > 0,
        RtcpView::RemoteBitrateEstimate { ssrcs, .. } => ssrcs.len() <= 255,
        RtcpView::TransportWideCc { payload, .. } => payload.len() <= 262124,
    }
}

/// What the wire format conveys of each packet.
pub open spec fn all_conveyed(ps: Seq<RtcpView>) -> Seq<RtcpView> {
    ps.map_values(|p: RtcpView| conveyed(p))
}

proof fn lemma_piece(s: Seq<u8>, at: int, whole: Seq<u8>, from: int, to: int)
    requires
        0 <= at,
        at + whole.len() <= s.len(),
        s.subrange(at, at + whole.len()) == whole,
        0 <= from <= to <= whole.len(),
    ensures
        s.subrange(at + from, at + to) == whole.subrange(from, to),
{
    assert(s.subrange(at + from, at + to) =~= s.subrange(at, at + whole.len()).subrange(from, to));
}

proof fn lemma_block_parts(b: ReportBlock)
    ensures
        rtcp::block_bytes(b).len() == 24,
        rtcp::block_bytes(b).subrange(0, 4) == wire::enc32(b.ssrc),
        rtcp::block_bytes(b)[4] == b.fraction_lost,
        rtcp::block_bytes(b).subrange(5, 8) == wire::enc24(rtcp::lost24(b.packets_lost)),
        rtcp::block_bytes(b).subrange(8, 12) == wire::enc32(b.highest_sequence),
        rtcp::block_bytes(b).subrange(12, 16) == wire::enc32(b.jitter),
        rtcp::block_bytes(b).subrange(16, 20) == wire::enc32(b.last_sender_report),
        rtcp::block_bytes(b).subrange(20, 24) == wire::enc32(b.delay_since_last_sender_report),
{
    let w = rtcp::block_bytes(b);
    assert(w.subrange(0, 4) =~= wire::enc32(b.ssrc));
    assert(w.subrange(5, 8) =~= wire::enc24(rtcp::lost24(b.packets_lost)));
    assert(w.subrange(8, 12) =~= wire::enc32(b.highest_sequence));
    assert(w.subrange(12, 16) =~= wire::enc32(b.jitter));
    assert(w.subrange(16, 20) =~= wire::enc32(b.last_sender_report));
    assert(w.subrange(20, 24) =~= wire::enc32(b.delay_since_last_sender_report));
}

proof fn lemma_block(s: Seq<u8>, at: int, b: ReportBlock)
    requires
        0 <= at,
        at + 24 <= s.len(),
        s.subrange(at, at + 24) == rtcp::block_bytes(b),
    ensures
        rtcp::block_at(s, at) == conveyed_block(b),
{
    let w = rtcp::block_bytes(b);
    lemma_block_parts(b);
    lemma_piece(s, at, w, 0, 4);
    lemma_piece(s, at, w, 5, 8);
    lemma_piece(s, at, w, 8, 12);
    lemma_piece(s, at, w, 12, 16);
    lemma_piece(s, at, w, 16, 20);
    lemma_piece(s, at, w, 20, 24);
    assert(s[at + 4] == s.subrange(at, at + 24)[4]);
    wire::lemma_be32_enc32(s, at, b.ssrc);
    wire::lemma_be24_enc24(s, at + 5, rtcp::lost24(b.packets_lost));
    wire::lemma_be32_enc32(s, at + 8, b.highest_sequence);
    wire::lemma_be32_enc32(s, at + 12, b.jitter);
    wire::lemma_be32_enc32(s, at + 16, b.last_sender_report);
    wire::lemma_be32_enc32(s, at + 20, b.delay_since_last_sender_report);
    assert(rtcp::sign24(rtcp::lost24(b.packets_lost)) == rtcp::clamp24(b.packets_lost));
}

proof fn lemma_blocks_len(bs: Seq<ReportBlock>)
    ensures
        rtcp::blocks_bytes(bs).len() == 24 * bs.len(),
    decreases bs.len(),
{
    if bs.len() > 0 {
        lemma_blocks_len(bs.drop_last());
        lemma_block_parts(bs.last());
    }
}

#[verifier::rlimit(40)]
proof fn lemma_blocks(s: Seq<u8>, at: int, bs: Seq<ReportBlock>)
    requires
        0 <= at,
        at + 24 * bs.len() <= s.len(),
        s.subrange(at, at + 24 * bs.len()) == rtcp::blocks_bytes(bs),
    ensures
        rtcp::blocks_at(s, at, bs.len()) == bs.map_values(|b: ReportBlock| conveyed_block(b)),
    decreases bs.len(),
{
    let out = bs.map_values(|b: ReportBlock| conveyed_block(b));
    if bs.len() > 0 {
        let head = bs.drop_last();
        let n = 24 * head.len() as int;
        let w = rtcp::blocks_bytes(bs);
        lemma_blocks_len(bs);
        lemma_blocks_len(head);
        lemma_block_parts(bs.last());
        lemma_piece(s, at, w, 0, n);
        lemma_piece(s, at, w, n, n + 24);
        assert(w.subrange(0, n) =~= rtcp::blocks_bytes(head));
        assert(w.subrange(n, n + 24) =~= rtcp::block_bytes(bs.last()));
        lemma_blocks(s, at, head);
        lemma_block(s, at + n, bs.last());
        assert forall|i: int| 0 <= i < bs.len() implies rtcp::blocks_at(s, at, bs.len())[i]
            == out[i] by {
            if i < head.len() {
                assert(rtcp::blocks_at(s, at, head.len())[i] == head.map_values(
                    |b: ReportBlock| conveyed_block(b),
                )[i]);
            }
        }
    }
    assert(rtcp::blocks_at(s, at, bs.len()) =~= out);
}

proof fn lemma_fir_len(rs: Seq<FirRequest>)
    ensures
        rtcp::fir_bytes(rs).len() == 8 * rs.len(),
    decreases rs.len(),
{
    if rs.len() > 0 {
        lemma_fir_len(rs.drop_last());
    }
}

#[verifier::rlimit(40)]
proof fn lemma_fir(s: Seq<u8>, at: int, rs: Seq<FirRequest>)
    requires
        0 <= at,
        at + 8 * rs.len() <= s.len(),
        s.subrange(at, at + 8 * rs.len()) == rtcp::fir_bytes(rs),
    ensures
        rtcp::fir_at(s, at, rs.len()) == rs,
    decreases rs.len(),
{
    if rs.len() > 0 {
        let head = rs.drop_last();
        let n = 8 * head.len() as int;
        let w = rtcp::fir_bytes(rs);
        lemma_fir_len(rs);
        lemma_fir_len(head);
        lemma_piece(s, at, w, 0, n);
        lemma_piece(s, at, w, n, n + 4);
        lemma_piece(s, at, w, n + 4, n + 5);
        assert(w.subrange(0, n) =~= rtcp::fir_bytes(head));
        assert(w.subrange(n, n + 4) =~= wire::enc32(rs.last().ssrc));
        assert(w[n + 4] == rs.last().sequence_number);
        assert(s[at + n + 4] == s.subrange(at + n + 4, at + n + 5)[0]);
        assert(w.subrange(n + 4, n + 5)[0] == w[n + 4]);
        lemma_fir(s, at, head);
        wire::lemma_be32_enc32(s, at + n, rs.last().ssrc);
        assert forall|i: int| 0 <= i < rs.len() implies rtcp::fir_at(s, at, rs.len())[i]
            == rs[i] by {
            if i < head.len() {
                assert(rtcp::fir_at(s, at, head.len())[i] == head[i]);
            }
        }
    }
    assert(rtcp::fir_at(s, at, rs.len()) =~= rs);
}

proof fn lemma_pairs_len(ps: Seq<(u16, u16)>)
    ensures
        rtcp::pairs_bytes(ps).len() == 4 * ps.len(),
    decreases ps.len(),
{
    if ps.len() > 0 {
        lemma_pairs_len(ps.drop_last());
    }
}

#[verifier::rlimit(40)]
proof fn lemma_pairs(s: Seq<u8>, at: int, ps: Seq<(u16, u16)>)
    requires
        0 <= at,
        at + 4 * ps.len() <= s.len(),
        s.subrange(at, at + 4 * ps.len()) == rtcp::pairs_bytes(ps),
    ensures
        rtcp::pairs_at(s, at, ps.len()) == ps,
    decreases ps.len(),
{
    if ps.len() > 0 {
        let head = ps.drop_last();
        let n = 4 * head.len() as int;
        let w = rtcp::pairs_bytes(ps);
        lemma_pairs_len(ps);
        lemma_pairs_len(head);
        lemma_piece(s, at, w, 0, n);
        lemma_piece(s, at, w, n, n + 2);
        lemma_piece(s, at, w, n + 2, n + 4);
        assert(w.subrange(0, n) =~= rtcp::pairs_bytes(head));
        assert(w.subrange(n, n + 2) =~= wire::enc16(ps.last().0));
        assert(w.subrange(n + 2, n + 4) =~= wire::enc16(ps.last().1));
        lemma_pairs(s, at, head);
        wire::lemma_be16_enc16(s, at + n, ps.last().0);
        wire::lemma_be16_enc16(s, at + n + 2, ps.last().1);
        assert forall|i: int| 0 <= i < ps.len() implies rtcp::pairs_at(s, at, ps.len())[i]
            == ps[i] by {
            if i < head.len() {
                assert(rtcp::pairs_at(s, at, head.len())[i] == head[i]);
            }
        }
    }
    assert(rtcp::pairs_at(s, at, ps.len()) =~= ps);
}

proof fn lemma_pair_count(xs: Seq<u16>)
    requires
        nack::increasing(xs),
        xs.len() > 0,
    ensures
        nack::nack_pairs(xs).len() * 17 <= 0x1_0010 - xs[0],
    decreases xs.len(),
{
    nack::lemma_chunk_bounds(xs);
    nack::lemma_chunk(xs);
    let n = nack::chunk_len(xs) as int;
    let rest = xs.subrange(n, xs.len() as int);
    assert(nack::nack_pairs(xs).len() == 1 + nack::nack_pairs(rest).len());
    if rest.len() > 0 {
        lemma_pair_count(rest);
        assert(rest[0] == xs[n]);
    } else {
        assert(nack::nack_pairs(rest).len() == 0);
    }
}

proof fn lemma_sr_parts(p: RtcpView)
    requires
        p is SenderReport,
    ensures
        rtcp::body_bytes(p) is Ok,
        ({
            let w = rtcp::body_bytes(p)->Ok_0;
            &&& w.len() == 24 + rtcp::blocks_bytes(p->SenderReport_report_blocks).len()
            &&& w.subrange(0, 4) == wire::enc32(p->SenderReport_sender_ssrc)
            &&& w.subrange(4, 8) == wire::enc32(p->ntp_most)
            &&& w.subrange(8, 12) == wire::enc32(p->ntp_least)
            &&& w.subrange(12, 16) == wire::enc32(p->rtp_timestamp)
            &&& w.subrange(16, 20) == wire::enc32(p->packet_count)
            &&& w.subrange(20, 24) == wire::enc32(p->octet_count)
            &&& w.subrange(24, w.len() as int) == rtcp::blocks_bytes(p->SenderReport_report_blocks)
        }),
{
    reveal(rtcp::body_bytes);
    let w = rtcp::body_bytes(p)->Ok_0;
    assert(w.subrange(0, 4) =~= wire::enc32(p->SenderReport_sender_ssrc));
    assert(w.subrange(4, 8) =~= wire::enc32(p->ntp_most));
    assert(w.subrange(8, 12) =~= wire::enc32(p->ntp_least));
    assert(w.subrange(12, 16) =~= wire::enc32(p->rtp_timestamp));
    assert(w.subrange(16, 20) =~= wire::enc32(p->packet_count));
    assert(w.subrange(20, 24) =~= wire::enc32(p->octet_count));
    assert(w.subrange(24, w.len() as int) =~= rtcp::blocks_bytes(p->SenderReport_report_blocks));
}

proof fn lemma_sr(p: RtcpView)
    requires
        p is SenderReport,
        conveyable(p),
    ensures
        rtcp::body_bytes(p) is Ok,
        rtcp::body_bytes(p)->Ok_0.len() % 4 == 0,
        rtcp::body_bytes(p)->Ok_0.len() <= 262140,
        rtcp::sr_parsed(rtcp::fmt_of(p) as u8, rtcp::body_bytes(p)->Ok_0) == Ok::<
            RtcpView,
            RtpError,
        >(conveyed(p)),
{
    lemma_sr_parts(p);
    let w = rtcp::body_bytes(p)->Ok_0;
    lemma_blocks_len(p->SenderReport_report_blocks);
    wire::lemma_be32_enc32(w, 0, p->SenderReport_sender_ssrc);
    wire::lemma_be32_enc32(w, 4, p->ntp_most);
    wire::lemma_be32_enc32(w, 8, p->ntp_least);
    wire::lemma_be32_enc32(w, 12, p->rtp_timestamp);
    wire::lemma_be32_enc32(w, 16, p->packet_count);
    wire::lemma_be32_enc32(w, 20, p->octet_count);
    lemma_blocks(w, 24, p->SenderReport_report_blocks);
}

proof fn lemma_rr(p: RtcpView)
    requires
        p is ReceiverReport,
        conveyable(p),
    ensures
        rtcp::body_bytes(p) is Ok,
        rtcp::body_bytes(p)->Ok_0.len() % 4 == 0,
        rtcp::body_bytes(p)->Ok_0.len() <= 262140,
        rtcp::rr_parsed(rtcp::fmt_of(p) as u8, rtcp::body_bytes(p)->Ok_0) == Ok::<
            RtcpView,
            RtpError,
        >(conveyed(p)),
{
    reveal(rtcp::body_bytes);
    if let RtcpView::ReceiverReport { sender_ssrc, report_blocks } = p {
        let w = rtcp::body_bytes(p)->Ok_0;
        lemma_blocks_len(report_blocks);
        assert(w.subrange(0, 4) =~= wire::enc32(sender_ssrc));
        assert(w.subrange(4, (4 + 24 * report_blocks.len()) as int) =~= rtcp::blocks_bytes(report_blocks));
        wire::lemma_be32_enc32(w, 0, sender_ssrc);
        lemma_blocks(w, 4, report_blocks);
    }
}

proof fn lemma_pli(p: RtcpView)
    requires
        p is PictureLossIndication,
    ensures
        rtcp::body_bytes(p) is Ok,
        rtcp::body_bytes(p)->Ok_0.len() == 8,
        rtcp::pli_parsed(rtcp::body_bytes(p)->Ok_0) == Ok::<RtcpView, RtpError>(p),
{
    reveal(rtcp::body_bytes);
    if let RtcpView::PictureLossIndication { sender_ssrc, media_ssrc } = p {
        let w = rtcp::body_bytes(p)->Ok_0;
        assert(w.subrange(0, 4) =~= wire::enc32(sender_ssrc));
        assert(w.subrange(4, 8) =~= wire::enc32(media_ssrc));
        wire::lemma_be32_enc32(w, 0, sender_ssrc);
        wire::lemma_be32_enc32(w, 4, media_ssrc);
    }
}

proof fn lemma_fir_body(p: RtcpView)
    requires
        p is FullIntraRequest,
        conveyable(p),
    ensures
        rtcp::body_bytes(p) is Ok,
        rtcp::body_bytes(p)->Ok_0.len() % 4 == 0,
        rtcp::body_bytes(p)->Ok_0.len() <= 262140,
        rtcp::fir_parsed(rtcp::body_bytes(p)->Ok_0) == Ok::<RtcpView, RtpError>(p),
{
    reveal(rtcp::body_bytes);
    if let RtcpView::FullIntraRequest { sender_ssrc, requests } = p {
        let w = rtcp::body_bytes(p)->Ok_0;
        lemma_fir_len(requests);
        assert(w.subrange(0, 4) =~= wire::enc32(sender_ssrc));
        assert(w.subrange(8, (8 + 8 * requests.len()) as int) =~= rtcp::fir_bytes(requests));
        wire::lemma_be32_enc32(w, 0, sender_ssrc);
        lemma_fir(w, 8, requests);
    }
}

proof fn lemma_nack_body(p: RtcpView)
    requires
        p is GenericNack,
        conveyable(p),
    ensures
        rtcp::body_bytes(p) is Ok,
        rtcp::body_bytes(p)->Ok_0.len() % 4 == 0,
        rtcp::body_bytes(p)->Ok_0.len() <= 262140,
        rtcp::nack_parsed(rtcp::body_bytes(p)->Ok_0) == Ok::<RtcpView, RtpError>(conveyed(p)),
{
    reveal(rtcp::body_bytes);
    if let RtcpView::GenericNack { sender_ssrc, media_ssrc, lost_packets } = p {
        let w = rtcp::body_bytes(p)->Ok_0;
        let xs = nack::ascending(lost_packets);
        let ps = nack::nack_pairs(xs);
        nack::lemma_ascending(lost_packets);
        assert(lost_packets.contains(lost_packets[0]));
        assert(xs.contains(lost_packets[0]));
        lemma_pair_count(xs);
        lemma_pairs_len(ps);
        assert(w.subrange(0, 4) =~= wire::enc32(sender_ssrc));
        assert(w.subrange(4, 8) =~= wire::enc32(media_ssrc));
        assert(w.subrange(8, (8 + 4 * ps.len()) as int) =~= rtcp::pairs_bytes(ps));
        wire::lemma_be32_enc32(w, 0, sender_ssrc);
        wire::lemma_be32_enc32(w, 4, media_ssrc);
        lemma_pairs(w, 8, ps);
        nack::law_numbers_of_packed(lost_packets);
    }
}

proof fn lemma_remb_body(p: RtcpView)
    requires
        p is RemoteBitrateEstimate,
        conveyable(p),
    ensures
        rtcp::body_bytes(p) is Ok,
        rtcp::body_bytes(p)->Ok_0.len() % 4 == 0,
        rtcp::body_bytes(p)->Ok_0.len() <= 262140,
        rtcp::remb_parsed(rtcp::body_bytes(p)->Ok_0) == Ok::<RtcpView, RtpError>(conveyed(p)),
{
    reveal(rtcp::body_bytes);
    if let RtcpView::RemoteBitrateEstimate { sender_ssrc, bitrate_bps, ssrcs } = p {
        let w = rtcp::body_bytes(p)->Ok_0;
        let m = rtcp::remb_mantissa(bitrate_bps);
        let e = rtcp::remb_exponent(bitrate_bps);
        rtcp::lemma_remb_parts(bitrate_bps);
        wire::lemma_enc32s_len(ssrcs);
        assert(w.subrange(0, 4) =~= wire::enc32(sender_ssrc));
        assert(w.subrange(16, (16 + 4 * ssrcs.len()) as int) =~= wire::enc32s(ssrcs));
        wire::lemma_be32_enc32(w, 0, sender_ssrc);
        wire::lemma_be32s_enc32s(w, 16, ssrcs);
        assert(w[13] == (e * 4 + m / 0x1_0000) as u8);
        assert(m / 0x1_0000 < 4);
        assert(w[13] / 4 == e);
        assert(w[13] % 4 == m / 0x1_0000);
        assert((w[13] % 4) * 0x1_0000 + w[14] * 0x100 + w[15] == m);
    }
}

proof fn lemma_twcc_parts(p: RtcpView)
    requires
        p is TransportWideCc,
    ensures
        rtcp::body_bytes(p) is Ok,
        ({
            let b = rtcp::body_bytes(p)->Ok_0;
            &&& b.len() == 16 + p->TransportWideCc_payload.len()
            &&& b.subrange(0, 4) == wire::enc32(p->TransportWideCc_sender_ssrc)
            &&& b.subrange(4, 8) == wire::enc32(p->TransportWideCc_media_ssrc)
            &&& b.subrange(8, 10) == wire::enc16(p->base_sequence)
            &&& b.subrange(10, 12) == wire::enc16(p->packet_status_count)
            &&& b.subrange(12, 15) == wire::enc24(p->reference_time_64ms)
            &&& b[15] == p->feedback_packet_count
            &&& b.subrange(16, b.len() as int) == p->TransportWideCc_payload
        }),
{
    reveal(rtcp::body_bytes);
    let b = rtcp::body_bytes(p)->Ok_0;
    assert(b.subrange(0, 4) =~= wire::enc32(p->TransportWideCc_sender_ssrc));
    assert(b.subrange(4, 8) =~= wire::enc32(p->TransportWideCc_media_ssrc));
    assert(b.subrange(8, 10) =~= wire::enc16(p->base_sequence));
    assert(b.subrange(10, 12) =~= wire::enc16(p->packet_status_count));
    assert(b.subrange(12, 15) =~= wire::enc24(p->reference_time_64ms));
    assert(b.subrange(16, b.len() as int) =~= p->TransportWideCc_payload);
}

proof fn lemma_enc24_low(x: u32)
    ensures
        wire::enc24(x) == wire::enc24(x % 0x100_0000),
{
    let y = x % 0x100_0000;
    let q = x / 0x100_0000;
    let a = y / 0x1_0000;
    let b = y / 0x100;
    assert(x == q * 0x100_0000 + y);
    assert(x / 0x1_0000 == q * 256 + a);
    assert((q * 256 + a) % 256 == a % 256);
    assert(x / 0x100 == q * 0x1_0000 + b);
    assert((q * 0x1_0000 + b) % 256 == b % 256);
    assert(x % 256 == y % 256);
    assert(wire::enc24(x) =~= wire::enc24(y));
}

proof fn lemma_twcc_body(p: RtcpView)
    requires
        p is TransportWideCc,
        conveyable(p),
    ensures
        rtcp::body_bytes(p) is Ok,
        rtcp::padded(rtcp::body_bytes(p)->Ok_0).len() <= 262140,
        rtcp::twcc_parsed(rtcp::padded(rtcp::body_bytes(p)->Ok_0)) == Ok::<RtcpView, RtpError>(
            conveyed(p),
        ),
{
    lemma_twcc_parts(p);
    let b = rtcp::body_bytes(p)->Ok_0;
    let w = rtcp::padded(b);
    let n = b.len() as int;
    let low = p->reference_time_64ms % 0x100_0000;
    lemma_enc24_low(p->reference_time_64ms);
    assert(w.subrange(0, n) =~= b);
    lemma_piece(w, 0, b, 0, 4);
    lemma_piece(w, 0, b, 4, 8);
    lemma_piece(w, 0, b, 8, 10);
    lemma_piece(w, 0, b, 10, 12);
    lemma_piece(w, 0, b, 12, 15);
    wire::lemma_be32_enc32(w, 0, p->TransportWideCc_sender_ssrc);
    wire::lemma_be32_enc32(w, 4, p->TransportWideCc_media_ssrc);
    wire::lemma_be16_enc16(w, 8, p->base_sequence);
    wire::lemma_be16_enc16(w, 10, p->packet_status_count);
    wire::lemma_be24_enc24(w, 12, low);
    assert(w.subrange(16, w.len() as int) =~= b.subrange(16, n) + w.subrange(n, w.len() as int));
    assert(w.subrange(16, w.len() as int) =~= rtcp::padded(p->TransportWideCc_payload));
}

proof fn lemma_body(p: RtcpView)
    requires
        conveyable(p),
    ensures
        rtcp::body_bytes(p) is Ok,
        rtcp::padded(rtcp::body_bytes(p)->Ok_0).len() <= 262140,
        rtcp::body_parsed(
            rtcp::packet_type_of(p),
            rtcp::fmt_of(p) as u8,
            rtcp::padded(rtcp::body_bytes(p)->Ok_0),
        ) == Ok::<RtcpView, RtpError>(conveyed(p)),
{
    match p {
        RtcpView::SenderReport { .. } => lemma_sr(p),
        RtcpView::ReceiverReport { .. } => lemma_rr(p),
        RtcpView::PictureLossIndication { .. } => lemma_pli(p),
        RtcpView::FullIntraRequest { .. } => lemma_fir_body(p),
        RtcpView::GenericNack { .. } => lemma_nack_body(p),
        RtcpView::RemoteBitrateEstimate { .. } => lemma_remb_body(p),
        RtcpView::TransportWideCc { .. } => lemma_twcc_body(p),
    }
    let b = rtcp::body_bytes(p)->Ok_0;
    if b.len() % 4 == 0 {
        assert(rtcp::padded(b) =~= b);
    }
}

proof fn lemma_frame_parts(fmt: nat, packet_type: u8, body: Seq<u8>, rest: Seq<u8>)
    requires
        fmt < 32,
        rtcp::padded(body).len() <= 262140,
    ensures
        ({
            let frame = rtcp::framed(fmt, packet_type, body);
            let raw = frame + rest;
            &&& frame.len() == 4 + rtcp::padded(body).len()
            &&& raw[0] == 128 + fmt
            &&& raw[1] == packet_type
            &&& rtcp::first_len(raw) == frame.len()
            &&& raw.subrange(4, frame.len() as int) == rtcp::padded(body)
            &&& raw.subrange(frame.len() as int, raw.len() as int) == rest
        }),
{
    let frame = rtcp::framed(fmt, packet_type, body);
    let raw = frame + rest;
    let inner = rtcp::padded(body);
    let words = (inner.len() / 4) as u16;
    assert(inner.len() % 4 == 0);
    assert(raw.subrange(2, 4) =~= wire::enc16(words));
    wire::lemma_be16_enc16(raw, 2, words);
    assert(raw.subrange(4, frame.len() as int) =~= inner);
    assert(raw.subrange(frame.len() as int, raw.len() as int) =~= rest);
}

proof fn lemma_frame(fmt: nat, packet_type: u8, raw: Seq<u8>, inner: Seq<u8>)
    requires
        fmt < 32,
        4 + inner.len() <= raw.len(),
        raw[0] == 128 + fmt,
        raw[1] == packet_type,
        rtcp::first_len(raw) == 4 + inner.len(),
        raw.subrange(4, (4 + inner.len()) as int) == inner,
    ensures
        rtcp::first_parsed(raw) == rtcp::body_parsed(packet_type, fmt as u8, inner),
{
    assert(raw[0] / 64 == 2);
    assert((raw[0] / 32) % 2 == 0);
    assert(raw[0] % 32 == fmt);
}

proof fn lemma_step(p: RtcpView, rest: Seq<u8>)
    requires
        conveyable(p),
    ensures
        rtcp::packet_bytes(p) is Ok,
        ({
            let b = rtcp::packet_bytes(p)->Ok_0;
            let raw = b + rest;
            &&& b.len() >= 4
            &&& rtcp::first_len(raw) == b.len()
            &&& rtcp::first_parsed(raw) == Ok::<RtcpView, RtpError>(conveyed(p))
            &&& raw.subrange(b.len() as int, raw.len() as int) == rest
        }),
{
    lemma_body(p);
    let body = rtcp::body_bytes(p)->Ok_0;
    let raw = rtcp::packet_bytes(p)->Ok_0 + rest;
    lemma_frame_parts(rtcp::fmt_of(p), rtcp::packet_type_of(p), body, rest);
    lemma_frame(rtcp::fmt_of(p), rtcp::packet_type_of(p), raw, rtcp::padded(body));
}

proof fn lemma_parsed_step(raw: Seq<u8>, p: RtcpView, n: int, rest: Seq<RtcpView>)
    requires
        raw.len() >= 4,
        4 <= n <= raw.len(),
        rtcp::first_len(raw) == n,
        rtcp::first_parsed(raw) == Ok::<RtcpView, RtpError>(p),
        rtcp::rtcp_parsed(raw.subrange(n, raw.len() as int)) == Ok::<Seq<RtcpView>, RtpError>(rest),
    ensures
        rtcp::rtcp_parsed(raw) == Ok::<Seq<RtcpView>, RtpError>(seq![p] + rest),
{
}

/// A compound of packets that the wire format has room for can be built, and parsing it gives
/// the packets back, as far as the wire format conveys them.
pub proof fn law_parse_of_marshaled(ps: Seq<RtcpView>)
    requires
        forall|i: int| 0 <= i < ps.len() ==> #[trigger] conveyable(ps[i]),
    ensures
        rtcp::rtcp_marshaled(ps) is Ok,
        rtcp::rtcp_parsed(rtcp::rtcp_marshaled(ps)->Ok_0) == Ok::<Seq<RtcpView>, RtpError>(
            all_conveyed(ps),
        ),
    decreases ps.len(),
{
    if ps.len() == 0 {
        assert(all_conveyed(ps) =~= seq![]);
    } else {
        let p = ps[0];
        let rest = ps.drop_first();
        assert(conveyable(p));
        assert forall|i: int| 0 <= i < rest.len() implies #[trigger] conveyable(rest[i]) by {
            assert(conveyable(ps[i + 1]));
        }
        law_parse_of_marshaled(rest);
        let tail = rtcp::rtcp_marshaled(rest)->Ok_0;
        lemma_step(p, tail);
        let b = rtcp::packet_bytes(p)->Ok_0;
        lemma_parsed_step(b + tail, conveyed(p), b.len() as int, all_conveyed(rest));
        assert(all_conveyed(ps) =~= seq![conveyed(p)] + all_conveyed(rest));
    }
}

/// A compound that was built of at least one packet is recognised as RTCP.
pub proof fn law_marshaled_is_rtcp(ps: Seq<RtcpView>)
    requires
        ps.len() > 0,
        rtcp::rtcp_marshaled(ps) is Ok,
    ensures
        rtcp::is_rtcp_bytes(rtcp::rtcp_marshaled(ps)->Ok_0),
{
}

proof fn lemma_remb_error(bitrate: u64)
    ensures
        rtcp::remb_conveyed(bitrate) <= bitrate,
        bitrate - rtcp::remb_conveyed(bitrate) < rtcp::two_to(rtcp::remb_exponent(bitrate)),
        rtcp::remb_exponent(bitrate) > 0 ==> 0x2_0000 * rtcp::two_to(rtcp::remb_exponent(bitrate))
            <= bitrate,
    decreases bitrate,
{
    if bitrate > 0x3_FFFF {
        lemma_remb_error(bitrate / 2);
        let e = rtcp::remb_exponent(bitrate / 2);
        assert(rtcp::remb_conveyed(bitrate) == 2 * rtcp::remb_conveyed(bitrate / 2));
        assert(rtcp::two_to(e + 1) == 2 * rtcp::two_to(e));
        if e == 0 {
            assert(rtcp::two_to(0) == 1);
        }
    }
}

/// A bitrate that fits 18 bits is conveyed as it is. A greater one is conveyed as one that is
/// not greater, and less by at most one part in 2^17.
pub proof fn law_remb_conveyed(bitrate: u64)
    ensures
        bitrate <= 0x3_FFFF ==> rtcp::remb_conveyed(bitrate) == bitrate,
        rtcp::remb_conveyed(bitrate) <= bitrate,
        (bitrate - rtcp::remb_conveyed(bitrate)) * 0x2_0000 <= bitrate,
{
    lemma_remb_error(bitrate);
}

} // verus!
