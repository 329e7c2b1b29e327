//! What the bytes of media and control packets stand for.
use vstd::prelude::*;

use crate::errors::RtpError;
use crate::rtp::nack;
use crate::rtp::packet;
use crate::rtp::packet::{ExtensionView, HeaderView, PacketView};
use crate::rtp::rtcp;
use crate::rtp::rtcp::{FirRequest, ReportBlock, RtcpView};
use crate::wire;

verus! {

/// Every packet starts with two octets of version, flags and payload type, the sequence number,
/// the timestamp and the source; then come the contributing sources, the extension, if there is
/// one, the payload, and the padding, whose last octet is its length.
pub proof fn law_packet_layout(p: PacketView)
    requires
        packet::rtp_representable(p),
    ensures
        ({
            let raw = packet::rtp_bytes(p);
            let n = p.header.csrcs.len() as int;
            let end = 12 + 4 * n;
            let start: int = match p.header.extension {
                Some(e) => end + 4 + e.data.len(),
                None => end,
            };
            let stop = start + p.payload.len();
            &&& raw[0] / 64 == 2
            &&& (raw[0] / 32) % 2 == 1 <==> p.padding_len > 0
            &&& (raw[0] / 16) % 2 == 1 <==> p.header.extension is Some
            &&& raw[0] % 16 == n
            &&& raw[1] / 128 == 1 <==> p.header.marker
            &&& raw[1] % 128 == p.header.payload_type
            &&& wire::be16(raw, 2) == p.header.sequence_number
            &&& wire::be32(raw, 4) == p.header.timestamp
            &&& wire::be32(raw, 8) == p.header.ssrc
            &&& forall|i: int|
                0 <= i < n ==> wire::be32(raw, 12 + 4 * i) == #[trigger] p.header.csrcs[i]
            &&& p.header.extension matches Some(e) ==> wire::be16(raw, end) == e.profile
                && wire::be16(raw, end + 2) == e.data.len() / 4 && raw.subrange(end + 4, start)
                == e.data
            &&& raw.subrange(start, stop) == p.payload
            &&& raw.len() == stop + p.padding_len
            &&& p.padding_len > 0 ==> raw[raw.len() - 1] == p.padding_len
        }),
{
    lemma_octets(p);
    lemma_pieces(p);
    lemma_fields(p);
    lemma_sources(p);
    lemma_extension(p);
}

/// Where the parts of a packet stand in its bytes.
#[verifier::spinoff_prover]
proof fn lemma_pieces(p: PacketView)
    requires
        packet::rtp_representable(p),
    ensures
        ({
            let raw = packet::rtp_bytes(p);
            let end = 12 + 4 * p.header.csrcs.len() as int;
            let e = packet::extension_bytes(p.header.extension);
            let start = end + e.len();
            let stop = start + p.payload.len();
            &&& raw.subrange(2, 4) == wire::enc16(p.header.sequence_number)
            &&& raw.subrange(4, 8) == wire::enc32(p.header.timestamp)
            &&& raw.subrange(8, 12) == wire::enc32(p.header.ssrc)
            &&& raw.subrange(12, end) == wire::enc32s(p.header.csrcs)
            &&& raw.subrange(end, start) == e
            &&& raw.subrange(start, stop) == p.payload
            &&& raw.len() == stop + p.padding_len
            &&& p.padding_len > 0 ==> raw[raw.len() - 1] == p.padding_len
            &&& p.header.extension matches Some(x) ==> e.len() == 4 + x.data.len()
            &&& p.header.extension is None ==> e.len() == 0
        }),
{
    let raw = packet::rtp_bytes(p);
    let end = 12 + 4 * p.header.csrcs.len() as int;
    let e = packet::extension_bytes(p.header.extension);
    let start = end + e.len() as int;
    wire::lemma_enc32s_len(p.header.csrcs);
    assert(raw.subrange(2, 4) =~= wire::enc16(p.header.sequence_number));
    assert(raw.subrange(4, 8) =~= wire::enc32(p.header.timestamp));
    assert(raw.subrange(8, 12) =~= wire::enc32(p.header.ssrc));
    assert(raw.subrange(12, end) =~= wire::enc32s(p.header.csrcs));
    assert(raw.subrange(end, start) =~= e);
    assert(raw.subrange(start, start + p.payload.len()) =~= p.payload);
}

proof fn lemma_fields(p: PacketView)
    requires
        packet::rtp_representable(p),
    ensures
        wire::be16(packet::rtp_bytes(p), 2) == p.header.sequence_number,
        wire::be32(packet::rtp_bytes(p), 4) == p.header.timestamp,
        wire::be32(packet::rtp_bytes(p), 8) == p.header.ssrc,
{
    let raw = packet::rtp_bytes(p);
    lemma_pieces(p);
    wire::lemma_be16_enc16(raw, 2, p.header.sequence_number);
    wire::lemma_be32_enc32(raw, 4, p.header.timestamp);
    wire::lemma_be32_enc32(raw, 8, p.header.ssrc);
}

proof fn lemma_sources(p: PacketView)
    requires
        packet::rtp_representable(p),
    ensures
        forall|i: int|
            0 <= i < p.header.csrcs.len() ==> wire::be32(packet::rtp_bytes(p), 12 + 4 * i)
                == #[trigger] p.header.csrcs[i],
{
    let raw = packet::rtp_bytes(p);
    lemma_pieces(p);
    wire::lemma_be32s_enc32s(raw, 12, p.header.csrcs);
    assert forall|i: int| 0 <= i < p.header.csrcs.len() implies wire::be32(raw, 12 + 4 * i)
        == #[trigger] p.header.csrcs[i] by {
        assert(wire::be32s(raw, 12, p.header.csrcs.len())[i] == p.header.csrcs[i]);
    }
}

proof fn lemma_extension(p: PacketView)
    requires
        packet::rtp_representable(p),
    ensures
        ({
            let raw = packet::rtp_bytes(p);
            let end = 12 + 4 * p.header.csrcs.len() as int;
            p.header.extension matches Some(x) ==> wire::be16(raw, end) == x.profile
                && wire::be16(raw, end + 2) == x.data.len() / 4 && raw.subrange(
                end + 4,
                end + 4 + x.data.len(),
            ) == x.data
        }),
{
    let raw = packet::rtp_bytes(p);
    let end = 12 + 4 * p.header.csrcs.len() as int;
    let e = packet::extension_bytes(p.header.extension);
    let start = end + e.len() as int;
    lemma_pieces(p);
    if let Some(x) = p.header.extension {
        let words = (x.data.len() / 4) as u16;
        assert(raw.subrange(end, start).subrange(0, 2) =~= raw.subrange(end, end + 2));
        assert(e.subrange(0, 2) =~= wire::enc16(x.profile));
        wire::lemma_be16_enc16(raw, end, x.profile);
        assert(raw.subrange(end, start).subrange(2, 4) =~= raw.subrange(end + 2, end + 4));
        assert(e.subrange(2, 4) =~= wire::enc16(words));
        wire::lemma_be16_enc16(raw, end + 2, words);
        assert(raw.subrange(end, start).subrange(4, e.len() as int) =~= raw.subrange(
            end + 4,
            start,
        ));
        assert(e.subrange(4, e.len() as int) =~= x.data);
    }
}

proof fn lemma_octets(p: PacketView)
    requires
        packet::rtp_representable(p),
    ensures
        ({
            let a = packet::rtp_bytes(p)[0];
            let b = packet::rtp_bytes(p)[1];
            &&& a / 64 == 2
            &&& (a / 32) % 2 == 1 <==> p.padding_len > 0
            &&& (a / 16) % 2 == 1 <==> p.header.extension is Some
            &&& a % 16 == p.header.csrcs.len()
            &&& b / 128 == 1 <==> p.header.marker
            &&& b % 128 == p.header.payload_type
        }),
{
    assert(packet::rtp_bytes(p)[0] == packet::first_octet(p));
    assert(packet::rtp_bytes(p)[1] == packet::second_octet(p));
}

/// When bytes are no packet: where there is no room for the fixed part or another version.
pub proof fn law_packets_are_refused(raw: Seq<u8>)
    ensures
        raw.len() < 12 ==> packet::rtp_parsed(raw) == Err::<PacketView, RtpError>(
            RtpError::PacketTooShort,
        ),
        raw.len() >= 12 && raw[0] / 64 != 2 ==> packet::rtp_parsed(raw) == Err::<
            PacketView,
            RtpError,
        >(RtpError::UnsupportedVersion(raw[0] / 64)),
{
}

/// An element of a header extension: an octet with its identifier and its length less one, then
/// its value. The first element with the identifier counts, and zeros before it do not.
pub proof fn law_extension_elements(
    h: HeaderView,
    zeros: nat,
    id: u8,
    value: Seq<u8>,
    rest: Seq<u8>,
    other: u8,
)
    requires
        0 < id < 15,
        1 <= value.len() <= 16,
        0 < other < 15,
        h.extension == Some(
            ExtensionView {
                profile: 0xBEDE,
                data: wire::repeated(0, zeros) + seq![(id * 16 + value.len() - 1) as u8] + value
                    + rest,
            },
        ),
    ensures
        packet::element(h, id) == Some(value),
        other != id ==> packet::element(h, other) == packet::one_byte_element(
            h.extension->0.data,
            (zeros + 1 + value.len()) as int,
            other,
        ),
{
    let data = h.extension->0.data;
    let z = zeros as int;
    assert forall|i: int| 0 <= i < z implies data[i] == 0 by {}
    lemma_zeros(data, 0, z, id);
    lemma_zeros(data, 0, z, other);
    assert(data[z] == id * 16 + value.len() - 1);
    assert(data[z] / 16 == id);
    assert(data[z] % 16 + 1 == value.len());
    assert(data.subrange(z + 1, z + 1 + value.len()) =~= value);
}

proof fn lemma_zeros(data: Seq<u8>, from: int, to: int, id: u8)
    requires
        0 <= from <= to <= data.len(),
        forall|i: int| from <= i < to ==> data[i] == 0,
    ensures
        packet::one_byte_element(data, from, id) == packet::one_byte_element(data, to, id),
    decreases to - from,
{
    if from < to {
        lemma_zeros(data, from + 1, to, id);
    }
}

/// Control packets are told from media packets by their second octet.
pub proof fn law_control_is_told_from_media(raw: Seq<u8>)
    ensures
        rtcp::is_rtcp_bytes(raw) <==> raw.len() >= 2 && 192 <= raw[1] && raw[1] <= 208,
{
}

/// A control packet: version 2 without padding, its count or format, its type, its length in
/// words less one, and its body with zeros up to a whole word.
pub proof fn law_frame(fmt: nat, packet_type: u8, body: Seq<u8>)
    requires
        fmt < 32,
        body.len() < 0x3_0000,
    ensures
        ({
            let b = rtcp::framed(fmt, packet_type, body);
            &&& b[0] == 128 + fmt
            &&& b[1] == packet_type
            &&& b.len() % 4 == 0
            &&& wire::be16(b, 2) == b.len() / 4 - 1
            &&& b.len() - 4 - body.len() < 4
            &&& b.subrange(4, 4 + body.len() as int) == body
            &&& forall|i: int| 4 + body.len() <= i < b.len() ==> #[trigger] b[i] == 0
        }),
{
    let b = rtcp::framed(fmt, packet_type, body);
    let words = (rtcp::padded(body).len() / 4) as u16;
    assert(b.subrange(2, 4) =~= wire::enc16(words));
    wire::lemma_be16_enc16(b, 2, words);
    assert(b.subrange(4, 4 + body.len() as int) =~= body);
}

/// The types and formats of control packets.
pub proof fn law_packet_types(p: RtcpView)
    ensures
        p is SenderReport ==> rtcp::packet_type_of(p) == 200,
        p is ReceiverReport ==> rtcp::packet_type_of(p) == 201,
        p is GenericNack ==> rtcp::packet_type_of(p) == 205 && rtcp::fmt_of(p) == 1,
        p is TransportWideCc ==> rtcp::packet_type_of(p) == 205 && rtcp::fmt_of(p) == 15,
        p is PictureLossIndication ==> rtcp::packet_type_of(p) == 206 && rtcp::fmt_of(p) == 1,
        p is FullIntraRequest ==> rtcp::packet_type_of(p) == 206 && rtcp::fmt_of(p) == 4,
        p is RemoteBitrateEstimate ==> rtcp::packet_type_of(p) == 206 && rtcp::fmt_of(p) == 15,
        p matches RtcpView::SenderReport { report_blocks, .. } ==> report_blocks.len() < 32
            ==> rtcp::fmt_of(p) == report_blocks.len(),
        p matches RtcpView::ReceiverReport { report_blocks, .. } ==> report_blocks.len() < 32
            ==> rtcp::fmt_of(p) == report_blocks.len(),
{
}

/// What the bytes of a report block stand for. The number of lost packets is signed.
#[verifier::rlimit(40)]
pub proof fn law_report_block_is_read(s: Seq<u8>, at: int, b: ReportBlock, lost: u32)
    requires
        0 <= at,
        at + 24 <= s.len(),
        lost < 0x100_0000,
        b.packets_lost == if lost < 0x80_0000 {
            lost as int
        } else {
            lost - 0x100_0000
        },
        s.subrange(at, at + 24) == wire::enc32(b.ssrc) + seq![b.fraction_lost] + wire::enc24(lost)
            + wire::enc32(b.highest_sequence) + wire::enc32(b.jitter) + wire::enc32(
            b.last_sender_report,
        ) + wire::enc32(b.delay_since_last_sender_report),
    ensures
        rtcp::block_at(s, at) == b,
{
    let w = s.subrange(at, at + 24);
    assert(s.subrange(at, at + 4) =~= w.subrange(0, 4));
    assert(w.subrange(0, 4) =~= wire::enc32(b.ssrc));
    wire::lemma_be32_enc32(s, at, b.ssrc);
    assert(s[at + 4] == w[4]);
    assert(s.subrange(at + 5, at + 8) =~= w.subrange(5, 8));
    assert(w.subrange(5, 8) =~= wire::enc24(lost));
    wire::lemma_be24_enc24(s, at + 5, lost);
    assert(s.subrange(at + 8, at + 12) =~= w.subrange(8, 12));
    assert(w.subrange(8, 12) =~= wire::enc32(b.highest_sequence));
    wire::lemma_be32_enc32(s, at + 8, b.highest_sequence);
    assert(s.subrange(at + 12, at + 16) =~= w.subrange(12, 16));
    assert(w.subrange(12, 16) =~= wire::enc32(b.jitter));
    wire::lemma_be32_enc32(s, at + 12, b.jitter);
    assert(s.subrange(at + 16, at + 20) =~= w.subrange(16, 20));
    assert(w.subrange(16, 20) =~= wire::enc32(b.last_sender_report));
    wire::lemma_be32_enc32(s, at + 16, b.last_sender_report);
    assert(s.subrange(at + 20, at + 24) =~= w.subrange(20, 24));
    assert(w.subrange(20, 24) =~= wire::enc32(b.delay_since_last_sender_report));
    wire::lemma_be32_enc32(s, at + 20, b.delay_since_last_sender_report);
}

/// What the body of a sender report stands for; its count says how many blocks follow.
#[verifier::rlimit(40)]
pub proof fn law_sender_report_is_read(
    ssrc: u32,
    ntp_most: u32,
    ntp_least: u32,
    timestamp: u32,
    packets: u32,
    octets: u32,
    blocks: Seq<u8>,
    n: u8,
)
    requires
        n < 32,
        blocks.len() == 24 * n,
    ensures
        ({
            let body = wire::enc32(ssrc) + wire::enc32(ntp_most) + wire::enc32(ntp_least)
                + wire::enc32(timestamp) + wire::enc32(packets) + wire::enc32(octets) + blocks;
            rtcp::body_parsed(200, n, body) == Ok::<RtcpView, RtpError>(
                RtcpView::SenderReport {
                    sender_ssrc: ssrc,
                    ntp_most,
                    ntp_least,
                    rtp_timestamp: timestamp,
                    packet_count: packets,
                    octet_count: octets,
                    report_blocks: Seq::new(n as nat, |i: int| rtcp::block_at(body, 24 + 24 * i)),
                },
            )
        }),
{
    let body = wire::enc32(ssrc) + wire::enc32(ntp_most) + wire::enc32(ntp_least) + wire::enc32(
        timestamp,
    ) + wire::enc32(packets) + wire::enc32(octets) + blocks;
    assert(body.subrange(0, 4) =~= wire::enc32(ssrc));
    wire::lemma_be32_enc32(body, 0, ssrc);
    assert(body.subrange(4, 8) =~= wire::enc32(ntp_most));
    wire::lemma_be32_enc32(body, 4, ntp_most);
    assert(body.subrange(8, 12) =~= wire::enc32(ntp_least));
    wire::lemma_be32_enc32(body, 8, ntp_least);
    assert(body.subrange(12, 16) =~= wire::enc32(timestamp));
    wire::lemma_be32_enc32(body, 12, timestamp);
    assert(body.subrange(16, 20) =~= wire::enc32(packets));
    wire::lemma_be32_enc32(body, 16, packets);
    assert(body.subrange(20, 24) =~= wire::enc32(octets));
    wire::lemma_be32_enc32(body, 20, octets);
    assert(rtcp::blocks_at(body, 24, n as nat) =~= Seq::new(
        n as nat,
        |i: int| rtcp::block_at(body, 24 + 24 * i),
    ));
}

/// What the body of a receiver report stands for.
#[verifier::rlimit(40)]
pub proof fn law_receiver_report_is_read(ssrc: u32, blocks: Seq<u8>, n: u8)
    requires
        n < 32,
        blocks.len() == 24 * n,
    ensures
        ({
            let body = wire::enc32(ssrc) + blocks;
            rtcp::body_parsed(201, n, body) == Ok::<RtcpView, RtpError>(
                RtcpView::ReceiverReport {
                    sender_ssrc: ssrc,
                    report_blocks: Seq::new(n as nat, |i: int| rtcp::block_at(body, 4 + 24 * i)),
                },
            )
        }),
{
    let body = wire::enc32(ssrc) + blocks;
    assert(body.subrange(0, 4) =~= wire::enc32(ssrc));
    wire::lemma_be32_enc32(body, 0, ssrc);
    assert(rtcp::blocks_at(body, 4, n as nat) =~= Seq::new(
        n as nat,
        |i: int| rtcp::block_at(body, 4 + 24 * i),
    ));
}

/// What the body of feedback starts with: who sends it, and the source that it is about.
proof fn lemma_feedback(sender: u32, media: u32, rest: Seq<u8>)
    ensures
        ({
            let body = wire::enc32(sender) + wire::enc32(media) + rest;
            &&& wire::be32(body, 0) == sender
            &&& wire::be32(body, 4) == media
            &&& body.skip(8) == rest
        }),
{
    let body = wire::enc32(sender) + wire::enc32(media) + rest;
    assert(body.subrange(0, 4) =~= wire::enc32(sender));
    wire::lemma_be32_enc32(body, 0, sender);
    assert(body.subrange(4, 8) =~= wire::enc32(media));
    wire::lemma_be32_enc32(body, 4, media);
    assert(body.skip(8) =~= rest);
}

/// A picture loss indication names its sender and the source that lost a picture.
#[verifier::rlimit(40)]
pub proof fn law_picture_loss_is_read(sender: u32, media: u32)
    ensures
        rtcp::body_parsed(206, 1, wire::enc32(sender) + wire::enc32(media)) == Ok::<
            RtcpView,
            RtpError,
        >(RtcpView::PictureLossIndication { sender_ssrc: sender, media_ssrc: media }),
{
    let none: Seq<u8> = seq![];
    lemma_feedback(sender, media, none);
    assert(wire::enc32(sender) + wire::enc32(media) + none =~= wire::enc32(sender) + wire::enc32(
        media,
    ));
}

/// An entry of a full intra request names a source and the number of the request.
#[verifier::rlimit(40)]
pub proof fn law_intra_request_is_read(sender: u32, media: u32, source: u32, number: u8)
    ensures
        rtcp::body_parsed(
            206,
            4,
            wire::enc32(sender) + wire::enc32(media) + (wire::enc32(source) + seq![
                number,
                0u8,
                0,
                0,
            ]),
        ) == Ok::<RtcpView, RtpError>(
            RtcpView::FullIntraRequest {
                sender_ssrc: sender,
                requests: seq![FirRequest { ssrc: source, sequence_number: number }],
            },
        ),
{
    let entry = wire::enc32(source) + seq![number, 0u8, 0, 0];
    let body = wire::enc32(sender) + wire::enc32(media) + entry;
    lemma_feedback(sender, media, entry);
    assert(body.subrange(8, 12) =~= wire::enc32(source));
    wire::lemma_be32_enc32(body, 8, source);
    assert(body[12] == number);
    assert(rtcp::fir_at(body, 8, 1) =~= seq![
        FirRequest { ssrc: source, sequence_number: number },
    ]);
}

/// A pair of a negative acknowledgement stands for a packet and those of the sixteen after it
/// whose bits are set, the lowest bit first.
#[verifier::rlimit(40)]
pub proof fn law_nack_pair_is_read(pid: u16, blp: u16, k: u16)
    requires
        k < 16,
        pid + 16 <= 0xFFFF,
    ensures
        nack::pair_numbers(seq![(pid, blp)]).contains(pid),
        nack::pair_numbers(seq![(pid, blp)]).contains((pid + k + 1) as u16) <==> (blp >> k) & 1
            == 1,
{
    let all = nack::pair_numbers(seq![(pid, blp)]);
    let list = nack::mask_list(pid, blp, 16);
    let more = seq![(pid, blp)].drop_first();
    assert(more.len() == 0);
    assert(nack::pair_numbers(more) =~= seq![]);
    assert(all =~= seq![pid] + list);
    assert(all[0] == pid);
    lemma_mask_list(pid, blp, 16, k);
    let x = (pid + k + 1) as u16;
    if list.contains(x) {
        let i = choose|i: int| 0 <= i < list.len() && list[i] == x;
        assert(all[1 + i] == x);
    }
    if all.contains(x) {
        let i = choose|i: int| 0 <= i < all.len() && all[i] == x;
        assert(i > 0);
        assert(list[i - 1] == x);
    }
}

proof fn lemma_mask_list(pid: u16, blp: u16, n: nat, k: u16)
    requires
        n <= 16,
        k < 16,
        pid + 16 <= 0xFFFF,
    ensures
        nack::mask_list(pid, blp, n).contains((pid + k + 1) as u16) <==> k < n && (blp >> k) & 1
            == 1,
    decreases n,
{
    if n > 0 {
        let m = (n - 1) as nat;
        let head = nack::mask_list(pid, blp, m);
        let list = nack::mask_list(pid, blp, n);
        let x = (pid + k + 1) as u16;
        lemma_mask_list(pid, blp, m, k);
        if head.contains(x) {
            let i = choose|i: int| 0 <= i < head.len() && head[i] == x;
            assert(list[i] == x);
        }
        if k == m && nack::bit16(blp, m as u16) {
            assert(list[head.len() as int] == x);
        }
        if list.contains(x) {
            let i = choose|i: int| 0 <= i < list.len() && list[i] == x;
            if i < head.len() {
                assert(head[i] == x);
            }
        }
    }
}

/// A negative acknowledgement names its sender, the source, and pairs.
#[verifier::rlimit(40)]
pub proof fn law_nack_is_read(sender: u32, media: u32, pid: u16, blp: u16)
    ensures
        rtcp::body_parsed(
            205,
            1,
            wire::enc32(sender) + wire::enc32(media) + (wire::enc16(pid) + wire::enc16(blp)),
        ) == Ok::<RtcpView, RtpError>(
            RtcpView::GenericNack {
                sender_ssrc: sender,
                media_ssrc: media,
                lost_packets: nack::pair_numbers(seq![(pid, blp)]),
            },
        ),
{
    let entry = wire::enc16(pid) + wire::enc16(blp);
    let body = wire::enc32(sender) + wire::enc32(media) + entry;
    lemma_feedback(sender, media, entry);
    assert(body.subrange(8, 10) =~= wire::enc16(pid));
    wire::lemma_be16_enc16(body, 8, pid);
    assert(body.subrange(10, 12) =~= wire::enc16(blp));
    wire::lemma_be16_enc16(body, 10, blp);
    assert(rtcp::pairs_at(body, 8, 1) =~= seq![(pid, blp)]);
}

/// An estimate of the bitrate carries its mark, the number of sources, six bits of exponent and
/// eighteen of mantissa, and the sources.
#[verifier::rlimit(40)]
#[verifier::spinoff_prover]
pub proof fn law_bitrate_is_read(
    sender: u32,
    media: u32,
    exponent: u8,
    mantissa: u32,
    ssrcs: Seq<u32>,
)
    requires
        exponent < 46,
        mantissa < 0x4_0000,
        ssrcs.len() < 256,
    ensures
        rtcp::body_parsed(
            206,
            15,
            wire::enc32(sender) + wire::enc32(media) + (seq![
                82u8,
                69,
                77,
                66,
                ssrcs.len() as u8,
                (exponent * 4 + mantissa / 0x1_0000) as u8,
                ((mantissa / 256) % 256) as u8,
                (mantissa % 256) as u8,
            ] + wire::enc32s(ssrcs)),
        ) == Ok::<RtcpView, RtpError>(
            RtcpView::RemoteBitrateEstimate {
                sender_ssrc: sender,
                bitrate_bps: (mantissa * rtcp::two_to(exponent as nat)) as u64,
                ssrcs,
            },
        ),
{
    let rest = bitrate_tail(exponent, mantissa, ssrcs);
    let body = wire::enc32(sender) + wire::enc32(media) + rest;
    lemma_feedback(sender, media, rest);
    lemma_bitrate_tail(exponent, mantissa, ssrcs);
    lemma_shifted(body, rest);
    wire::lemma_enc32s_len(ssrcs);
    assert(body.subrange(16, 16 + 4 * ssrcs.len() as int) =~= rest.subrange(
        8,
        8 + 4 * ssrcs.len() as int,
    ));
    wire::lemma_be32s_enc32s(body, 16, ssrcs);
    lemma_doubled(mantissa as u64, exponent as nat);
}

/// What follows the two sources in an estimate of the bitrate.
spec fn bitrate_tail(exponent: u8, mantissa: u32, ssrcs: Seq<u32>) -> Seq<u8> {
    seq![
        82u8,
        69,
        77,
        66,
        ssrcs.len() as u8,
        (exponent * 4 + mantissa / 0x1_0000) as u8,
        ((mantissa / 256) % 256) as u8,
        (mantissa % 256) as u8,
    ] + wire::enc32s(ssrcs)
}

proof fn lemma_bitrate_tail(exponent: u8, mantissa: u32, ssrcs: Seq<u32>)
    requires
        exponent < 46,
        mantissa < 0x4_0000,
        ssrcs.len() < 256,
    ensures
        ({
            let t = bitrate_tail(exponent, mantissa, ssrcs);
            &&& t.len() == 8 + 4 * ssrcs.len()
            &&& t[0] == 0x52 && t[1] == 0x45 && t[2] == 0x4D && t[3] == 0x42
            &&& t[4] == ssrcs.len()
            &&& t[5] / 4 == exponent
            &&& (t[5] % 4) * 0x1_0000 + t[6] * 0x100 + t[7] == mantissa
            &&& t.subrange(8, 8 + 4 * ssrcs.len() as int) == wire::enc32s(ssrcs)
        }),
{
    let t = bitrate_tail(exponent, mantissa, ssrcs);
    wire::lemma_enc32s_len(ssrcs);
    assert(t.subrange(8, 8 + 4 * ssrcs.len() as int) =~= wire::enc32s(ssrcs));
}

proof fn lemma_shifted(body: Seq<u8>, rest: Seq<u8>)
    requires
        body.len() == 8 + rest.len(),
        body.skip(8) == rest,
    ensures
        forall|i: int| 0 <= i < rest.len() ==> body[8 + i] == #[trigger] rest[i],
        rest.len() >= 8 ==> body[8] == rest[0] && body[9] == rest[1] && body[10] == rest[2]
            && body[11] == rest[3] && body[12] == rest[4] && body[13] == rest[5] && body[14]
            == rest[6] && body[15] == rest[7],
{
    assert forall|i: int| 0 <= i < rest.len() implies body[8 + i] == #[trigger] rest[i] by {
        assert(body.skip(8)[i] == body[8 + i]);
    }
    if rest.len() >= 8 {
        assert(body[8] == rest[0] && body[9] == rest[1] && body[10] == rest[2] && body[11]
            == rest[3] && body[12] == rest[4] && body[13] == rest[5] && body[14] == rest[6]
            && body[15] == rest[7]);
    }
}

proof fn lemma_doubled(x: u64, n: nat)
    requires
        x < 0x4_0000,
        n < 46,
    ensures
        rtcp::doubled(x, n) == x * rtcp::two_to(n),
        x * rtcp::two_to(n) < 0x4_0000 * rtcp::two_to(n),
        rtcp::two_to(n) <= 0x2000_0000_0000,
    decreases n,
{
    if n > 0 {
        lemma_doubled(x, (n - 1) as nat);
        let t = rtcp::two_to((n - 1) as nat);
        lemma_power(n);
        assert(x * (2 * t) == 2 * (x * t)) by (nonlinear_arith);
        assert(x * t < 0x4_0000 * t);
    } else {
        assert(x * 1 == x);
    }
}

proof fn lemma_power(n: nat)
    requires
        n < 46,
    ensures
        rtcp::two_to(n) <= 0x2000_0000_0000,
        n > 0 ==> rtcp::two_to((n - 1) as nat) <= 0x1000_0000_0000,
{
    lemma_power_below(n, 45);
    if n > 0 {
        lemma_power_below((n - 1) as nat, 44);
    }
    assert(rtcp::two_to(15) == 0x8000) by {
        reveal_with_fuel(rtcp::two_to, 16);
    }
    assert(rtcp::two_to(14) == 0x4000) by {
        reveal_with_fuel(rtcp::two_to, 15);
    }
    lemma_power_sum(15, 15);
    lemma_power_sum(30, 15);
    lemma_power_sum(30, 14);
}

proof fn lemma_power_sum(a: nat, b: nat)
    ensures
        rtcp::two_to(a + b) == rtcp::two_to(a) * rtcp::two_to(b),
    decreases b,
{
    if b > 0 {
        let c = (b - 1) as nat;
        lemma_power_sum(a, c);
        assert(rtcp::two_to(a + b) == 2 * rtcp::two_to(a + c));
        assert(2 * (rtcp::two_to(a) * rtcp::two_to(c)) == rtcp::two_to(a) * (2 * rtcp::two_to(c)))
            by (nonlinear_arith);
    } else {
        assert(rtcp::two_to(a) * 1 == rtcp::two_to(a));
    }
}

proof fn lemma_power_below(a: nat, b: nat)
    requires
        a <= b,
    ensures
        rtcp::two_to(a) <= rtcp::two_to(b),
    decreases b,
{
    if a < b {
        lemma_power_below(a, (b - 1) as nat);
    }
}

/// Feedback for the transport carries the first number that it is about, how many it is about, a
/// reference time and its own number; the rest is kept as it is.
#[verifier::rlimit(40)]
pub proof fn law_transport_feedback_is_read(
    sender: u32,
    media: u32,
    base: u16,
    count: u16,
    reference: u32,
    number: u8,
    payload: Seq<u8>,
)
    requires
        reference < 0x100_0000,
    ensures
        rtcp::body_parsed(
            205,
            15,
            wire::enc32(sender) + wire::enc32(media) + (wire::enc16(base) + wire::enc16(count)
                + wire::enc24(reference) + seq![number] + payload),
        ) == Ok::<RtcpView, RtpError>(
            RtcpView::TransportWideCc {
                sender_ssrc: sender,
                media_ssrc: media,
                base_sequence: base,
                packet_status_count: count,
                reference_time_64ms: reference,
                feedback_packet_count: number,
                payload,
            },
        ),
{
    let rest = wire::enc16(base) + wire::enc16(count) + wire::enc24(reference) + seq![number]
        + payload;
    let body = wire::enc32(sender) + wire::enc32(media) + rest;
    lemma_feedback(sender, media, rest);
    lemma_transport_tail(base, count, reference, number, payload);
    lemma_shifted(body, rest);
    assert(body.subrange(16, body.len() as int) =~= rest.skip(8));
}

proof fn lemma_transport_tail(
    base: u16,
    count: u16,
    reference: u32,
    number: u8,
    payload: Seq<u8>,
)
    requires
        reference < 0x100_0000,
    ensures
        ({
            let t = wire::enc16(base) + wire::enc16(count) + wire::enc24(reference) + seq![number]
                + payload;
            &&& t.len() == 8 + payload.len()
            &&& wire::be16(t, 0) == base
            &&& wire::be16(t, 2) == count
            &&& wire::be24(t, 4) == reference
            &&& t[7] == number
            &&& t.skip(8) == payload
        }),
{
    let t = wire::enc16(base) + wire::enc16(count) + wire::enc24(reference) + seq![number]
        + payload;
    assert(t.subrange(0, 2) =~= wire::enc16(base));
    wire::lemma_be16_enc16(t, 0, base);
    assert(t.subrange(2, 4) =~= wire::enc16(count));
    wire::lemma_be16_enc16(t, 2, count);
    assert(t.subrange(4, 7) =~= wire::enc24(reference));
    wire::lemma_be24_enc24(t, 4, reference);
    assert(t.skip(8) =~= payload);
}

/// The number 15 ends the elements of a header extension, whatever follows; an extension of another
/// profile has none.
pub proof fn law_extension_ends(h: HeaderView, zeros: nat, mark: u8, rest: Seq<u8>, id: u8)
    requires
        240 <= mark,
        h.extension matches Some(e) && (e.profile != 0xBEDE || e.data == wire::repeated(0, zeros)
            + seq![mark] + rest),
    ensures
        packet::element(h, id) is None,
{
    let e = h.extension->0;
    if e.profile == 0xBEDE {
        let data = e.data;
        let z = zeros as int;
        assert forall|i: int| 0 <= i < z implies data[i] == 0 by {}
        lemma_zeros(data, 0, z, id);
        assert(data[z] == mark);
        assert(mark / 16 == 15);
    }
}

/// A control packet is read by its type and its format from its body; padding, of which the last
/// byte tells the length, is no part of the body.
#[verifier::rlimit(40)]
pub proof fn law_control_packet_is_read(
    fmt: u8,
    packet_type: u8,
    words: u16,
    body: Seq<u8>,
    padding: Seq<u8>,
    rest: Seq<u8>,
)
    requires
        fmt < 32,
        body.len() + padding.len() == 4 * words,
        padding.len() > 0 ==> padding.len() < 256 && padding.last() == padding.len(),
    ensures
        ({
            let mark: u8 = if padding.len() > 0 {
                160
            } else {
                128
            };
            let raw = seq![(mark + fmt) as u8, packet_type] + wire::enc16(words) + body + padding;
            &&& rtcp::first_parsed(raw + rest) == rtcp::body_parsed(packet_type, fmt, body)
            &&& rtcp::first_len(raw + rest) == raw.len()
        }),
{
    let mark: u8 = if padding.len() > 0 {
        160
    } else {
        128
    };
    let raw = seq![(mark + fmt) as u8, packet_type] + wire::enc16(words) + body + padding;
    let all = raw + rest;
    let len = raw.len() as int;
    assert(all.subrange(2, 4) =~= wire::enc16(words));
    wire::lemma_be16_enc16(all, 2, words);
    assert(all[0] == mark + fmt);
    assert(all[0] / 64 == 2);
    assert(all[0] % 32 == fmt);
    assert((all[0] / 32) % 2 == 1 <==> padding.len() > 0);
    assert(all[1] == packet_type);
    if padding.len() > 0 {
        assert(all[len - 1] == padding.last());
    }
    assert(all.subrange(4, len - padding.len()) =~= body);
}

/// Control packets are read one after the other; up to three bytes at the end are passed over, and
/// one packet that cannot be read spoils all.
pub proof fn law_control_packets_in_turn(raw: Seq<u8>)
    ensures
        raw.len() < 4 ==> rtcp::rtcp_parsed(raw) == Ok::<Seq<RtcpView>, RtpError>(seq![]),
        raw.len() >= 4 ==> match rtcp::first_parsed(raw) {
            Ok(p) => rtcp::first_len(raw) <= raw.len() ==> match rtcp::rtcp_parsed(
                raw.subrange(rtcp::first_len(raw), raw.len() as int),
            ) {
                Ok(ps) => rtcp::rtcp_parsed(raw) == Ok::<Seq<RtcpView>, RtpError>(seq![p] + ps),
                Err(e) => rtcp::rtcp_parsed(raw) == Err::<Seq<RtcpView>, RtpError>(e),
            },
            Err(e) => rtcp::rtcp_parsed(raw) == Err::<Seq<RtcpView>, RtpError>(e),
        },
{
}

} // verus!
