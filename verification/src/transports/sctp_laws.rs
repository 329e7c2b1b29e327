//! What the two ends of an association make of each other's packets.
use vstd::prelude::*;
use vstd::string::*;
use vstd::utf8::*;

use crate::crypto;
use crate::transports::sctp;
use crate::transports::sctp::{ChunkView, DataChannel, SctpTransport};
use crate::wire;

verus! {

/// The packet `p` with zeros in the place of its checksum.
pub open spec fn blanked(p: Seq<u8>) -> Seq<u8> {
    p.update(8, 0).update(9, 0).update(10, 0).update(11, 0)
}

/// Every packet starts with the ports, the tag and the checksum, whose lowest byte comes first
/// and which covers the packet without it. Then comes the chunk: its type, its flags, its length
/// without padding, its value, and zeros up to a multiple of four.
pub proof fn law_packet_layout(local_port: u16, remote_port: u16, tag: u32, c: ChunkView)
    requires
        c.value.len() <= 65531,
    ensures
        ({
            let p = sctp::packet_bytes(local_port, remote_port, tag, c);
            let n = c.value.len() as int;
            &&& p.len() % 4 == 0
            &&& 16 + n <= p.len() < 20 + n
            &&& wire::be16(p, 0) == local_port
            &&& wire::be16(p, 2) == remote_port
            &&& wire::be32(p, 4) == tag
            &&& p[8] + p[9] * 0x100 + p[10] * 0x1_0000 + p[11] * 0x100_0000 == crypto::crc32c(
                blanked(p),
            )
            &&& p[12] == c.chunk_type
            &&& p[13] == c.flags
            &&& wire::be16(p, 14) == 4 + n
            &&& p.subrange(16, 16 + n) == c.value
            &&& forall|i: int| 16 + n <= i < p.len() ==> #[trigger] p[i] == 0
        }),
{
    let p = sctp::packet_bytes(local_port, remote_port, tag, c);
    let n = c.value.len() as int;
    assert(p.subrange(0, 2) =~= wire::enc16(local_port));
    wire::lemma_be16_enc16(p, 0, local_port);
    assert(p.subrange(2, 4) =~= wire::enc16(remote_port));
    wire::lemma_be16_enc16(p, 2, remote_port);
    assert(p.subrange(4, 8) =~= wire::enc32(tag));
    wire::lemma_be32_enc32(p, 4, tag);
    assert(p.subrange(14, 16) =~= wire::enc16((4 + n) as u16));
    wire::lemma_be16_enc16(p, 14, (4 + n) as u16);
    assert(p.subrange(16, 16 + n) =~= c.value);
    let blank = sctp::common_header(local_port, remote_port, tag, wire::repeated(0, 4))
        + sctp::chunk_bytes(c);
    assert(blanked(p) =~= blank);
    let crc = crypto::crc32c(blank);
    assert(p.subrange(8, 12) =~= sctp::le32(crc));
    assert(p[8] == p.subrange(8, 12)[0]);
    assert(p[9] == p.subrange(8, 12)[1]);
    assert(p[10] == p.subrange(8, 12)[2]);
    assert(p[11] == p.subrange(8, 12)[3]);
}

/// What follows a whole chunk is split into chunks by itself.
pub proof fn law_chunks_are_split(c: ChunkView, rest: Seq<u8>)
    requires
        c.value.len() <= 65531,
    ensures
        sctp::chunk_list(sctp::chunk_bytes(c) + rest) == seq![c] + sctp::chunk_list(rest),
{
    let s = sctp::chunk_bytes(c) + rest;
    let len = 4 + c.value.len();
    assert(s.subrange(2, 4) =~= wire::enc16(len as u16));
    wire::lemma_be16_enc16(s, 2, len as u16);
    assert(s.subrange(4, len as int) =~= c.value);
    assert(s.skip(sctp::next_chunk(s, len as int)) =~= rest);
}

/// The value of a DATA chunk: its sequence number, its stream and its place in that, what kind of
/// payload it carries, and the payload.
pub open spec fn data_of(tsn: u32, stream: u16, ssn: u16, ppid: u32, data: Seq<u8>) -> Seq<u8> {
    wire::enc32(tsn) + wire::enc16(stream) + wire::enc16(ssn) + wire::enc32(ppid) + data
}

/// Data is answered with one SACK chunk that acknowledges exactly its sequence number, whatever
/// its stream, its kind and its payload. The window is one mebibyte, and nothing is missing or
/// doubled.
pub proof fn law_data_is_acknowledged(
    t: SctpTransport,
    flags: u8,
    tsn: u32,
    stream: u16,
    ssn: u16,
    ppid: u32,
    data: Seq<u8>,
)
    ensures
        ({
            let c = ChunkView {
                chunk_type: 0,
                flags,
                value: data_of(tsn, stream, ssn, ppid, data),
            };
            &&& sctp::answered(t, c) == t
            &&& sctp::answer_chunk(c) matches Some(a) && {
                &&& sctp::packet_chunks(
                    sctp::packet_bytes(t.local_port, t.remote_port, t.remote_verification_tag, a),
                ) == seq![a]
                &&& a.chunk_type == 3
                &&& a.flags == 0
                &&& a.value.len() == 12
                &&& wire::be32(a.value, 0) == tsn
                &&& wire::be32(a.value, 4) == 1024 * 1024
                &&& wire::be16(a.value, 8) == 0
                &&& wire::be16(a.value, 10) == 0
            }
        }),
{
    let v = data_of(tsn, stream, ssn, ppid, data);
    let c = ChunkView { chunk_type: 0, flags, value: v };
    assert(v.subrange(0, 4) =~= wire::enc32(tsn));
    wire::lemma_be32_enc32(v, 0, tsn);
    let a = sctp::answer_chunk(c)->0;
    assert(a.value.subrange(0, 4) =~= wire::enc32(tsn));
    wire::lemma_be32_enc32(a.value, 0, tsn);
    assert(a.value.subrange(4, 8) =~= wire::enc32(0x10_0000));
    wire::lemma_be32_enc32(a.value, 4, 0x10_0000);
    assert(a.value.subrange(8, 10) =~= wire::enc16(0));
    wire::lemma_be16_enc16(a.value, 8, 0);
    assert(a.value.subrange(10, 12) =~= wire::enc16(0));
    wire::lemma_be16_enc16(a.value, 10, 0);
    sctp::law_chunks_of_packet(t.local_port, t.remote_port, t.remote_verification_tag, a);
}

/// Data with less than its fixed part is neither acknowledged nor delivered.
pub proof fn law_short_data_is_ignored(t: SctpTransport, c: ChunkView)
    requires
        c.chunk_type == 0,
        c.value.len() < 12,
    ensures
        sctp::answer_chunk(c) is None,
        sctp::answered(t, c) == t,
        sctp::delivered(t.channels@, c) is None,
{
}

/// A message goes to the first channel with the number of its stream, with nothing added or
/// missing, whatever its sequence numbers and its kind; to none where there is no such channel.
pub proof fn law_data_is_delivered(
    channels: Seq<DataChannel>,
    flags: u8,
    tsn: u32,
    stream: u16,
    ssn: u16,
    ppid: u32,
    data: Seq<u8>,
)
    ensures
        ({
            let c = ChunkView {
                chunk_type: 0,
                flags,
                value: data_of(tsn, stream, ssn, ppid, data),
            };
            match sctp::delivered(channels, c) {
                Some((i, message)) => {
                    &&& 0 <= i < channels.len()
                    &&& channels[i].id == stream
                    &&& forall|k: int| 0 <= k < i ==> (#[trigger] channels[k]).id != stream
                    &&& message == data
                },
                None => forall|k: int|
                    0 <= k < channels.len() ==> (#[trigger] channels[k]).id != stream,
            }
        }),
{
    let v = data_of(tsn, stream, ssn, ppid, data);
    assert(v.subrange(4, 6) =~= wire::enc16(stream));
    wire::lemma_be16_enc16(v, 4, stream);
    assert(v.skip(12) =~= data);
    lemma_channel_of(channels, stream, 0);
}

proof fn lemma_channel_of(channels: Seq<DataChannel>, stream: u16, from: int)
    requires
        0 <= from <= channels.len(),
    ensures
        match sctp::channel_of(channels, stream, from) {
            Some(i) => {
                &&& from <= i < channels.len()
                &&& channels[i].id == stream
                &&& forall|k: int| from <= k < i ==> (#[trigger] channels[k]).id != stream
            },
            None => forall|k: int|
                from <= k < channels.len() ==> (#[trigger] channels[k]).id != stream,
        },
    decreases channels.len() - from,
{
    if from < channels.len() && channels[from].id != stream {
        lemma_channel_of(channels, stream, from + 1);
    }
}

/// A message that one end sends is delivered at the other, to the first channel with the number 0,
/// and acknowledged. It is whole in its packet, and text.
pub proof fn law_messages_arrive(from: SctpTransport, to: SctpTransport, data: Seq<u8>)
    requires
        data.len() <= 65519,
    ensures
        ({
            let p = sctp::packet_bytes(
                from.local_port,
                from.remote_port,
                from.remote_verification_tag,
                ChunkView { chunk_type: sctp::CT_DATA, flags: 3, value: sctp::data_value(data) },
            );
            let cs = sctp::packet_chunks(p);
            &&& wire::be32(p, 4) == from.remote_verification_tag
            &&& cs.len() == 1
            &&& cs[0].chunk_type == 0
            &&& cs[0].flags == 3
            &&& cs[0].value.len() == 12 + data.len()
            &&& wire::be32(cs[0].value, 8) == 51
            &&& sctp::answer_chunk(cs[0]) is Some
            &&& match sctp::delivered(to.channels@, cs[0]) {
                Some((i, message)) => {
                    &&& 0 <= i < to.channels@.len()
                    &&& to.channels@[i].id == 0
                    &&& message == data
                },
                None => forall|k: int|
                    0 <= k < to.channels@.len() ==> (#[trigger] to.channels@[k]).id != 0,
            }
        }),
{
    let c = ChunkView { chunk_type: 0, flags: 3, value: sctp::data_value(data) };
    lemma_tag_of_packet(from, c);
    sctp::law_data_is_received(
        from.local_port,
        from.remote_port,
        from.remote_verification_tag,
        data,
    );
    lemma_data_value(data);
    law_data_is_delivered(to.channels@, 3, 0, 0, 0, 51, data);
}

proof fn lemma_tag_of_packet(t: SctpTransport, c: ChunkView)
    requires
        c.value.len() <= 65531,
    ensures
        wire::be32(
            sctp::packet_bytes(t.local_port, t.remote_port, t.remote_verification_tag, c),
            4,
        ) == t.remote_verification_tag,
{
    law_packet_layout(t.local_port, t.remote_port, t.remote_verification_tag, c);
}

proof fn lemma_data_value(data: Seq<u8>)
    ensures
        sctp::data_value(data) == data_of(0, 0, 0, 51, data),
        sctp::data_value(data).len() == 12 + data.len(),
        wire::be32(sctp::data_value(data), 8) == 51,
{
    let v = sctp::data_value(data);
    assert(v =~= data_of(0, 0, 0, 51, data));
    assert(v.subrange(8, 12) =~= wire::enc32(51));
    wire::lemma_be32_enc32(v, 8, 51);
}

/// An INIT chunk is answered with an INIT ACK to the tag that it names, which all later packets to
/// the peer carry. The answer names the tag of this end, its window, ten streams each way and its
/// first sequence number, and hands out a cookie.
pub proof fn law_init_is_answered(
    t: SctpTransport,
    flags: u8,
    tag: u32,
    window: u32,
    outbound: u16,
    inbound: u16,
    tsn: u32,
    params: Seq<u8>,
)
    ensures
        ({
            let c = ChunkView {
                chunk_type: 1,
                flags,
                value: wire::enc32(tag) + wire::enc32(window) + wire::enc16(outbound)
                    + wire::enc16(inbound) + wire::enc32(tsn) + params,
            };
            let after = sctp::answered(t, c);
            &&& after == (SctpTransport {
                verification_tag: 12345,
                remote_verification_tag: tag,
                ..t
            })
            &&& sctp::answer_chunk(c) matches Some(a) && {
                &&& a.chunk_type == 2
                &&& a.flags == 0
                &&& a.value.len() == 32
                &&& wire::be32(a.value, 0) == after.verification_tag
                &&& wire::be32(a.value, 4) == 1024 * 1024
                &&& wire::be16(a.value, 8) == 10
                &&& wire::be16(a.value, 10) == 10
                &&& wire::be32(a.value, 12) == 0
                &&& wire::be16(a.value, 16) == 7
                &&& wire::be16(a.value, 18) == 16
                &&& a.value.skip(20) == seq![100u8, 117, 109, 109, 121, 95, 99, 111, 111, 107, 105, 101]
            }
        }),
{
    let v = wire::enc32(tag) + wire::enc32(window) + wire::enc16(outbound) + wire::enc16(inbound)
        + wire::enc32(tsn) + params;
    assert(v.subrange(0, 4) =~= wire::enc32(tag));
    wire::lemma_be32_enc32(v, 0, tag);
    lemma_cookie();
    let a = sctp::init_ack_value();
    assert(a.subrange(0, 4) =~= wire::enc32(12345));
    wire::lemma_be32_enc32(a, 0, 12345);
    assert(a.subrange(4, 8) =~= wire::enc32(0x10_0000));
    wire::lemma_be32_enc32(a, 4, 0x10_0000);
    assert(a.subrange(8, 10) =~= wire::enc16(10));
    wire::lemma_be16_enc16(a, 8, 10);
    assert(a.subrange(10, 12) =~= wire::enc16(10));
    wire::lemma_be16_enc16(a, 10, 10);
    assert(a.subrange(12, 16) =~= wire::enc32(0));
    wire::lemma_be32_enc32(a, 12, 0);
    assert(a.subrange(16, 18) =~= wire::enc16(7));
    wire::lemma_be16_enc16(a, 16, 7);
    assert(a.subrange(18, 20) =~= wire::enc16(16));
    wire::lemma_be16_enc16(a, 18, 16);
    assert(a.skip(20) =~= "dummy_cookie".spec_bytes());
}

proof fn lemma_cookie()
    ensures
        "dummy_cookie".spec_bytes() == seq![
            100u8, 117, 109, 109, 121, 95, 99, 111, 111, 107, 105, 101,
        ],
{
    reveal_strlit("dummy_cookie");
    is_ascii_chars_encode_utf8("dummy_cookie"@);
    assert("dummy_cookie".spec_bytes() =~= seq![
        100u8, 117, 109, 109, 121, 95, 99, 111, 111, 107, 105, 101,
    ]);
}

/// A short INIT chunk changes nothing and has no answer. A cookie is acknowledged, a heartbeat is
/// given back, and neither changes what the ends agreed on; other chunks than these and data are
/// ignored.
pub proof fn law_control_is_answered(t: SctpTransport, c: ChunkView)
    ensures
        c.chunk_type == 1 && c.value.len() < 16 ==> sctp::answer_chunk(c) is None
            && sctp::answered(t, c) == t,
        c.chunk_type == 10 ==> sctp::answer_chunk(c) == Some(
            ChunkView { chunk_type: 11, flags: 0, value: seq![] },
        ),
        c.chunk_type == 4 ==> sctp::answer_chunk(c) == Some(
            ChunkView { chunk_type: 5, flags: 0, value: c.value },
        ),
        c.chunk_type != 1 ==> sctp::answered(t, c) == t,
        c.chunk_type != 0 && c.chunk_type != 1 && c.chunk_type != 4 && c.chunk_type != 10
            ==> sctp::answer_chunk(c) is None,
        c.chunk_type != 0 ==> sctp::delivered(t.channels@, c) is None,
{
}

} // verus!
