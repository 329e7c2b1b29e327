//! The SCTP association below the data channels (RFC 9260, RFC 8831), in its passive role.
use vstd::prelude::*;
use vstd::string::*;

use crate::crypto;
use crate::wire;

verus! {

#[derive(Debug, Clone, Copy, PartialEq, Eq, Structural)]
pub enum SctpState {
    New,
    Connecting,
    Connected,
    Closed,
}

/// What a data channel tells its owner.
#[derive(Debug, Clone)]
pub enum DataChannelEvent {
    Open,
    Message(Vec<u8>),
    Close,
}

#[derive(Debug, Clone, Copy, PartialEq, Eq, Structural)]
pub enum DataChannelState {
    Connecting,
    Open,
    Closing,
    Closed,
}

/// A data channel of an association.
#[derive(Debug, Clone)]
pub struct DataChannel {
    pub id: u16,
    pub label: String,
    pub state: DataChannelState,
}

impl DataChannel {
    /// A channel that is not open yet.
    pub fn new(id: u16, label: String) -> (r: Self)
        ensures
            r.id == id,
            r.label@ == label@,
            r.state == DataChannelState::Connecting,
    {
        DataChannel { id, label, state: DataChannelState::Connecting }
    }
}

pub const SCTP_COMMON_HEADER_SIZE: usize = 12;

pub const CHUNK_HEADER_SIZE: usize = 4;

pub const CT_DATA: u8 = 0;

pub const CT_INIT: u8 = 1;

pub const CT_INIT_ACK: u8 = 2;

pub const CT_SACK: u8 = 3;

pub const CT_HEARTBEAT: u8 = 4;

pub const CT_HEARTBEAT_ACK: u8 = 5;

pub const CT_COOKIE_ECHO: u8 = 10;

pub const CT_COOKIE_ACK: u8 = 11;

/// A chunk of a packet.
#[derive(Debug, Clone, PartialEq, Eq)]
pub struct SctpChunk {
    pub chunk_type: u8,
    pub flags: u8,
    pub value: Vec<u8>,
}

/// What a chunk says.
#[verifier::ext_equal]
pub struct ChunkView {
    pub chunk_type: u8,
    pub flags: u8,
    pub value: Seq<u8>,
}

impl View for SctpChunk {
    type V = ChunkView;

    open spec fn view(&self) -> ChunkView {
        ChunkView { chunk_type: self.chunk_type, flags: self.flags, value: self.value@ }
    }
}

/// What the chunks of a list say.
pub open spec fn chunk_views(chunks: Seq<SctpChunk>) -> Seq<ChunkView> {
    chunks.map_values(|c: SctpChunk| c@)
}

/// How many bytes follow a chunk of this length up to a multiple of four.
pub open spec fn chunk_padding(len: int) -> int {
    (4 - len % 4) % 4
}

/// Where the chunk after one of this length starts: after its padding, where that is there.
pub open spec fn next_chunk(s: Seq<u8>, len: int) -> int {
    if s.len() - len >= chunk_padding(len) {
        len + chunk_padding(len)
    } else {
        len
    }
}

/// The chunks of a packet after its common header, up to the first that is not all there.
pub open spec fn chunk_list(s: Seq<u8>) -> Seq<ChunkView>
    decreases s.len(),
{
    if s.len() < 4 || wire::be16(s, 2) < 4 || s.len() < wire::be16(s, 2) {
        seq![]
    } else {
        let len = wire::be16(s, 2) as int;
        seq![ChunkView { chunk_type: s[0], flags: s[1], value: s.subrange(4, len) }] + chunk_list(
            s.skip(next_chunk(s, len)),
        )
    }
}

/// The chunks of a packet. A packet that is shorter than the common header has none.
pub open spec fn packet_chunks(packet: Seq<u8>) -> Seq<ChunkView> {
    if packet.len() < 12 {
        seq![]
    } else {
        chunk_list(packet.skip(12))
    }
}

/// Splits a packet into its chunks. The checksum is not checked.
pub fn parse_packet(packet: &[u8]) -> (r: Vec<SctpChunk>)
    ensures
        chunk_views(r@) == packet_chunks(packet@),
{
    let n: usize = packet.len();
    let mut chunks: Vec<SctpChunk> = Vec::new();
    if n < SCTP_COMMON_HEADER_SIZE {
        assert(chunk_views(chunks@) =~= seq![]);
        return chunks;
    }
    let ghost whole = packet_chunks(packet@);
    let mut at: usize = SCTP_COMMON_HEADER_SIZE;
    assert(chunk_views(chunks@) + whole =~= whole);
    while n - at >= CHUNK_HEADER_SIZE
        invariant
            n == packet@.len(),
            12 <= at <= n,
            whole == packet_chunks(packet@),
            whole == chunk_views(chunks@) + chunk_list(packet@.skip(at as int)),
        decreases n - at,
    {
        let ghost rest = packet@.skip(at as int);
        let len: usize = wire::get_u16(packet, at + 2) as usize;
        assert(wire::be16(rest, 2) == len);
        if len < CHUNK_HEADER_SIZE || n - at < len {
            assert(chunk_views(chunks@) + seq![] =~= chunk_views(chunks@));
            return chunks;
        }
        let chunk = SctpChunk {
            chunk_type: packet[at],
            flags: packet[at + 1],
            value: wire::copy_range(packet, at + CHUNK_HEADER_SIZE, at + len),
        };
        let ghost before = chunk_views(chunks@);
        let padding: usize = (4 - len % 4) % 4;
        proof {
            assert(chunk.value@ =~= rest.subrange(4, len as int));
            assert(chunk_views(chunks@.push(chunk)) =~= before.push(chunk@));
        }
        chunks.push(chunk);
        at = at + len;
        if n - at >= padding {
            at = at + padding;
        }
        proof {
            let after = rest.skip(next_chunk(rest, len as int));
            assert(after =~= packet@.skip(at as int));
            assert(before + (seq![chunk@] + chunk_list(after)) =~= before.push(chunk@)
                + chunk_list(after));
        }
    }
    assert(chunk_views(chunks@) + seq![] =~= chunk_views(chunks@));
    chunks
}

/// The four bytes of `x`, the lowest first.
pub open spec fn le32(x: u32) -> Seq<u8> {
    seq![
        (x % 256) as u8,
        ((x / 0x100) % 256) as u8,
        ((x / 0x1_0000) % 256) as u8,
        (x / 0x100_0000) as u8,
    ]
}

/// A chunk with its header and its padding. The length is kept modulo 2^16.
pub open spec fn chunk_bytes(c: ChunkView) -> Seq<u8> {
    seq![c.chunk_type, c.flags] + wire::enc16(((4 + c.value.len()) % 0x1_0000) as u16) + c.value
        + wire::repeated(0, chunk_padding(c.value.len() as int) as nat)
}

/// The common header of a packet with this checksum field.
pub open spec fn common_header(
    local_port: u16,
    remote_port: u16,
    tag: u32,
    checksum: Seq<u8>,
) -> Seq<u8> {
    wire::enc16(local_port) + wire::enc16(remote_port) + wire::enc32(tag) + checksum
}

/// A packet with one chunk. Its checksum is that of the packet with zeros in the checksum field.
pub open spec fn packet_bytes(local_port: u16, remote_port: u16, tag: u32, c: ChunkView) -> Seq<u8> {
    let blank = common_header(local_port, remote_port, tag, wire::repeated(0, 4)) + chunk_bytes(c);
    common_header(local_port, remote_port, tag, le32(crypto::crc32c(blank))) + chunk_bytes(c)
}

/// Builds a packet with one chunk.
fn build_packet(
    local_port: u16,
    remote_port: u16,
    tag: u32,
    chunk_type: u8,
    flags: u8,
    value: &[u8],
) -> (out: Vec<u8>)
    ensures
        out@ == packet_bytes(
            local_port,
            remote_port,
            tag,
            ChunkView { chunk_type, flags, value: value@ },
        ),
{
    let ghost c = ChunkView { chunk_type, flags, value: value@ };
    let n: usize = value.len();
    let mut chunk: Vec<u8> = Vec::new();
    chunk.push(chunk_type);
    chunk.push(flags);
    wire::put_u16(&mut chunk, ((n % 0x1_0000 + 4) % 0x1_0000) as u16);
    wire::put_bytes(&mut chunk, value);
    wire::put_repeated(&mut chunk, 0, (4 - n % 4) % 4);
    assert(chunk@ =~= chunk_bytes(c)) by {
        assert((n % 0x1_0000 + 4) % 0x1_0000 == (4 + n) % 0x1_0000);
    }
    let mut packet: Vec<u8> = Vec::new();
    wire::put_u16(&mut packet, local_port);
    wire::put_u16(&mut packet, remote_port);
    wire::put_u32(&mut packet, tag);
    wire::put_repeated(&mut packet, 0, 4);
    wire::put_bytes(&mut packet, chunk.as_slice());
    let ghost blank = common_header(local_port, remote_port, tag, wire::repeated(0, 4))
        + chunk_bytes(c);
    assert(packet@ =~= blank);
    let checksum: u32 = crypto::crc32c_of(packet.as_slice());
    let mut out: Vec<u8> = Vec::new();
    wire::put_u16(&mut out, local_port);
    wire::put_u16(&mut out, remote_port);
    wire::put_u32(&mut out, tag);
    out.push((checksum % 256) as u8);
    out.push(((checksum / 0x100) % 256) as u8);
    out.push(((checksum / 0x1_0000) % 256) as u8);
    out.push((checksum / 0x100_0000) as u8);
    assert(out@ =~= common_header(local_port, remote_port, tag, le32(checksum)));
    wire::put_bytes(&mut out, chunk.as_slice());
    out
}

/// A packet that was built is split into the chunk it was built of, where the chunk fits its
/// length field.
pub proof fn law_chunks_of_packet(local_port: u16, remote_port: u16, tag: u32, c: ChunkView)
    requires
        c.value.len() <= 65531,
    ensures
        packet_chunks(packet_bytes(local_port, remote_port, tag, c)) == seq![c],
{
    let packet = packet_bytes(local_port, remote_port, tag, c);
    let s = packet.skip(12);
    let len = 4 + c.value.len();
    assert(s =~= chunk_bytes(c));
    assert(s.subrange(2, 4) =~= wire::enc16(len as u16));
    wire::lemma_be16_enc16(s, 2, len as u16);
    assert(s.subrange(4, len as int) =~= c.value);
    assert(next_chunk(s, len as int) == s.len());
    let none = s.skip(next_chunk(s, len as int));
    assert(none.len() == 0);
    assert(chunk_list(none) =~= seq![]);
    assert(chunk_list(s) =~= seq![c] + chunk_list(none));
    assert(seq![c] + chunk_list(none) =~= seq![c]);
}

/// What the two ends of an association have agreed on, and its channels.
pub struct SctpTransport {
    pub state: SctpState,
    pub local_port: u16,
    pub remote_port: u16,
    pub verification_tag: u32,
    pub remote_verification_tag: u32,
    pub channels: Vec<DataChannel>,
}

/// The tag that this end asks its peer to use.
pub const LOCAL_TAG: u32 = 12345;

/// The window that this end offers.
pub const RECEIVER_WINDOW: u32 = 1048576;

/// The answer to an INIT chunk: the fixed parameters, then a state cookie.
pub open spec fn init_ack_value() -> Seq<u8> {
    wire::enc32(LOCAL_TAG) + wire::enc32(RECEIVER_WINDOW) + wire::enc16(10) + wire::enc16(10)
        + wire::enc32(0) + wire::enc16(7) + wire::enc16(16) + "dummy_cookie".spec_bytes()
}

/// The answer to a DATA chunk: an acknowledgement of its sequence number.
pub open spec fn sack_value(data: Seq<u8>) -> Seq<u8> {
    wire::enc32(wire::be32(data, 0)) + wire::enc32(RECEIVER_WINDOW) + wire::enc16(0) + wire::enc16(
        0,
    )
}

/// The chunk that answers `c`, if one does.
pub open spec fn answer_chunk(c: ChunkView) -> Option<ChunkView> {
    if c.chunk_type == CT_INIT && c.value.len() >= 16 {
        Some(ChunkView { chunk_type: CT_INIT_ACK, flags: 0, value: init_ack_value() })
    } else if c.chunk_type == CT_COOKIE_ECHO {
        Some(ChunkView { chunk_type: CT_COOKIE_ACK, flags: 0, value: seq![] })
    } else if c.chunk_type == CT_HEARTBEAT {
        Some(ChunkView { chunk_type: CT_HEARTBEAT_ACK, flags: 0, value: c.value })
    } else if c.chunk_type == CT_DATA && c.value.len() >= 12 {
        Some(ChunkView { chunk_type: CT_SACK, flags: 0, value: sack_value(c.value) })
    } else {
        None
    }
}

/// The association after it took the chunk `c`: an INIT chunk names the tag of the peer.
pub open spec fn answered(t: SctpTransport, c: ChunkView) -> SctpTransport {
    if c.chunk_type == CT_INIT && c.value.len() >= 16 {
        SctpTransport {
            verification_tag: LOCAL_TAG,
            remote_verification_tag: wire::be32(c.value, 0),
            ..t
        }
    } else {
        t
    }
}

/// The message that the chunk `c` carries, with the place of the channel that gets it.
pub open spec fn delivered(channels: Seq<DataChannel>, c: ChunkView) -> Option<(int, Seq<u8>)> {
    if c.chunk_type == CT_DATA && c.value.len() >= 12 {
        match channel_of(channels, wire::be16(c.value, 4), 0) {
            Some(i) => Some((i, c.value.skip(12))),
            None => None,
        }
    } else {
        None
    }
}

/// The value of the chunk that carries a message.
pub open spec fn data_value(data: Seq<u8>) -> Seq<u8> {
    wire::enc32(0) + wire::enc16(0) + wire::enc16(0) + wire::enc32(51) + data
}

/// The channel that takes the messages of a stream: the first with its number.
pub open spec fn channel_of(channels: Seq<DataChannel>, stream: u16, from: int) -> Option<int>
    decreases channels.len() - from,
{
    if 0 <= from < channels.len() {
        if channels[from].id == stream {
            Some(from)
        } else {
            channel_of(channels, stream, from + 1)
        }
    } else {
        None
    }
}

/// What happened on the channels of an association.
#[derive(Debug, Clone)]
pub enum SctpEvent {
    /// All channels are open now.
    Opened,
    /// The channel at this place got a message.
    Message(usize, Vec<u8>),
}

/// What a message event says.
pub open spec fn is_message(e: Option<SctpEvent>, index: int, data: Seq<u8>) -> bool {
    e matches Some(SctpEvent::Message(i, d)) && i == index && d@ == data
}

impl SctpTransport {
    /// An association that waits for its peer.
    pub fn new() -> (r: Self)
        ensures
            r.state == SctpState::New,
            r.local_port == 5000,
            r.remote_port == 5000,
            r.verification_tag == 0,
            r.remote_verification_tag == 0,
            r.channels@.len() == 0,
    {
        SctpTransport {
            state: SctpState::New,
            local_port: 5000,
            remote_port: 5000,
            verification_tag: 0,
            remote_verification_tag: 0,
            channels: Vec::new(),
        }
    }

    /// The association starts to take packets.
    pub fn start(&mut self)
        ensures
            *final(self) == (SctpTransport { state: SctpState::Connecting, ..*old(self) }),
    {
        self.state = SctpState::Connecting;
    }

    /// The association ends.
    pub fn close(&mut self)
        ensures
            *final(self) == (SctpTransport { state: SctpState::Closed, ..*old(self) }),
    {
        self.state = SctpState::Closed;
    }

    /// Adds a channel that is not open yet. Gives its place.
    pub fn create_data_channel(&mut self, label: &str, id: u16) -> (index: usize)
        ensures
            index == old(self).channels@.len(),
            final(self).channels@.len() == old(self).channels@.len() + 1,
            final(self).channels@.drop_last() == old(self).channels@,
            final(self).channels@.last().id == id,
            final(self).channels@.last().label@ == label@,
            final(self).channels@.last().state == DataChannelState::Connecting,
            final(self).state == old(self).state,
            final(self).local_port == old(self).local_port,
            final(self).remote_port == old(self).remote_port,
            final(self).verification_tag == old(self).verification_tag,
            final(self).remote_verification_tag == old(self).remote_verification_tag,
    {
        let index: usize = self.channels.len();
        let channel = DataChannel::new(id, String::from_str(label));
        self.channels.push(channel);
        assert(self.channels@.drop_last() =~= old(self).channels@);
        index
    }

    /// The packet with one chunk for the peer.
    pub fn send_chunk(&self, chunk_type: u8, flags: u8, value: &[u8], tag: u32) -> (r: Vec<u8>)
        ensures
            r@ == packet_bytes(
                self.local_port,
                self.remote_port,
                tag,
                ChunkView { chunk_type, flags, value: value@ },
            ),
    {
        build_packet(self.local_port, self.remote_port, tag, chunk_type, flags, value)
    }

    fn answer_init(&mut self, value: &[u8]) -> (r: Option<Vec<u8>>)
        ensures
            value@.len() < 16 ==> r is None && *final(self) == *old(self),
            value@.len() >= 16 ==> r is Some && *final(self) == (SctpTransport {
                verification_tag: LOCAL_TAG,
                remote_verification_tag: wire::be32(value@, 0),
                ..*old(self)
            }) && r->0@ == packet_bytes(
                old(self).local_port,
                old(self).remote_port,
                wire::be32(value@, 0),
                ChunkView { chunk_type: CT_INIT_ACK, flags: 0, value: init_ack_value() },
            ),
    {
        if value.len() < 16 {
            return None;
        }
        let initiate_tag: u32 = wire::get_u32(value, 0);
        self.remote_verification_tag = initiate_tag;
        self.verification_tag = LOCAL_TAG;
        let cookie = "dummy_cookie".as_bytes();
        let mut params: Vec<u8> = Vec::new();
        wire::put_u32(&mut params, LOCAL_TAG);
        wire::put_u32(&mut params, RECEIVER_WINDOW);
        wire::put_u16(&mut params, 10);
        wire::put_u16(&mut params, 10);
        wire::put_u32(&mut params, 0);
        wire::put_u16(&mut params, 7);
        wire::put_u16(&mut params, 16);
        wire::put_bytes(&mut params, cookie);
        assert(params@ =~= init_ack_value());
        Some(self.send_chunk(CT_INIT_ACK, 0, params.as_slice(), initiate_tag))
    }

    /// Takes a chunk of the peer. Gives the packet that answers it, to be sent before
    /// `complete_chunk` is called.
    pub fn answer(&mut self, chunk: &SctpChunk) -> (r: Option<Vec<u8>>)
        ensures
            match answer_chunk(chunk@) {
                Some(c) => r is Some && r->0@ == packet_bytes(
                    old(self).local_port,
                    old(self).remote_port,
                    final(self).remote_verification_tag,
                    c,
                ),
                None => r is None,
            },
            *final(self) == if chunk.chunk_type == CT_INIT && chunk.value@.len() >= 16 {
                SctpTransport {
                    verification_tag: LOCAL_TAG,
                    remote_verification_tag: wire::be32(chunk.value@, 0),
                    ..*old(self)
                }
            } else {
                *old(self)
            },
            *final(self) == answered(*old(self), chunk@),
    {
        let value = chunk.value.as_slice();
        let tag: u32 = self.remote_verification_tag;
        if chunk.chunk_type == CT_INIT {
            self.answer_init(value)
        } else if chunk.chunk_type == CT_COOKIE_ECHO {
            let none: Vec<u8> = Vec::new();
            assert(none@ =~= seq![]);
            Some(self.send_chunk(CT_COOKIE_ACK, 0, none.as_slice(), tag))
        } else if chunk.chunk_type == CT_HEARTBEAT {
            Some(self.send_chunk(CT_HEARTBEAT_ACK, 0, value, tag))
        } else if chunk.chunk_type == CT_DATA {
            if value.len() < 12 {
                return None;
            }
            let mut sack: Vec<u8> = Vec::new();
            wire::put_u32(&mut sack, wire::get_u32(value, 0));
            wire::put_u32(&mut sack, RECEIVER_WINDOW);
            wire::put_u16(&mut sack, 0);
            wire::put_u16(&mut sack, 0);
            assert(sack@ =~= sack_value(chunk.value@));
            Some(self.send_chunk(CT_SACK, 0, sack.as_slice(), tag))
        } else {
            None
        }
    }

    /// Completes a chunk whose answer was sent. A cookie echo establishes the association and
    /// opens its channels; data goes to the first channel with the number of its stream.
    pub fn complete_chunk(&mut self, chunk: &SctpChunk) -> (r: Option<SctpEvent>)
        ensures
            final(self).local_port == old(self).local_port,
            final(self).remote_port == old(self).remote_port,
            final(self).verification_tag == old(self).verification_tag,
            final(self).remote_verification_tag == old(self).remote_verification_tag,
            chunk.chunk_type == CT_COOKIE_ECHO ==> {
                &&& r matches Some(SctpEvent::Opened)
                &&& final(self).state == SctpState::Connected
                &&& final(self).channels@.len() == old(self).channels@.len()
                &&& forall|i: int|
                    0 <= i < old(self).channels@.len() ==> #[trigger] final(self).channels@[i] == (
                    DataChannel { state: DataChannelState::Open, ..old(self).channels@[i] })
            },
            chunk.chunk_type != CT_COOKIE_ECHO ==> *final(self) == *old(self),
            chunk.chunk_type == CT_DATA && chunk.value@.len() >= 12 ==> match channel_of(
                old(self).channels@,
                wire::be16(chunk.value@, 4),
                0,
            ) {
                Some(i) => is_message(r, i, chunk.value@.skip(12)),
                None => r is None,
            },
            chunk.chunk_type == CT_DATA && chunk.value@.len() < 12 ==> r is None,
            chunk.chunk_type != CT_COOKIE_ECHO ==> match delivered(old(self).channels@, chunk@) {
                Some(m) => is_message(r, m.0, m.1),
                None => r is None,
            },
            chunk.chunk_type != CT_DATA && chunk.chunk_type != CT_COOKIE_ECHO ==> r is None,
    {
        if chunk.chunk_type == CT_COOKIE_ECHO {
            self.state = SctpState::Connected;
            let n: usize = self.channels.len();
            let mut i: usize = 0;
            while i < n
                invariant
                    n == old(self).channels@.len(),
                    n == self.channels@.len(),
                    i <= n,
                    self.state == SctpState::Connected,
                    self.local_port == old(self).local_port,
                    self.remote_port == old(self).remote_port,
                    self.verification_tag == old(self).verification_tag,
                    self.remote_verification_tag == old(self).remote_verification_tag,
                    forall|k: int|
                        0 <= k < i ==> #[trigger] self.channels@[k] == (DataChannel {
                            state: DataChannelState::Open,
                            ..old(self).channels@[k]
                        }),
                    forall|k: int|
                        i <= k < n ==> #[trigger] self.channels@[k] == old(self).channels@[k],
                decreases n - i,
            {
                self.channels[i].state = DataChannelState::Open;
                i += 1;
            }
            Some(SctpEvent::Opened)
        } else if chunk.chunk_type == CT_DATA && chunk.value.len() >= 12 {
            let stream: u16 = wire::get_u16(chunk.value.as_slice(), 4);
            match self.find_channel(stream) {
                Some(i) => {
                    let data = wire::copy_range(chunk.value.as_slice(), 12, chunk.value.len());
                    assert(data@ =~= chunk.value@.skip(12));
                    Some(SctpEvent::Message(i, data))
                },
                None => None,
            }
        } else {
            None
        }
    }

    /// The channel that takes the messages of a stream.
    pub fn find_channel(&self, stream: u16) -> (r: Option<usize>)
        ensures
            match r {
                Some(i) => channel_of(self.channels@, stream, 0) == Some(i as int),
                None => channel_of(self.channels@, stream, 0) is None,
            },
    {
        let n: usize = self.channels.len();
        let mut i: usize = 0;
        while i < n
            invariant
                n == self.channels@.len(),
                i <= n,
                channel_of(self.channels@, stream, 0) == channel_of(
                    self.channels@,
                    stream,
                    i as int,
                ),
            decreases n - i,
        {
            if self.channels[i].id == stream {
                return Some(i);
            }
            i += 1;
        }
        None
    }

    /// The packet that carries a message. All messages go to stream 0.
    pub fn send_data(&self, _channel_id: u16, data: &[u8]) -> (r: Vec<u8>)
        ensures
            r@ == packet_bytes(
                self.local_port,
                self.remote_port,
                self.remote_verification_tag,
                ChunkView { chunk_type: CT_DATA, flags: 3, value: data_value(data@) },
            ),
    {
        let mut payload: Vec<u8> = Vec::new();
        wire::put_u32(&mut payload, 0);
        wire::put_u16(&mut payload, 0);
        wire::put_u16(&mut payload, 0);
        wire::put_u32(&mut payload, 51);
        wire::put_bytes(&mut payload, data);
        assert(payload@ =~= data_value(data@));
        self.send_chunk(CT_DATA, 3, payload.as_slice(), self.remote_verification_tag)
    }
}

/// A packet that carries a message has one chunk, of data for stream 0 with the message in it.
pub proof fn law_data_is_received(local_port: u16, remote_port: u16, tag: u32, data: Seq<u8>)
    requires
        data.len() <= 65519,
    ensures
        ({
            let c = ChunkView { chunk_type: CT_DATA, flags: 3, value: data_value(data) };
            &&& packet_chunks(packet_bytes(local_port, remote_port, tag, c)) == seq![c]
            &&& wire::be16(c.value, 4) == 0
            &&& c.value.skip(12) == data
        }),
{
    let v = data_value(data);
    let c = ChunkView { chunk_type: CT_DATA, flags: 3, value: v };
    law_chunks_of_packet(local_port, remote_port, tag, c);
    assert(v.subrange(4, 6) =~= wire::enc16(0));
    wire::lemma_be16_enc16(v, 4, 0);
    assert(v.skip(12) =~= data);
}

} // verus!
