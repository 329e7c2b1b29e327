//! The RTP packet and its wire format.
use crate::errors::{RtpError, RtpResult};
use crate::wire;
use vstd::prelude::*;

verus! {

/// The protocol version that every RTP and RTCP packet carries.
pub const RTP_VERSION: u8 = 2;

/// The profile-specific header extension of an RTP packet.
#[derive(Debug, Clone, PartialEq, Eq)]
pub struct RtpHeaderExtension {
    pub profile: u16,
    pub data: Vec<u8>,
}

/// What an [`RtpHeaderExtension`] holds.
pub struct ExtensionView {
    pub profile: u16,
    pub data: Seq<u8>,
}

impl View for RtpHeaderExtension {
    type V = ExtensionView;

    open spec fn view(&self) -> ExtensionView {
        ExtensionView { profile: self.profile, data: self.data@ }
    }
}

impl RtpHeaderExtension {
    /// An extension with the given profile and data.
    pub fn new(profile: u16, data: Vec<u8>) -> (r: Self)
        ensures
            r.profile == profile,
            r.data == data,
    {
        Self { profile, data }
    }
}

/// The header of an RTP packet.
#[derive(Debug, Clone, PartialEq, Eq)]
pub struct RtpHeader {
    pub marker: bool,
    pub payload_type: u8,
    pub sequence_number: u16,
    pub timestamp: u32,
    pub ssrc: u32,
    pub csrcs: Vec<u32>,
    pub extension: Option<RtpHeaderExtension>,
}

/// What an [`RtpHeader`] holds.
pub struct HeaderView {
    pub marker: bool,
    pub payload_type: u8,
    pub sequence_number: u16,
    pub timestamp: u32,
    pub ssrc: u32,
    pub csrcs: Seq<u32>,
    pub extension: Option<ExtensionView>,
}

/// What an optional extension holds.
pub open spec fn extension_view(e: Option<RtpHeaderExtension>) -> Option<ExtensionView> {
    match e {
        Some(x) => Some(x@),
        None => None,
    }
}

impl View for RtpHeader {
    type V = HeaderView;

    open spec fn view(&self) -> HeaderView {
        HeaderView {
            marker: self.marker,
            payload_type: self.payload_type,
            sequence_number: self.sequence_number,
            timestamp: self.timestamp,
            ssrc: self.ssrc,
            csrcs: self.csrcs@,
            extension: extension_view(self.extension),
        }
    }
}

/// A header that fits the wire format: at most fifteen contributing sources, and an extension
/// of whole 32-bit words.
pub open spec fn header_error(h: HeaderView) -> Option<RtpError> {
    if h.csrcs.len() > 15 {
        Some(RtpError::InvalidHeader("too many CSRC entries"))
    } else if h.extension is Some && h.extension->0.data.len() % 4 != 0 {
        Some(RtpError::InvalidHeader("header extension payload must be 32-bit aligned"))
    } else {
        None
    }
}

/// The value of the one-byte-header extension element (RFC 8285) with identifier `id`, in the
/// extension data from `at` on: zero bytes are padding, and identifier 15 ends the list.
pub open spec fn one_byte_element(data: Seq<u8>, at: int, id: u8) -> Option<Seq<u8>>
    decreases data.len() - at,
{
    if at < 0 || at >= data.len() {
        None
    } else if data[at] == 0 {
        one_byte_element(data, at + 1, id)
    } else if data[at] / 16 == 15 {
        None
    } else {
        let len = data[at] % 16 + 1;
        if at + 1 + len > data.len() {
            None
        } else if data[at] / 16 == id {
            Some(data.subrange(at + 1, at + 1 + len))
        } else {
            one_byte_element(data, at + 1 + len, id)
        }
    }
}

impl RtpHeader {
    /// A header without marker, contributing sources and extension.
    pub fn new(payload_type: u8, sequence_number: u16, timestamp: u32, ssrc: u32) -> (r: Self)
        ensures
            r@ == (HeaderView {
                marker: false,
                payload_type,
                sequence_number,
                timestamp,
                ssrc,
                csrcs: seq![],
                extension: None,
            }),
    {
        Self {
            marker: false,
            payload_type,
            sequence_number,
            timestamp,
            ssrc,
            csrcs: Vec::new(),
            extension: None,
        }
    }

    /// Whether the header fits the wire format.
    pub fn validate(&self) -> (r: RtpResult<()>)
        ensures
            r == (match header_error(self@) {
                Some(e) => Err::<(), RtpError>(e),
                None => Ok::<(), RtpError>(()),
            }),
    {
        if self.csrcs.len() > 15 {
            return Err(RtpError::InvalidHeader("too many CSRC entries"));
        }
        if let Some(ext) = &self.extension {
            if ext.data.len() % 4 != 0 {
                return Err(
                    RtpError::InvalidHeader("header extension payload must be 32-bit aligned"),
                );
            }
        }
        Ok(())
    }

    /// The value of the header extension element with identifier `id`, when the packet carries
    /// one-byte-header extensions.
    pub fn get_extension(&self, id: u8) -> (r: Option<Vec<u8>>)
        ensures
            match r {
                Some(v) => element(self@, id) == Some(v@),
                None => element(self@, id) is None,
            },
    {
        match &self.extension {
            None => None,
            Some(ext) => {
                if ext.profile != 0xBEDE {
                    return None;
                }
                let n: usize = ext.data.len();
                let mut at: usize = 0;
                while at < n
                    invariant
                        n == ext.data@.len(),
                        at <= n,
                        self.extension == Some(*ext),
                        ext.profile == 0xBEDE,
                        one_byte_element(ext.data@, 0, id) == one_byte_element(
                            ext.data@,
                            at as int,
                            id,
                        ),
                    decreases n - at,
                {
                    let b: u8 = ext.data[at];
                    if b == 0 {
                        at += 1;
                    } else if b / 16 == 15 {
                        return None;
                    } else {
                        let len: usize = (b % 16) as usize + 1;
                        if len > n - at - 1 {
                            return None;
                        }
                        if b / 16 == id {
                            return Some(wire::copy_range(ext.data.as_slice(), at + 1, at + 1 + len));
                        }
                        at = at + 1 + len;
                    }
                }
                None
            },
        }
    }
}

/// An RTP packet. `padding_len` octets of padding follow the payload on the wire.
#[derive(Debug, Clone, PartialEq, Eq)]
pub struct RtpPacket {
    pub header: RtpHeader,
    pub payload: Vec<u8>,
    pub padding_len: u8,
}

/// What an [`RtpPacket`] holds.
pub struct PacketView {
    pub header: HeaderView,
    pub payload: Seq<u8>,
    pub padding_len: u8,
}

impl View for RtpPacket {
    type V = PacketView;

    open spec fn view(&self) -> PacketView {
        PacketView {
            header: self.header@,
            payload: self.payload@,
            padding_len: self.padding_len,
        }
    }
}

/// Whether the padding bit is set.
pub open spec fn padding_bit(raw: Seq<u8>) -> bool {
    (raw[0] / 32) % 2 == 1
}

/// Whether the extension bit is set.
pub open spec fn extension_bit(raw: Seq<u8>) -> bool {
    (raw[0] / 16) % 2 == 1
}

/// The number of contributing sources.
pub open spec fn csrc_count(raw: Seq<u8>) -> nat {
    (raw[0] % 16) as nat
}

/// Where the contributing sources end.
pub open spec fn csrcs_end(raw: Seq<u8>) -> int {
    12 + 4 * csrc_count(raw) as int
}

/// The length of the extension data.
pub open spec fn extension_len(raw: Seq<u8>) -> int {
    4 * wire::be16(raw, csrcs_end(raw) + 2)
}

/// Where the payload starts.
pub open spec fn payload_start(raw: Seq<u8>) -> int {
    if extension_bit(raw) {
        csrcs_end(raw) + 4 + extension_len(raw)
    } else {
        csrcs_end(raw)
    }
}

/// Whether the packet ends before its payload starts.
pub open spec fn header_cut(raw: Seq<u8>) -> bool {
    ||| raw.len() < csrcs_end(raw)
    ||| extension_bit(raw) && raw.len() < csrcs_end(raw) + 4
    ||| raw.len() < payload_start(raw)
}

/// The number of padding octets that the last octet announces.
pub open spec fn announced_padding(raw: Seq<u8>) -> u8 {
    if padding_bit(raw) {
        raw[raw.len() - 1]
    } else {
        0
    }
}

/// The packet that the bytes `raw` stand for, or why they stand for none.
pub open spec fn rtp_parsed(raw: Seq<u8>) -> Result<PacketView, RtpError> {
    if raw.len() < 12 {
        Err(RtpError::PacketTooShort)
    } else if raw[0] / 64 != RTP_VERSION {
        Err(RtpError::UnsupportedVersion(raw[0] / 64))
    } else if header_cut(raw) {
        Err(RtpError::PacketTooShort)
    } else if announced_padding(raw) > raw.len() - payload_start(raw) {
        Err(RtpError::InvalidHeader("padding larger than payload"))
    } else {
        Ok(
            PacketView {
                header: HeaderView {
                    marker: raw[1] / 128 == 1,
                    payload_type: raw[1] % 128,
                    sequence_number: wire::be16(raw, 2),
                    timestamp: wire::be32(raw, 4),
                    ssrc: wire::be32(raw, 8),
                    csrcs: wire::be32s(raw, 12, csrc_count(raw)),
                    extension: if extension_bit(raw) {
                        Some(
                            ExtensionView {
                                profile: wire::be16(raw, csrcs_end(raw)),
                                data: raw.subrange(csrcs_end(raw) + 4, payload_start(raw)),
                            },
                        )
                    } else {
                        None
                    },
                },
                payload: raw.subrange(
                    payload_start(raw),
                    raw.len() - announced_padding(raw),
                ),
                padding_len: announced_padding(raw),
            },
        )
    }
}

/// The first octet: version, padding bit, extension bit and number of contributing sources.
pub open spec fn first_octet(p: PacketView) -> u8 {
    (128 + (if p.padding_len > 0 { 32int } else { 0 }) + (if p.header.extension is Some {
        16int
    } else {
        0
    }) + p.header.csrcs.len()) as u8
}

/// The second octet: marker and payload type.
pub open spec fn second_octet(p: PacketView) -> u8 {
    ((if p.header.marker { 128int } else { 0 }) + p.header.payload_type % 128) as u8
}

/// The header extension on the wire: profile, length in 32-bit words, data.
pub open spec fn extension_bytes(e: Option<ExtensionView>) -> Seq<u8> {
    match e {
        Some(x) => wire::enc16(x.profile) + wire::enc16((x.data.len() / 4 % 0x1_0000) as u16) + x.data,
        None => seq![],
    }
}

/// The bytes of the header.
pub open spec fn header_bytes(p: PacketView) -> Seq<u8> {
    seq![first_octet(p), second_octet(p)] + wire::enc16(p.header.sequence_number) + wire::enc32(
        p.header.timestamp,
    ) + wire::enc32(p.header.ssrc) + wire::enc32s(p.header.csrcs) + extension_bytes(p.header.extension)
}

/// The bytes of a packet.
pub open spec fn rtp_bytes(p: PacketView) -> Seq<u8> {
    header_bytes(p) + p.payload + wire::repeated(p.padding_len, p.padding_len as nat)
}

/// The bytes of a packet, or why it has none.
pub open spec fn rtp_marshaled(p: PacketView) -> Result<Seq<u8>, RtpError> {
    match header_error(p.header) {
        Some(e) => Err(e),
        None => Ok(rtp_bytes(p)),
    }
}

/// What the extension element `id` of a header holds.
pub open spec fn element(h: HeaderView, id: u8) -> Option<Seq<u8>> {
    match h.extension {
        Some(e) => if e.profile == 0xBEDE {
            one_byte_element(e.data, 0, id)
        } else {
            None
        },
        None => None,
    }
}

impl RtpHeader {
    /// A copy of the header.
    pub fn copy(&self) -> (r: Self)
        ensures
            r@ == self@,
    {
        let n: usize = self.csrcs.len();
        let mut csrcs: Vec<u32> = Vec::new();
        let mut i: usize = 0;
        while i < n
            invariant
                n == self.csrcs@.len(),
                i <= n,
                csrcs@ == self.csrcs@.subrange(0, i as int),
            decreases n - i,
        {
            csrcs.push(self.csrcs[i]);
            i += 1;
            assert(csrcs@ =~= self.csrcs@.subrange(0, i as int));
        }
        assert(csrcs@ =~= self.csrcs@);
        let extension = match &self.extension {
            Some(e) => {
                let data = wire::copy_range(e.data.as_slice(), 0, e.data.len());
                assert(data@ =~= e.data@);
                Some(RtpHeaderExtension { profile: e.profile, data })
            },
            None => None,
        };
        RtpHeader {
            marker: self.marker,
            payload_type: self.payload_type,
            sequence_number: self.sequence_number,
            timestamp: self.timestamp,
            ssrc: self.ssrc,
            csrcs,
            extension,
        }
    }
}

impl RtpPacket {
    /// A copy of the packet.
    pub fn copy(&self) -> (r: Self)
        ensures
            r@ == self@,
    {
        let payload = wire::copy_range(self.payload.as_slice(), 0, self.payload.len());
        assert(payload@ =~= self.payload@);
        RtpPacket { header: self.header.copy(), payload, padding_len: self.padding_len }
    }

    /// A packet without padding.
    pub fn new(header: RtpHeader, payload: Vec<u8>) -> (r: Self)
        ensures
            r.header == header,
            r.payload == payload,
            r.padding_len == 0,
    {
        Self { header, payload, padding_len: 0 }
    }

    /// Reads a packet from the wire.
    pub fn parse(raw: &[u8]) -> (r: RtpResult<Self>)
        ensures
            match r {
                Ok(p) => rtp_parsed(raw@) == Ok::<PacketView, RtpError>(p@),
                Err(e) => rtp_parsed(raw@) == Err::<PacketView, RtpError>(e),
            },
    {
        let n: usize = raw.len();
        if n < 12 {
            return Err(RtpError::PacketTooShort);
        }
        let b0: u8 = raw[0];
        let b1: u8 = raw[1];
        let version: u8 = b0 / 64;
        if version != RTP_VERSION {
            return Err(RtpError::UnsupportedVersion(version));
        }
        let padding: bool = (b0 / 32) % 2 == 1;
        let extension: bool = (b0 / 16) % 2 == 1;
        let count: usize = (b0 % 16) as usize;
        let marker: bool = b1 / 128 == 1;
        let payload_type: u8 = b1 % 128;
        let mut offset: usize = 12 + count * 4;
        if n < offset {
            return Err(RtpError::PacketTooShort);
        }
        let sequence_number: u16 = wire::get_u16(raw, 2);
        let timestamp: u32 = wire::get_u32(raw, 4);
        let ssrc: u32 = wire::get_u32(raw, 8);
        let csrcs: Vec<u32> = wire::get_u32s(raw, 12, count);
        let mut extension_header: Option<RtpHeaderExtension> = None;
        if extension {
            if n - offset < 4 {
                return Err(RtpError::PacketTooShort);
            }
            let profile: u16 = wire::get_u16(raw, offset);
            let length: usize = (wire::get_u16(raw, offset + 2) as usize) * 4;
            offset = offset + 4;
            if n - offset < length {
                return Err(RtpError::PacketTooShort);
            }
            extension_header =
            Some(RtpHeaderExtension::new(profile, wire::copy_range(raw, offset, offset + length)));
            offset = offset + length;
        }
        let mut payload_end: usize = n;
        let mut padding_len: u8 = 0;
        if padding {
            padding_len = raw[n - 1];
            if padding_len as usize > n - offset {
                return Err(RtpError::InvalidHeader("padding larger than payload"));
            }
            payload_end = n - padding_len as usize;
        }
        let payload: Vec<u8> = wire::copy_range(raw, offset, payload_end);
        let header = RtpHeader {
            marker,
            payload_type,
            sequence_number,
            timestamp,
            ssrc,
            csrcs,
            extension: extension_header,
        };
        Ok(Self { header, payload, padding_len })
    }

    /// Writes the packet to the wire.
    pub fn marshal(&self) -> (r: RtpResult<Vec<u8>>)
        ensures
            match r {
                Ok(out) => rtp_marshaled(self@) == Ok::<Seq<u8>, RtpError>(out@),
                Err(e) => rtp_marshaled(self@) == Err::<Seq<u8>, RtpError>(e),
            },
    {
        self.header.validate()?;
        let mut out: Vec<u8> = Vec::new();
        let mut b0: u8 = 128;
        if self.padding_len > 0 {
            b0 = b0 + 32;
        }
        if self.header.extension.is_some() {
            b0 = b0 + 16;
        }
        b0 = b0 + self.header.csrcs.len() as u8;
        let mut b1: u8 = self.header.payload_type % 128;
        if self.header.marker {
            b1 = b1 + 128;
        }
        out.push(b0);
        out.push(b1);
        wire::put_u16(&mut out, self.header.sequence_number);
        wire::put_u32(&mut out, self.header.timestamp);
        wire::put_u32(&mut out, self.header.ssrc);
        wire::put_u32s(&mut out, self.header.csrcs.as_slice());
        if let Some(extension) = &self.header.extension {
            let words: usize = (extension.data.len() / 4) % 0x1_0000;
            wire::put_u16(&mut out, extension.profile);
            wire::put_u16(&mut out, words as u16);
            wire::put_bytes(&mut out, extension.data.as_slice());
        }
        assert(out@ =~= header_bytes(self@));
        wire::put_bytes(&mut out, self.payload.as_slice());
        wire::put_repeated(&mut out, self.padding_len, self.padding_len as usize);
        assert(out@ =~= rtp_bytes(self@));
        Ok(out)
    }
}

/// A packet of which the wire format keeps everything: the header is valid, the payload type
/// takes seven bits, and the extension is not longer than its length field can say.
pub open spec fn rtp_representable(p: PacketView) -> bool {
    &&& header_error(p.header) is None
    &&& p.header.payload_type < 128
    &&& p.header.extension is Some ==> p.header.extension->0.data.len() / 4 < 0x1_0000
}

proof fn lemma_header_layout(p: PacketView, tail: Seq<u8>)
    requires
        rtp_representable(p),
    ensures
        ({
            let h = header_bytes(p);
            let s = h + tail;
            let c = 12 + 4 * p.header.csrcs.len() as int;
            &&& h.len() == c + extension_bytes(p.header.extension).len()
            &&& s[0] == first_octet(p)
            &&& s[1] == second_octet(p)
            &&& s.subrange(2, 4) == wire::enc16(p.header.sequence_number)
            &&& s.subrange(4, 8) == wire::enc32(p.header.timestamp)
            &&& s.subrange(8, 12) == wire::enc32(p.header.ssrc)
            &&& s.subrange(12, c) == wire::enc32s(p.header.csrcs)
            &&& s.subrange(c, h.len() as int) == extension_bytes(p.header.extension)
            &&& s.subrange(h.len() as int, s.len() as int) == tail
        }),
{
    let h = header_bytes(p);
    let s = h + tail;
    wire::lemma_enc32s_len(p.header.csrcs);
    let c = 12 + 4 * p.header.csrcs.len() as int;
    assert(s.subrange(2, 4) =~= wire::enc16(p.header.sequence_number));
    assert(s.subrange(4, 8) =~= wire::enc32(p.header.timestamp));
    assert(s.subrange(8, 12) =~= wire::enc32(p.header.ssrc));
    assert(s.subrange(12, c) =~= wire::enc32s(p.header.csrcs));
    assert(s.subrange(c, h.len() as int) =~= extension_bytes(p.header.extension));
    assert(s.subrange(h.len() as int, s.len() as int) =~= tail);
}

proof fn lemma_octets(p: PacketView)
    requires
        rtp_representable(p),
    ensures
        first_octet(p) / 64 == 2,
        (first_octet(p) / 32) % 2 == 1 <==> p.padding_len > 0,
        (first_octet(p) / 16) % 2 == 1 <==> p.header.extension is Some,
        first_octet(p) % 16 == p.header.csrcs.len(),
        second_octet(p) / 128 == 1 <==> p.header.marker,
        second_octet(p) % 128 == p.header.payload_type,
{
}

proof fn lemma_extension_read(s: Seq<u8>, c: int, x: ExtensionView)
    requires
        0 <= c,
        x.data.len() / 4 < 0x1_0000,
        x.data.len() % 4 == 0,
        c + 4 + x.data.len() <= s.len(),
        s.subrange(c, c + 4 + x.data.len()) == extension_bytes(Some(x)),
    ensures
        wire::be16(s, c) == x.profile,
        4 * wire::be16(s, c + 2) == x.data.len(),
        s.subrange(c + 4, c + 4 + x.data.len()) == x.data,
{
    let e = s.subrange(c, c + 4 + x.data.len());
    let words = (x.data.len() / 4 % 0x1_0000) as u16;
    assert(s.subrange(c, c + 2) =~= e.subrange(0, 2));
    assert(e.subrange(0, 2) =~= wire::enc16(x.profile));
    wire::lemma_be16_enc16(s, c, x.profile);
    assert(s.subrange(c + 2, c + 4) =~= e.subrange(2, 4));
    assert(e.subrange(2, 4) =~= wire::enc16(words));
    wire::lemma_be16_enc16(s, c + 2, words);
    assert(s.subrange(c + 4, c + 4 + x.data.len()) =~= e.subrange(4, e.len() as int));
    assert(e.subrange(4, e.len() as int) =~= x.data);
}

proof fn lemma_parsed_from_layout(p: PacketView, s: Seq<u8>, h: int)
    requires
        rtp_representable(p),
        h == 12 + 4 * p.header.csrcs.len() + extension_bytes(p.header.extension).len(),
        s.len() == h + p.payload.len() + p.padding_len,
        s[0] == first_octet(p),
        s[1] == second_octet(p),
        s.subrange(2, 4) == wire::enc16(p.header.sequence_number),
        s.subrange(4, 8) == wire::enc32(p.header.timestamp),
        s.subrange(8, 12) == wire::enc32(p.header.ssrc),
        s.subrange(12, 12 + 4 * p.header.csrcs.len() as int) == wire::enc32s(p.header.csrcs),
        s.subrange(12 + 4 * p.header.csrcs.len() as int, h) == extension_bytes(p.header.extension),
        s.subrange(h, s.len() - p.padding_len) == p.payload,
        p.padding_len > 0 ==> s[s.len() - 1] == p.padding_len,
    ensures
        rtp_parsed(s) == Ok::<PacketView, RtpError>(p),
{
    let c = 12 + 4 * p.header.csrcs.len() as int;
    lemma_octets(p);
    wire::lemma_be16_enc16(s, 2, p.header.sequence_number);
    wire::lemma_be32_enc32(s, 4, p.header.timestamp);
    wire::lemma_be32_enc32(s, 8, p.header.ssrc);
    wire::lemma_be32s_enc32s(s, 12, p.header.csrcs);
    assert(csrcs_end(s) == c);
    if p.header.extension is Some {
        let x = p.header.extension->0;
        assert(h == c + 4 + x.data.len());
        lemma_extension_read(s, c, x);
        assert(payload_start(s) == h);
    } else {
        assert(payload_start(s) == h);
    }
    assert(announced_padding(s) == p.padding_len);
    let q = rtp_parsed(s)->Ok_0;
    assert(q.header.extension == p.header.extension);
    assert(q.header.csrcs == p.header.csrcs);
    assert(q.header == p.header);
    assert(q.payload == p.payload);
}

/// Parsing what `marshal` wrote gives back the packet, for every packet that the wire format
/// can represent.
pub proof fn law_parse_of_marshal(p: PacketView)
    requires
        rtp_representable(p),
    ensures
        rtp_marshaled(p) is Ok,
        rtp_parsed(rtp_marshaled(p)->Ok_0) == Ok::<PacketView, RtpError>(p),
{
    let pad = wire::repeated(p.padding_len, p.padding_len as nat);
    let tail = p.payload + pad;
    let h = header_bytes(p).len() as int;
    let s = rtp_bytes(p);
    assert(s =~= header_bytes(p) + tail);
    lemma_header_layout(p, tail);
    let t = s.subrange(h, s.len() as int);
    assert(s.subrange(h, s.len() - p.padding_len) =~= t.subrange(0, p.payload.len() as int));
    assert(t.subrange(0, p.payload.len() as int) =~= p.payload);
    if p.padding_len > 0 {
        assert(s[s.len() - 1] == pad[pad.len() - 1]);
    }
    lemma_parsed_from_layout(p, s, h);
}

proof fn lemma_octets_back(raw: Seq<u8>)
    requires
        rtp_parsed(raw) is Ok,
        padding_bit(raw) ==> announced_padding(raw) > 0,
    ensures
        first_octet(rtp_parsed(raw)->Ok_0) == raw[0],
        second_octet(rtp_parsed(raw)->Ok_0) == raw[1],
        rtp_parsed(raw)->Ok_0.header.csrcs.len() == csrc_count(raw),
{
    let p = rtp_parsed(raw)->Ok_0;
    assert(p.header.csrcs.len() == csrc_count(raw));
    assert(p.header.extension is Some <==> extension_bit(raw));
    assert(p.padding_len > 0 <==> padding_bit(raw));
}

proof fn lemma_extension_back(raw: Seq<u8>)
    requires
        rtp_parsed(raw) is Ok,
    ensures
        extension_bytes(rtp_parsed(raw)->Ok_0.header.extension) == raw.subrange(
            csrcs_end(raw),
            payload_start(raw),
        ),
{
    let c = csrcs_end(raw);
    let p = rtp_parsed(raw)->Ok_0;
    if extension_bit(raw) {
        wire::lemma_enc16_be16(raw, c);
        wire::lemma_enc16_be16(raw, c + 2);
        let x = p.header.extension->0;
        assert(x.data.len() == extension_len(raw));
        assert((x.data.len() / 4 % 0x1_0000) as u16 == wire::be16(raw, c + 2));
        assert(raw.subrange(c, payload_start(raw)) =~= raw.subrange(c, c + 2) + raw.subrange(
            c + 2,
            c + 4,
        ) + raw.subrange(c + 4, payload_start(raw)));
    } else {
        assert(raw.subrange(c, payload_start(raw)) =~= seq![]);
    }
}

proof fn lemma_header_back(raw: Seq<u8>)
    requires
        rtp_parsed(raw) is Ok,
        padding_bit(raw) ==> announced_padding(raw) > 0,
    ensures
        header_bytes(rtp_parsed(raw)->Ok_0) == raw.subrange(0, payload_start(raw)),
{
    let p = rtp_parsed(raw)->Ok_0;
    let c = csrcs_end(raw);
    wire::lemma_enc16_be16(raw, 2);
    wire::lemma_enc32_be32(raw, 4);
    wire::lemma_enc32_be32(raw, 8);
    wire::lemma_enc32s_be32s(raw, 12, csrc_count(raw));
    lemma_octets_back(raw);
    lemma_extension_back(raw);
    let a = seq![raw[0], raw[1]];
    assert(a =~= raw.subrange(0, 2));
    wire::lemma_glue(raw, 0, 2, 4);
    wire::lemma_glue(raw, 0, 4, 8);
    wire::lemma_glue(raw, 0, 8, 12);
    wire::lemma_glue(raw, 0, 12, c);
    wire::lemma_glue(raw, 0, c, payload_start(raw));
}

/// Marshaling what `parse` read gives back the bytes, when the padding octets, if any, all hold
/// the padding length.
pub proof fn law_marshal_of_parse(raw: Seq<u8>)
    requires
        rtp_parsed(raw) is Ok,
        padding_bit(raw) ==> announced_padding(raw) > 0,
        raw.subrange(raw.len() - announced_padding(raw), raw.len() as int) == wire::repeated(
            announced_padding(raw),
            announced_padding(raw) as nat,
        ),
    ensures
        rtp_marshaled(rtp_parsed(raw)->Ok_0) == Ok::<Seq<u8>, RtpError>(raw),
{
    let p = rtp_parsed(raw)->Ok_0;
    lemma_octets_back(raw);
    lemma_header_back(raw);
    let d = payload_start(raw);
    let e = raw.len() - announced_padding(raw);
    wire::lemma_glue(raw, 0, d, e);
    wire::lemma_glue(raw, 0, e, raw.len() as int);
    assert(raw.subrange(0, raw.len() as int) =~= raw);
}

} // verus!
