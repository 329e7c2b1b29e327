//! The DTLS record layer.
use bytes::{Bytes, BytesMut};
use vstd::prelude::*;

use crate::buffer;
use crate::transports::dtls::error::{DtlsError, DtlsResult};
use crate::wire;

verus! {

/// What a record carries.
#[derive(Debug, Clone, Copy, PartialEq, Eq, Structural)]
pub enum ContentType {
    ChangeCipherSpec,
    Alert,
    Handshake,
    ApplicationData,
    Heartbeat,
}

impl ContentType {
    /// The number of the content type on the wire.
    pub open spec fn code(self) -> u8 {
        match self {
            ContentType::ChangeCipherSpec => 20,
            ContentType::Alert => 21,
            ContentType::Handshake => 22,
            ContentType::ApplicationData => 23,
            ContentType::Heartbeat => 24,
        }
    }

    /// The content type with this number.
    pub open spec fn of_code(value: u8) -> Result<ContentType, DtlsError> {
        if value == 20 {
            Ok(ContentType::ChangeCipherSpec)
        } else if value == 21 {
            Ok(ContentType::Alert)
        } else if value == 22 {
            Ok(ContentType::Handshake)
        } else if value == 23 {
            Ok(ContentType::ApplicationData)
        } else if value == 24 {
            Ok(ContentType::Heartbeat)
        } else {
            Err(DtlsError::InvalidContentType(value))
        }
    }

    /// The number of the content type on the wire.
    pub fn to_u8(self) -> (r: u8)
        ensures
            r == self.code(),
    {
        match self {
            ContentType::ChangeCipherSpec => 20,
            ContentType::Alert => 21,
            ContentType::Handshake => 22,
            ContentType::ApplicationData => 23,
            ContentType::Heartbeat => 24,
        }
    }

    /// The content type with this number.
    pub fn from_u8(value: u8) -> (r: DtlsResult<ContentType>)
        ensures
            r == ContentType::of_code(value),
    {
        match value {
            20 => Ok(ContentType::ChangeCipherSpec),
            21 => Ok(ContentType::Alert),
            22 => Ok(ContentType::Handshake),
            23 => Ok(ContentType::ApplicationData),
            24 => Ok(ContentType::Heartbeat),
            _ => Err(DtlsError::InvalidContentType(value)),
        }
    }
}

#[derive(Debug, Clone, Copy, PartialEq, Eq, Structural)]
pub struct ProtocolVersion {
    pub major: u8,
    pub minor: u8,
}

impl ProtocolVersion {
    /// DTLS 1.0.
    #[verifier::allow_in_spec]
    pub fn dtls_1_0() -> ProtocolVersion
        returns
            (ProtocolVersion { major: 254, minor: 255 }),
    {
        ProtocolVersion { major: 254, minor: 255 }
    }

    /// DTLS 1.2.
    #[verifier::allow_in_spec]
    pub fn dtls_1_2() -> ProtocolVersion
        returns
            (ProtocolVersion { major: 254, minor: 253 }),
    {
        ProtocolVersion { major: 254, minor: 253 }
    }
}

/// One record.
#[derive(Debug, Clone)]
pub struct DtlsRecord {
    pub content_type: ContentType,
    pub version: ProtocolVersion,
    pub epoch: u16,
    /// 48 bits on the wire.
    pub sequence_number: u64,
    pub payload: Bytes,
}

/// What a record says.
#[verifier::ext_equal]
pub struct RecordView {
    pub content_type: ContentType,
    pub version: ProtocolVersion,
    pub epoch: u16,
    pub sequence_number: u64,
    pub payload: Seq<u8>,
}

impl View for DtlsRecord {
    type V = RecordView;

    open spec fn view(&self) -> RecordView {
        RecordView {
            content_type: self.content_type,
            version: self.version,
            epoch: self.epoch,
            sequence_number: self.sequence_number,
            payload: buffer::bytes_content(self.payload),
        }
    }
}

/// The low 48 bits of `x`, as six bytes.
pub open spec fn enc48(x: u64) -> Seq<u8> {
    wire::enc16(((x / 0x1_0000_0000) % 0x1_0000) as u16) + wire::enc32(
        (x % 0x1_0000_0000) as u32,
    )
}

/// The 48-bit integer that starts at `at`.
pub open spec fn be48(s: Seq<u8>, at: int) -> u64 {
    (wire::be16(s, at) * 0x1_0000_0000 + wire::be32(s, at + 2)) as u64
}

/// The bytes of a record: a header of 13 bytes, then the payload. The length is kept modulo
/// 2^16.
pub open spec fn record_bytes(r: RecordView) -> Seq<u8> {
    seq![r.content_type.code(), r.version.major, r.version.minor] + wire::enc16(r.epoch) + enc48(
        r.sequence_number,
    ) + wire::enc16((r.payload.len() % 0x1_0000) as u16) + r.payload
}

/// The length of the record that starts a buffer, as its header gives it.
pub open spec fn record_len(s: Seq<u8>) -> int {
    13 + wire::be16(s, 11)
}

/// The record that starts a buffer, or none where the buffer does not hold all of it.
pub open spec fn record_decoded(s: Seq<u8>) -> Result<Option<RecordView>, DtlsError> {
    if s.len() < 13 {
        Ok(None)
    } else {
        match ContentType::of_code(s[0]) {
            Err(e) => Err(e),
            Ok(content_type) => if s.len() < record_len(s) {
                Ok(None)
            } else {
                Ok(
                    Some(
                        RecordView {
                            content_type,
                            version: ProtocolVersion { major: s[1], minor: s[2] },
                            epoch: wire::be16(s, 3),
                            sequence_number: be48(s, 5),
                            payload: s.subrange(13, record_len(s)),
                        },
                    ),
                )
            },
        }
    }
}

/// Appends the low 48 bits of `x`.
fn put_u48(out: &mut Vec<u8>, x: u64)
    ensures
        final(out)@ == old(out)@ + enc48(x),
{
    wire::put_u16(out, ((x / 0x1_0000_0000) % 0x1_0000) as u16);
    wire::put_u32(out, (x % 0x1_0000_0000) as u32);
    assert(out@ =~= old(out)@ + enc48(x));
}

/// The bytes of a record with these contents.
pub fn build_record(
    content_type: ContentType,
    version: ProtocolVersion,
    epoch: u16,
    sequence_number: u64,
    payload: &[u8],
) -> (out: Vec<u8>)
    ensures
        out@ == record_bytes(
            RecordView { content_type, version, epoch, sequence_number, payload: payload@ },
        ),
{
    let mut out: Vec<u8> = Vec::new();
    out.push(content_type.to_u8());
    out.push(version.major);
    out.push(version.minor);
    wire::put_u16(&mut out, epoch);
    put_u48(&mut out, sequence_number);
    wire::put_u16(&mut out, (payload.len() % 0x1_0000) as u16);
    wire::put_bytes(&mut out, payload);
    assert(out@ =~= record_bytes(
        RecordView { content_type, version, epoch, sequence_number, payload: payload@ },
    ));
    out
}

impl DtlsRecord {
    pub const HEADER_SIZE: usize = 13;

    /// Appends the record to `buf`.
    pub fn encode(&self, buf: &mut BytesMut)
        ensures
            buffer::bytes_mut_content(*final(buf)) == buffer::bytes_mut_content(*old(buf))
                + record_bytes(self@),
    {
        let out = build_record(
            self.content_type,
            self.version,
            self.epoch,
            self.sequence_number,
            buffer::bytes_slice(&self.payload),
        );
        buf.extend_from_slice(out.as_slice());
    }

    /// Takes the record that starts `buf` out of it. `None` where `buf` does not hold all of it.
    pub fn decode(buf: &mut Bytes) -> (r: DtlsResult<Option<Self>>)
        ensures
            match r {
                Ok(Some(record)) => record_decoded(buffer::bytes_content(*old(buf))) == Ok::<
                    Option<RecordView>,
                    DtlsError,
                >(Some(record@)) && buffer::bytes_content(*final(buf)) == buffer::bytes_content(
                    *old(buf),
                ).skip(record_len(buffer::bytes_content(*old(buf)))),
                Ok(None) => record_decoded(buffer::bytes_content(*old(buf))) == Ok::<
                    Option<RecordView>,
                    DtlsError,
                >(None) && buffer::bytes_content(*final(buf)) == buffer::bytes_content(*old(buf)),
                Err(e) => record_decoded(buffer::bytes_content(*old(buf))) == Err::<
                    Option<RecordView>,
                    DtlsError,
                >(e) && buffer::bytes_content(*final(buf)) == buffer::bytes_content(*old(buf)),
            },
    {
        let data = buffer::bytes_slice(buf);
        if data.len() < 13 {
            return Ok(None);
        }
        let content_type = ContentType::from_u8(data[0])?;
        let version = ProtocolVersion { major: data[1], minor: data[2] };
        let epoch: u16 = wire::get_u16(data, 3);
        let sequence_number: u64 = wire::get_u16(data, 5) as u64 * 0x1_0000_0000 + wire::get_u32(
            data,
            7,
        ) as u64;
        let length: usize = wire::get_u16(data, 11) as usize;
        if data.len() < 13 + length {
            return Ok(None);
        }
        let ghost whole = buffer::bytes_content(*buf);
        buffer::bytes_advance(buf, 13);
        let payload = buf.split_to(length);
        proof {
            assert(buffer::bytes_content(payload) =~= whole.subrange(13, 13 + length));
            assert(buffer::bytes_content(*buf) =~= whole.skip(13 + length));
        }
        Ok(Some(DtlsRecord { content_type, version, epoch, sequence_number, payload }))
    }
}

proof fn lemma_be48_enc48(s: Seq<u8>, at: int, x: u64)
    requires
        0 <= at,
        at + 6 <= s.len(),
        x < 0x1_0000_0000_0000,
        s.subrange(at, at + 6) == enc48(x),
    ensures
        be48(s, at) == x,
{
    let w = enc48(x);
    let high = ((x / 0x1_0000_0000) % 0x1_0000) as u16;
    let low = (x % 0x1_0000_0000) as u32;
    assert(s.subrange(at, at + 2) =~= s.subrange(at, at + 6).subrange(0, 2));
    assert(w.subrange(0, 2) =~= wire::enc16(high));
    assert(s.subrange(at + 2, at + 6) =~= s.subrange(at, at + 6).subrange(2, 6));
    assert(w.subrange(2, 6) =~= wire::enc32(low));
    wire::lemma_be16_enc16(s, at, high);
    wire::lemma_be32_enc32(s, at + 2, low);
}

proof fn lemma_record_parts(r: RecordView, rest: Seq<u8>)
    ensures
        ({
            let s = record_bytes(r) + rest;
            let n = record_bytes(r).len();
            &&& n == 13 + r.payload.len()
            &&& s[0] == r.content_type.code()
            &&& s[1] == r.version.major
            &&& s[2] == r.version.minor
            &&& s.subrange(3, 5) == wire::enc16(r.epoch)
            &&& s.subrange(5, 11) == enc48(r.sequence_number)
            &&& s.subrange(11, 13) == wire::enc16((r.payload.len() % 0x1_0000) as u16)
            &&& s.subrange(13, n as int) == r.payload
            &&& s.skip(n as int) == rest
        }),
{
    let s = record_bytes(r) + rest;
    let n = record_bytes(r).len() as int;
    assert(s.subrange(3, 5) =~= wire::enc16(r.epoch));
    assert(s.subrange(5, 11) =~= enc48(r.sequence_number));
    assert(s.subrange(11, 13) =~= wire::enc16((r.payload.len() % 0x1_0000) as u16));
    assert(s.subrange(13, n) =~= r.payload);
    assert(s.skip(n) =~= rest);
}

/// A record whose payload fits the length field and whose sequence number fits 48 bits is read
/// back as it was written, whatever follows it.
pub proof fn law_decode_of_encoded(r: RecordView, rest: Seq<u8>)
    requires
        r.payload.len() < 0x1_0000,
        r.sequence_number < 0x1_0000_0000_0000,
    ensures
        record_decoded(record_bytes(r) + rest) == Ok::<Option<RecordView>, DtlsError>(Some(r)),
        record_len(record_bytes(r) + rest) == record_bytes(r).len(),
        (record_bytes(r) + rest).skip(record_len(record_bytes(r) + rest)) == rest,
{
    let s = record_bytes(r) + rest;
    lemma_record_parts(r, rest);
    wire::lemma_be16_enc16(s, 3, r.epoch);
    lemma_be48_enc48(s, 5, r.sequence_number);
    wire::lemma_be16_enc16(s, 11, (r.payload.len() % 0x1_0000) as u16);
}

} // verus!
