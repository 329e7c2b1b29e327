//! The handshake messages that an ECDHE-ECDSA handshake exchanges (RFC 5246, RFC 6347, RFC 8422).
use vstd::prelude::*;

use crate::transports::dtls::error::{DtlsError, DtlsResult};
use crate::transports::dtls::record::ProtocolVersion;
use crate::wire;

verus! {

// Vectors with a length before them.
/// A vector of at most 255 bytes, with its length in one byte.
pub open spec fn enc_vec8(v: Seq<u8>) -> Seq<u8> {
    seq![(v.len() % 256) as u8] + v
}

/// A vector of at most 65535 bytes, with its length in two bytes.
pub open spec fn enc_vec16(v: Seq<u8>) -> Seq<u8> {
    wire::enc16((v.len() % 0x1_0000) as u16) + v
}

/// A vector of less than 2^24 bytes, with its length in three bytes.
pub open spec fn enc_vec24(v: Seq<u8>) -> Seq<u8> {
    wire::enc24((v.len() % 0x1_0000_0000) as u32) + v
}

/// The vector with a one byte length that starts at `at`, and where it ends.
pub open spec fn vec8_at(s: Seq<u8>, at: int) -> Option<(Seq<u8>, int)> {
    if at + 1 <= s.len() && at + 1 + s[at] <= s.len() {
        Some((s.subrange(at + 1, at + 1 + s[at]), at + 1 + s[at]))
    } else {
        None
    }
}

/// The vector with a two byte length that starts at `at`, and where it ends.
pub open spec fn vec16_at(s: Seq<u8>, at: int) -> Option<(Seq<u8>, int)> {
    if at + 2 <= s.len() && at + 2 + wire::be16(s, at) <= s.len() {
        Some((s.subrange(at + 2, at + 2 + wire::be16(s, at)), at + 2 + wire::be16(s, at)))
    } else {
        None
    }
}

/// What was read of a vector, and where it ends.
pub open spec fn read_view(r: Option<(Vec<u8>, usize)>) -> Option<(Seq<u8>, int)> {
    match r {
        Some((v, end)) => Some((v@, end as int)),
        None => None,
    }
}

fn read_vec8(buf: &[u8], at: usize) -> (r: Option<(Vec<u8>, usize)>)
    requires
        at <= buf@.len(),
    ensures
        read_view(r) == vec8_at(buf@, at as int),
{
    let n: usize = buf.len();
    if n - at < 1 {
        return None;
    }
    let len: usize = buf[at] as usize;
    if n - at - 1 < len {
        return None;
    }
    Some((wire::copy_range(buf, at + 1, at + 1 + len), at + 1 + len))
}

fn read_vec16(buf: &[u8], at: usize) -> (r: Option<(Vec<u8>, usize)>)
    requires
        at <= buf@.len(),
    ensures
        read_view(r) == vec16_at(buf@, at as int),
{
    let n: usize = buf.len();
    if n - at < 2 {
        return None;
    }
    let len: usize = wire::get_u16(buf, at) as usize;
    if n - at - 2 < len {
        return None;
    }
    Some((wire::copy_range(buf, at + 2, at + 2 + len), at + 2 + len))
}

fn put_vec8(out: &mut Vec<u8>, v: &[u8])
    ensures
        final(out)@ == old(out)@ + enc_vec8(v@),
{
    out.push((v.len() % 256) as u8);
    wire::put_bytes(out, v);
    assert(out@ =~= old(out)@ + enc_vec8(v@));
}

fn put_vec16(out: &mut Vec<u8>, v: &[u8])
    ensures
        final(out)@ == old(out)@ + enc_vec16(v@),
{
    wire::put_u16(out, (v.len() % 0x1_0000) as u16);
    wire::put_bytes(out, v);
    assert(out@ =~= old(out)@ + enc_vec16(v@));
}

/// The low 32 bits of a length.
fn low32(n: usize) -> (r: u32)
    ensures
        r == (n as nat) % 0x1_0000_0000,
{
    let wide: u64 = n as u64;
    (wide % 0x1_0000_0000) as u32
}

fn put_vec24(out: &mut Vec<u8>, v: &[u8])
    ensures
        final(out)@ == old(out)@ + enc_vec24(v@),
{
    wire::put_u24(out, low32(v.len()));
    wire::put_bytes(out, v);
    assert(out@ =~= old(out)@ + enc_vec24(v@));
}

proof fn lemma_vec8(s: Seq<u8>, at: int, v: Seq<u8>)
    requires
        0 <= at,
        at + 1 + v.len() <= s.len(),
        v.len() < 256,
        s.subrange(at, at + 1 + v.len()) == enc_vec8(v),
    ensures
        vec8_at(s, at) == Some((v, at + 1 + v.len())),
{
    let w = s.subrange(at, at + 1 + v.len());
    assert(s[at] == w[0]);
    assert(s.subrange(at + 1, at + 1 + v.len()) =~= w.subrange(1, w.len() as int));
    assert(w.subrange(1, w.len() as int) =~= v);
}

proof fn lemma_vec16(s: Seq<u8>, at: int, v: Seq<u8>)
    requires
        0 <= at,
        at + 2 + v.len() <= s.len(),
        v.len() < 0x1_0000,
        s.subrange(at, at + 2 + v.len()) == enc_vec16(v),
    ensures
        vec16_at(s, at) == Some((v, at + 2 + v.len())),
{
    let w = s.subrange(at, at + 2 + v.len());
    assert(s.subrange(at, at + 2) =~= w.subrange(0, 2));
    assert(w.subrange(0, 2) =~= wire::enc16(v.len() as u16));
    wire::lemma_be16_enc16(s, at, v.len() as u16);
    assert(s.subrange(at + 2, at + 2 + v.len()) =~= w.subrange(2, w.len() as int));
    assert(w.subrange(2, w.len() as int) =~= v);
}

// The message layer.
/// The kind of a handshake message.
#[derive(Debug, Clone, Copy, PartialEq, Eq, Structural)]
pub enum HandshakeType {
    HelloRequest,
    ClientHello,
    ServerHello,
    HelloVerifyRequest,
    Certificate,
    ServerKeyExchange,
    CertificateRequest,
    ServerHelloDone,
    CertificateVerify,
    ClientKeyExchange,
    Finished,
}

impl HandshakeType {
    /// The number of the kind on the wire.
    pub open spec fn code(self) -> u8 {
        match self {
            HandshakeType::HelloRequest => 0,
            HandshakeType::ClientHello => 1,
            HandshakeType::ServerHello => 2,
            HandshakeType::HelloVerifyRequest => 3,
            HandshakeType::Certificate => 11,
            HandshakeType::ServerKeyExchange => 12,
            HandshakeType::CertificateRequest => 13,
            HandshakeType::ServerHelloDone => 14,
            HandshakeType::CertificateVerify => 15,
            HandshakeType::ClientKeyExchange => 16,
            HandshakeType::Finished => 20,
        }
    }

    /// The kind with this number.
    pub open spec fn of_code(value: u8) -> Result<HandshakeType, DtlsError> {
        if value == 0 {
            Ok(HandshakeType::HelloRequest)
        } else if value == 1 {
            Ok(HandshakeType::ClientHello)
        } else if value == 2 {
            Ok(HandshakeType::ServerHello)
        } else if value == 3 {
            Ok(HandshakeType::HelloVerifyRequest)
        } else if value == 11 {
            Ok(HandshakeType::Certificate)
        } else if value == 12 {
            Ok(HandshakeType::ServerKeyExchange)
        } else if value == 13 {
            Ok(HandshakeType::CertificateRequest)
        } else if value == 14 {
            Ok(HandshakeType::ServerHelloDone)
        } else if value == 15 {
            Ok(HandshakeType::CertificateVerify)
        } else if value == 16 {
            Ok(HandshakeType::ClientKeyExchange)
        } else if value == 20 {
            Ok(HandshakeType::Finished)
        } else {
            Err(DtlsError::InvalidHandshakeType(value))
        }
    }

    /// The number of the kind on the wire.
    pub fn to_u8(self) -> (r: u8)
        ensures
            r == self.code(),
    {
        match self {
            HandshakeType::HelloRequest => 0,
            HandshakeType::ClientHello => 1,
            HandshakeType::ServerHello => 2,
            HandshakeType::HelloVerifyRequest => 3,
            HandshakeType::Certificate => 11,
            HandshakeType::ServerKeyExchange => 12,
            HandshakeType::CertificateRequest => 13,
            HandshakeType::ServerHelloDone => 14,
            HandshakeType::CertificateVerify => 15,
            HandshakeType::ClientKeyExchange => 16,
            HandshakeType::Finished => 20,
        }
    }

    /// The kind with this number.
    pub fn from_u8(value: u8) -> (r: DtlsResult<HandshakeType>)
        ensures
            r == HandshakeType::of_code(value),
    {
        match value {
            0 => Ok(HandshakeType::HelloRequest),
            1 => Ok(HandshakeType::ClientHello),
            2 => Ok(HandshakeType::ServerHello),
            3 => Ok(HandshakeType::HelloVerifyRequest),
            11 => Ok(HandshakeType::Certificate),
            12 => Ok(HandshakeType::ServerKeyExchange),
            13 => Ok(HandshakeType::CertificateRequest),
            14 => Ok(HandshakeType::ServerHelloDone),
            15 => Ok(HandshakeType::CertificateVerify),
            16 => Ok(HandshakeType::ClientKeyExchange),
            20 => Ok(HandshakeType::Finished),
            _ => Err(DtlsError::InvalidHandshakeType(value)),
        }
    }
}

/// One handshake message, or one fragment of it.
#[derive(Debug, Clone)]
pub struct HandshakeMessage {
    pub msg_type: HandshakeType,
    pub message_seq: u16,
    pub fragment_offset: u32,
    pub fragment_length: u32,
    pub body: Vec<u8>,
}

/// What a handshake message says.
#[verifier::ext_equal]
pub struct MessageView {
    pub msg_type: HandshakeType,
    pub message_seq: u16,
    pub fragment_offset: u32,
    pub fragment_length: u32,
    pub body: Seq<u8>,
}

impl View for HandshakeMessage {
    type V = MessageView;

    open spec fn view(&self) -> MessageView {
        MessageView {
            msg_type: self.msg_type,
            message_seq: self.message_seq,
            fragment_offset: self.fragment_offset,
            fragment_length: self.fragment_length,
            body: self.body@,
        }
    }
}

/// The bytes of a handshake message: a header of 12 bytes, then the body.
pub open spec fn message_bytes(m: MessageView) -> Seq<u8> {
    seq![m.msg_type.code()] + wire::enc24((m.body.len() % 0x1_0000_0000) as u32) + wire::enc16(
        m.message_seq,
    ) + wire::enc24(m.fragment_offset) + wire::enc24(m.fragment_length) + m.body
}

/// The message that carries the whole of `body`.
pub open spec fn whole_message(msg_type: HandshakeType, message_seq: u16, body: Seq<u8>) -> MessageView {
    MessageView {
        msg_type,
        message_seq,
        fragment_offset: 0,
        fragment_length: (body.len() % 0x1_0000_0000) as u32,
        body,
    }
}

/// The length of the message that starts a buffer, as its header gives it.
pub open spec fn message_len(s: Seq<u8>) -> int {
    12 + wire::be24(s, 9)
}

/// The message that starts a buffer, or none where the buffer does not hold all of it.
pub open spec fn message_decoded(s: Seq<u8>) -> Result<Option<MessageView>, DtlsError> {
    if s.len() < 12 {
        Ok(None)
    } else {
        match HandshakeType::of_code(s[0]) {
            Err(e) => Err(e),
            Ok(msg_type) => if s.len() < message_len(s) {
                Ok(None)
            } else {
                Ok(
                    Some(
                        MessageView {
                            msg_type,
                            message_seq: wire::be16(s, 4),
                            fragment_offset: wire::be24(s, 6),
                            fragment_length: wire::be24(s, 9),
                            body: s.subrange(12, message_len(s)),
                        },
                    ),
                )
            },
        }
    }
}

impl HandshakeMessage {
    /// The message that carries the whole of `body`.
    pub fn whole(msg_type: HandshakeType, message_seq: u16, body: Vec<u8>) -> (m: Self)
        ensures
            m@ == whole_message(msg_type, message_seq, body@),
    {
        let fragment_length: u32 = low32(body.len());
        HandshakeMessage { msg_type, message_seq, fragment_offset: 0, fragment_length, body }
    }

    /// The bytes of the message.
    pub fn encode(&self) -> (out: Vec<u8>)
        ensures
            out@ == message_bytes(self@),
    {
        let mut out: Vec<u8> = Vec::new();
        out.push(self.msg_type.to_u8());
        wire::put_u24(&mut out, low32(self.body.len()));
        wire::put_u16(&mut out, self.message_seq);
        wire::put_u24(&mut out, self.fragment_offset);
        wire::put_u24(&mut out, self.fragment_length);
        wire::put_bytes(&mut out, self.body.as_slice());
        assert(out@ =~= message_bytes(self@));
        out
    }

    /// Reads the message that starts `buf`, with its length. `None` where `buf` does not hold
    /// all of it.
    pub fn decode(buf: &[u8]) -> (r: DtlsResult<Option<(Self, usize)>>)
        ensures
            match r {
                Ok(Some((m, len))) => message_decoded(buf@) == Ok::<Option<MessageView>, DtlsError>(
                    Some(m@),
                ) && len == message_len(buf@) && len <= buf@.len(),
                Ok(None) => message_decoded(buf@) == Ok::<Option<MessageView>, DtlsError>(None),
                Err(e) => message_decoded(buf@) == Err::<Option<MessageView>, DtlsError>(e),
            },
    {
        if buf.len() < 12 {
            return Ok(None);
        }
        let msg_type = HandshakeType::from_u8(buf[0])?;
        let fragment_length: u32 = wire::get_u24(buf, 9);
        let len: usize = 12 + fragment_length as usize;
        if buf.len() < len {
            return Ok(None);
        }
        Ok(
            Some(
                (
                    HandshakeMessage {
                        msg_type,
                        message_seq: wire::get_u16(buf, 4),
                        fragment_offset: wire::get_u24(buf, 6),
                        fragment_length,
                        body: wire::copy_range(buf, 12, len),
                    },
                    len,
                ),
            ),
        )
    }
}

proof fn lemma_message_parts(m: MessageView, rest: Seq<u8>)
    ensures
        ({
            let s = message_bytes(m) + rest;
            let n = message_bytes(m).len();
            &&& n == 12 + m.body.len()
            &&& s[0] == m.msg_type.code()
            &&& s.subrange(4, 6) == wire::enc16(m.message_seq)
            &&& s.subrange(6, 9) == wire::enc24(m.fragment_offset)
            &&& s.subrange(9, 12) == wire::enc24(m.fragment_length)
            &&& s.subrange(12, n as int) == m.body
        }),
{
    let s = message_bytes(m) + rest;
    let n = message_bytes(m).len() as int;
    assert(s.subrange(4, 6) =~= wire::enc16(m.message_seq));
    assert(s.subrange(6, 9) =~= wire::enc24(m.fragment_offset));
    assert(s.subrange(9, 12) =~= wire::enc24(m.fragment_length));
    assert(s.subrange(12, n) =~= m.body);
}

/// A handshake message is read back as it was written, whatever follows it.
pub proof fn law_decode_of_message(m: MessageView, rest: Seq<u8>)
    requires
        m.body.len() == m.fragment_length,
        m.fragment_length < 0x100_0000,
        m.fragment_offset < 0x100_0000,
    ensures
        message_decoded(message_bytes(m) + rest) == Ok::<Option<MessageView>, DtlsError>(Some(m)),
        message_len(message_bytes(m) + rest) == message_bytes(m).len(),
{
    let s = message_bytes(m) + rest;
    lemma_message_parts(m, rest);
    wire::lemma_be16_enc16(s, 4, m.message_seq);
    wire::lemma_be24_enc24(s, 6, m.fragment_offset);
    wire::lemma_be24_enc24(s, 9, m.fragment_length);
}

// The bodies.
/// The random value of a hello message: a time and 28 bytes.
#[derive(Debug, Clone, PartialEq, Eq)]
pub struct Random {
    pub gmt_unix_time: u32,
    pub random_bytes: Vec<u8>,
}

impl Random {
    /// The 32 bytes of the random value.
    pub open spec fn octets(&self) -> Seq<u8> {
        wire::enc32(self.gmt_unix_time) + self.random_bytes@
    }

    /// Whether the random value has its 28 bytes.
    pub open spec fn wf(&self) -> bool {
        self.random_bytes@.len() == 28
    }

    /// The 32 bytes of the random value.
    pub fn to_bytes(&self) -> (r: Vec<u8>)
        ensures
            r@ == self.octets(),
    {
        let mut out: Vec<u8> = Vec::new();
        wire::put_u32(&mut out, self.gmt_unix_time);
        wire::put_bytes(&mut out, self.random_bytes.as_slice());
        assert(out@ =~= self.octets());
        out
    }
}

/// The extensions at the end of a hello message: none where the message ends at `at`.
pub open spec fn extensions_at(s: Seq<u8>, at: int) -> Option<Seq<u8>> {
    if at == s.len() {
        Some(seq![])
    } else {
        match vec16_at(s, at) {
            Some((v, _)) => Some(v),
            None => None,
        }
    }
}

fn read_extensions(buf: &[u8], at: usize) -> (r: Option<Vec<u8>>)
    requires
        at <= buf@.len(),
    ensures
        match r {
            Some(v) => extensions_at(buf@, at as int) == Some(v@),
            None => extensions_at(buf@, at as int) is None,
        },
{
    if at == buf.len() {
        let v: Vec<u8> = Vec::new();
        assert(v@ =~= seq![]);
        return Some(v);
    }
    match read_vec16(buf, at) {
        Some((v, _)) => Some(v),
        None => None,
    }
}

/// `n` consecutive 16-bit integers, of which the first starts at `at`.
pub open spec fn be16s(s: Seq<u8>, n: nat) -> Seq<u16> {
    Seq::new(n, |i: int| wire::be16(s, 2 * i))
}

/// The 16-bit integers `xs`, one after the other.
pub open spec fn enc16s(xs: Seq<u16>) -> Seq<u8>
    decreases xs.len(),
{
    if xs.len() == 0 {
        seq![]
    } else {
        enc16s(xs.drop_last()) + wire::enc16(xs.last())
    }
}

fn get_u16s(buf: &[u8]) -> (xs: Vec<u16>)
    ensures
        xs@ == be16s(buf@, buf@.len() / 2),
{
    let len: usize = buf.len();
    let n: usize = len / 2;
    let mut xs: Vec<u16> = Vec::new();
    let mut i: usize = 0;
    while i < n
        invariant
            len == buf@.len(),
            n == len / 2,
            i <= n,
            xs@ == be16s(buf@, i as nat),
        decreases n - i,
    {
        xs.push(wire::get_u16(buf, 2 * i));
        i += 1;
        assert(xs@ =~= be16s(buf@, i as nat));
    }
    xs
}

fn put_u16s(out: &mut Vec<u8>, xs: &[u16])
    ensures
        final(out)@ == old(out)@ + enc16s(xs@),
{
    let n: usize = xs.len();
    let mut i: usize = 0;
    assert(out@ =~= old(out)@ + enc16s(xs@.subrange(0, 0)));
    while i < n
        invariant
            n == xs@.len(),
            i <= n,
            out@ == old(out)@ + enc16s(xs@.subrange(0, i as int)),
        decreases n - i,
    {
        wire::put_u16(out, xs[i]);
        i += 1;
        let ghost head = xs@.subrange(0, i as int);
        assert(head.drop_last() =~= xs@.subrange(0, i - 1));
        assert(out@ =~= old(out)@ + enc16s(head));
    }
    assert(xs@.subrange(0, n as int) =~= xs@);
}

proof fn lemma_u16s(xs: Seq<u16>)
    ensures
        enc16s(xs).len() == 2 * xs.len(),
        be16s(enc16s(xs), xs.len()) == xs,
    decreases xs.len(),
{
    if xs.len() > 0 {
        let head = xs.drop_last();
        let n = 2 * head.len() as int;
        let w = enc16s(xs);
        lemma_u16s(head);
        assert(w.subrange(n, n + 2) =~= wire::enc16(xs.last()));
        wire::lemma_be16_enc16(w, n, xs.last());
        assert forall|i: int| 0 <= i < xs.len() implies be16s(w, xs.len())[i] == xs[i] by {
            if i < head.len() {
                assert(be16s(enc16s(head), head.len())[i] == head[i]);
                assert(w[2 * i] == enc16s(head)[2 * i]);
                assert(w[2 * i + 1] == enc16s(head)[2 * i + 1]);
            }
        }
    }
    assert(be16s(enc16s(xs), xs.len()) =~= xs);
}

/// The first message of a client.
#[derive(Debug, Clone)]
pub struct ClientHello {
    pub version: ProtocolVersion,
    pub random: Random,
    pub session_id: Vec<u8>,
    pub cookie: Vec<u8>,
    pub cipher_suites: Vec<u16>,
    pub compression_methods: Vec<u8>,
    pub extensions: Vec<u8>,
}

/// What the first message of a client says.
#[verifier::ext_equal]
pub struct ClientHelloView {
    pub version: ProtocolVersion,
    pub random: Seq<u8>,
    pub session_id: Seq<u8>,
    pub cookie: Seq<u8>,
    pub cipher_suites: Seq<u16>,
    pub compression_methods: Seq<u8>,
    pub extensions: Seq<u8>,
}

impl View for ClientHello {
    type V = ClientHelloView;

    open spec fn view(&self) -> ClientHelloView {
        ClientHelloView {
            version: self.version,
            random: self.random.octets(),
            session_id: self.session_id@,
            cookie: self.cookie@,
            cipher_suites: self.cipher_suites@,
            compression_methods: self.compression_methods@,
            extensions: self.extensions@,
        }
    }
}

/// The body of a client's hello.
pub open spec fn client_hello_bytes(h: ClientHelloView) -> Seq<u8> {
    seq![h.version.major, h.version.minor] + h.random + enc_vec8(h.session_id) + enc_vec8(h.cookie)
        + enc_vec16(enc16s(h.cipher_suites)) + enc_vec8(h.compression_methods) + enc_vec16(
        h.extensions,
    )
}

/// The client's hello in a body.
pub open spec fn client_hello_decoded(s: Seq<u8>) -> Option<ClientHelloView> {
    if s.len() < 34 {
        None
    } else {
        match vec8_at(s, 34) {
            None => None,
            Some((session_id, a)) => match vec8_at(s, a) {
                None => None,
                Some((cookie, b)) => match vec16_at(s, b) {
                    None => None,
                    Some((suites, c)) => match vec8_at(s, c) {
                        None => None,
                        Some((compression_methods, d)) => match extensions_at(s, d) {
                            None => None,
                            Some(extensions) => Some(
                                ClientHelloView {
                                    version: ProtocolVersion { major: s[0], minor: s[1] },
                                    random: s.subrange(2, 34),
                                    session_id,
                                    cookie,
                                    cipher_suites: be16s(suites, suites.len() / 2),
                                    compression_methods,
                                    extensions,
                                },
                            ),
                        },
                    },
                },
            },
        }
    }
}

fn read_random(buf: &[u8]) -> (r: Random)
    requires
        buf@.len() >= 34,
    ensures
        r.octets() == buf@.subrange(2, 34),
        r.wf(),
{
    let r = Random {
        gmt_unix_time: wire::get_u32(buf, 2),
        random_bytes: wire::copy_range(buf, 6, 34),
    };
    proof {
        wire::lemma_enc32_be32(buf@, 2);
        wire::lemma_glue(buf@, 2, 6, 34);
    }
    r
}

impl ClientHello {
    /// The body of the message.
    pub fn encode(&self) -> (out: Vec<u8>)
        ensures
            out@ == client_hello_bytes(self@),
    {
        let mut suites: Vec<u8> = Vec::new();
        put_u16s(&mut suites, self.cipher_suites.as_slice());
        assert(suites@ =~= enc16s(self.cipher_suites@));
        let mut out: Vec<u8> = Vec::new();
        out.push(self.version.major);
        out.push(self.version.minor);
        let random = self.random.to_bytes();
        wire::put_bytes(&mut out, random.as_slice());
        put_vec8(&mut out, self.session_id.as_slice());
        put_vec8(&mut out, self.cookie.as_slice());
        put_vec16(&mut out, suites.as_slice());
        put_vec8(&mut out, self.compression_methods.as_slice());
        put_vec16(&mut out, self.extensions.as_slice());
        assert(out@ =~= client_hello_bytes(self@));
        out
    }

    /// Reads the body of the message.
    pub fn decode(buf: &[u8]) -> (r: DtlsResult<Self>)
        ensures
            match r {
                Ok(h) => client_hello_decoded(buf@) == Some(h@) && h.random.wf(),
                Err(e) => client_hello_decoded(buf@) is None && e == DtlsError::Malformed(
                    "ClientHello",
                ),
            },
    {
        if buf.len() < 34 {
            return Err(DtlsError::Malformed("ClientHello"));
        }
        let (session_id, a) = match read_vec8(buf, 34) {
            Some(x) => x,
            None => {
                return Err(DtlsError::Malformed("ClientHello"));
            },
        };
        let (cookie, b) = match read_vec8(buf, a) {
            Some(x) => x,
            None => {
                return Err(DtlsError::Malformed("ClientHello"));
            },
        };
        let (suites, c) = match read_vec16(buf, b) {
            Some(x) => x,
            None => {
                return Err(DtlsError::Malformed("ClientHello"));
            },
        };
        let (compression_methods, d) = match read_vec8(buf, c) {
            Some(x) => x,
            None => {
                return Err(DtlsError::Malformed("ClientHello"));
            },
        };
        let extensions = match read_extensions(buf, d) {
            Some(x) => x,
            None => {
                return Err(DtlsError::Malformed("ClientHello"));
            },
        };
        Ok(
            ClientHello {
                version: ProtocolVersion { major: buf[0], minor: buf[1] },
                random: read_random(buf),
                session_id,
                cookie,
                cipher_suites: get_u16s(suites.as_slice()),
                compression_methods,
                extensions,
            },
        )
    }
}

/// The profiles that the data of a `use_srtp` extension offers (RFC 5764).
pub open spec fn profile_list(data: Seq<u8>) -> Seq<u16> {
    if data.len() < 2 {
        seq![]
    } else {
        let listed = (wire::be16(data, 0) + 1) / 2;
        let held = (data.len() - 2) / 2;
        let n = (if listed < held {
            listed
        } else {
            held
        }) as nat;
        Seq::new(n, |i: int| wire::be16(data, 2 + 2 * i))
    }
}

/// The SRTP profiles that the extensions of a client's hello offer, in order.
pub open spec fn srtp_profiles(s: Seq<u8>) -> Seq<u16>
    decreases s.len(),
{
    if s.len() < 4 || s.len() - 4 < wire::be16(s, 2) {
        seq![]
    } else {
        let len = wire::be16(s, 2) as int;
        (if wire::be16(s, 0) == 14 {
            profile_list(s.subrange(4, 4 + len))
        } else {
            seq![]
        }) + srtp_profiles(s.skip(4 + len))
    }
}

fn push_profiles(out: &mut Vec<u16>, data: &[u8])
    ensures
        final(out)@ == old(out)@ + profile_list(data@),
{
    let n: usize = data.len();
    if n < 2 {
        assert(out@ =~= old(out)@ + profile_list(data@));
        return ;
    }
    let listed: usize = wire::get_u16(data, 0) as usize;
    let mut idx: usize = 2;
    let ghost mut i: int = 0;
    while idx < 2 + listed && idx < n - 1
        invariant
            n == data@.len(),
            n >= 2,
            listed == wire::be16(data@, 0),
            idx == 2 + 2 * i,
            0 <= i <= profile_list(data@).len(),
            idx <= n,
            out@ == old(out)@ + profile_list(data@).subrange(0, i),
        decreases n - idx,
    {
        out.push(wire::get_u16(data, idx));
        idx += 2;
        proof {
            i = i + 1;
            assert(out@ =~= old(out)@ + profile_list(data@).subrange(0, i));
        }
    }
    assert(i == profile_list(data@).len());
    assert(out@ =~= old(out)@ + profile_list(data@));
}

/// Lists the SRTP profiles that the extensions of a client's hello offer.
pub fn offered_srtp_profiles(ext: &[u8]) -> (r: Vec<u16>)
    ensures
        r@ == srtp_profiles(ext@),
{
    let n: usize = ext.len();
    let mut profiles: Vec<u16> = Vec::new();
    let mut at: usize = 0;
    assert(ext@.skip(0) =~= ext@);
    assert(profiles@ + srtp_profiles(ext@) =~= srtp_profiles(ext@));
    while n - at >= 4
        invariant
            n == ext@.len(),
            at <= n,
            srtp_profiles(ext@) == profiles@ + srtp_profiles(ext@.skip(at as int)),
        decreases n - at,
    {
        let ghost rest = ext@.skip(at as int);
        let ext_type: u16 = wire::get_u16(ext, at);
        let ext_len: usize = wire::get_u16(ext, at + 2) as usize;
        assert(wire::be16(rest, 0) == ext_type);
        assert(wire::be16(rest, 2) == ext_len);
        if n - at - 4 < ext_len {
            assert(profiles@ + seq![] =~= profiles@);
            return profiles;
        }
        let ghost before = profiles@;
        let data = wire::copy_range(ext, at + 4, at + 4 + ext_len);
        if ext_type == 14 {
            push_profiles(&mut profiles, data.as_slice());
        }
        at = at + 4 + ext_len;
        proof {
            let found = if ext_type == 14 {
                profile_list(data@)
            } else {
                seq![]
            };
            assert(rest.subrange(4, 4 + ext_len) =~= data@);
            assert(rest.skip(4 + ext_len) =~= ext@.skip(at as int));
            assert(profiles@ =~= before + found);
            assert(before + (found + srtp_profiles(ext@.skip(at as int))) =~= (before + found)
                + srtp_profiles(ext@.skip(at as int)));
        }
    }
    assert(profiles@ + seq![] =~= profiles@);
    profiles
}

/// The first message of a server.
#[derive(Debug, Clone)]
pub struct ServerHello {
    pub version: ProtocolVersion,
    pub random: Random,
    pub session_id: Vec<u8>,
    pub cipher_suite: u16,
    pub compression_method: u8,
    pub extensions: Vec<u8>,
}

/// What the first message of a server says.
#[verifier::ext_equal]
pub struct ServerHelloView {
    pub version: ProtocolVersion,
    pub random: Seq<u8>,
    pub session_id: Seq<u8>,
    pub cipher_suite: u16,
    pub compression_method: u8,
    pub extensions: Seq<u8>,
}

impl View for ServerHello {
    type V = ServerHelloView;

    open spec fn view(&self) -> ServerHelloView {
        ServerHelloView {
            version: self.version,
            random: self.random.octets(),
            session_id: self.session_id@,
            cipher_suite: self.cipher_suite,
            compression_method: self.compression_method,
            extensions: self.extensions@,
        }
    }
}

/// The body of a server's hello.
pub open spec fn server_hello_bytes(h: ServerHelloView) -> Seq<u8> {
    seq![h.version.major, h.version.minor] + h.random + enc_vec8(h.session_id) + wire::enc16(
        h.cipher_suite,
    ) + seq![h.compression_method] + enc_vec16(h.extensions)
}

/// The server's hello in a body.
pub open spec fn server_hello_decoded(s: Seq<u8>) -> Option<ServerHelloView> {
    if s.len() < 34 {
        None
    } else {
        match vec8_at(s, 34) {
            None => None,
            Some((session_id, a)) => if s.len() < a + 3 {
                None
            } else {
                match extensions_at(s, a + 3) {
                    None => None,
                    Some(extensions) => Some(
                        ServerHelloView {
                            version: ProtocolVersion { major: s[0], minor: s[1] },
                            random: s.subrange(2, 34),
                            session_id,
                            cipher_suite: wire::be16(s, a),
                            compression_method: s[a + 2],
                            extensions,
                        },
                    ),
                }
            },
        }
    }
}

impl ServerHello {
    /// The body of the message.
    pub fn encode(&self) -> (out: Vec<u8>)
        ensures
            out@ == server_hello_bytes(self@),
    {
        let mut out: Vec<u8> = Vec::new();
        out.push(self.version.major);
        out.push(self.version.minor);
        let random = self.random.to_bytes();
        wire::put_bytes(&mut out, random.as_slice());
        put_vec8(&mut out, self.session_id.as_slice());
        wire::put_u16(&mut out, self.cipher_suite);
        out.push(self.compression_method);
        put_vec16(&mut out, self.extensions.as_slice());
        assert(out@ =~= server_hello_bytes(self@));
        out
    }

    /// Reads the body of the message.
    pub fn decode(buf: &[u8]) -> (r: DtlsResult<Self>)
        ensures
            match r {
                Ok(h) => server_hello_decoded(buf@) == Some(h@) && h.random.wf(),
                Err(e) => server_hello_decoded(buf@) is None && e == DtlsError::Malformed(
                    "ServerHello",
                ),
            },
    {
        if buf.len() < 34 {
            return Err(DtlsError::Malformed("ServerHello"));
        }
        let (session_id, a) = match read_vec8(buf, 34) {
            Some(x) => x,
            None => {
                return Err(DtlsError::Malformed("ServerHello"));
            },
        };
        if buf.len() - a < 3 {
            return Err(DtlsError::Malformed("ServerHello"));
        }
        let extensions = match read_extensions(buf, a + 3) {
            Some(x) => x,
            None => {
                return Err(DtlsError::Malformed("ServerHello"));
            },
        };
        Ok(
            ServerHello {
                version: ProtocolVersion { major: buf[0], minor: buf[1] },
                random: read_random(buf),
                session_id,
                cipher_suite: wire::get_u16(buf, a),
                compression_method: buf[a + 2],
                extensions,
            },
        )
    }
}

/// A server's request to repeat the hello with a cookie.
#[derive(Debug, Clone)]
pub struct HelloVerifyRequest {
    pub version: ProtocolVersion,
    pub cookie: Vec<u8>,
}

/// The cookie in the body of a hello verify request.
pub open spec fn hello_verify_cookie(s: Seq<u8>) -> Option<Seq<u8>> {
    match vec8_at(s, 2) {
        Some((cookie, _)) => Some(cookie),
        None => None,
    }
}

impl HelloVerifyRequest {
    /// Reads the body of the message.
    pub fn decode(buf: &[u8]) -> (r: DtlsResult<Self>)
        ensures
            match r {
                Ok(h) => hello_verify_cookie(buf@) == Some(h.cookie@) && h.version
                    == (ProtocolVersion { major: buf@[0], minor: buf@[1] }),
                Err(e) => hello_verify_cookie(buf@) is None && e == DtlsError::Malformed(
                    "HelloVerifyRequest",
                ),
            },
    {
        if buf.len() < 2 {
            return Err(DtlsError::Malformed("HelloVerifyRequest"));
        }
        match read_vec8(buf, 2) {
            Some((cookie, _)) => Ok(
                HelloVerifyRequest {
                    version: ProtocolVersion { major: buf[0], minor: buf[1] },
                    cookie,
                },
            ),
            None => Err(DtlsError::Malformed("HelloVerifyRequest")),
        }
    }
}

/// A certificate chain.
#[derive(Debug, Clone)]
pub struct CertificateMessage {
    pub certificates: Vec<Vec<u8>>,
}

/// The contents of a list of buffers.
pub open spec fn contents(vs: Seq<Vec<u8>>) -> Seq<Seq<u8>> {
    vs.map_values(|v: Vec<u8>| v@)
}

/// Certificates, each with its length before it.
pub open spec fn certificate_list(certs: Seq<Seq<u8>>) -> Seq<u8>
    decreases certs.len(),
{
    if certs.len() == 0 {
        seq![]
    } else {
        certificate_list(certs.drop_last()) + enc_vec24(certs.last())
    }
}

/// The body of a certificate message.
pub open spec fn certificate_bytes(certs: Seq<Seq<u8>>) -> Seq<u8> {
    enc_vec24(certificate_list(certs))
}

impl CertificateMessage {
    /// The body of the message.
    pub fn encode(&self) -> (out: Vec<u8>)
        ensures
            out@ == certificate_bytes(contents(self.certificates@)),
    {
        let n: usize = self.certificates.len();
        let ghost all = contents(self.certificates@);
        let mut list: Vec<u8> = Vec::new();
        let mut i: usize = 0;
        assert(list@ =~= certificate_list(all.subrange(0, 0)));
        while i < n
            invariant
                n == self.certificates@.len(),
                all == contents(self.certificates@),
                i <= n,
                list@ == certificate_list(all.subrange(0, i as int)),
            decreases n - i,
        {
            put_vec24(&mut list, self.certificates[i].as_slice());
            i += 1;
            let ghost head = all.subrange(0, i as int);
            assert(head.drop_last() =~= all.subrange(0, i - 1));
            assert(head.last() == self.certificates@[i - 1]@);
        }
        assert(all.subrange(0, n as int) =~= all);
        let mut out: Vec<u8> = Vec::new();
        put_vec24(&mut out, list.as_slice());
        assert(out@ =~= certificate_bytes(all));
        out
    }
}

/// A server's share of the key exchange, with its signature.
#[derive(Debug, Clone)]
pub struct ServerKeyExchange {
    pub curve_type: u8,
    pub named_curve: u16,
    pub public_key: Vec<u8>,
    pub signature: Vec<u8>,
}

/// The body of a server's share: the curve, the public key, then an ECDSA signature with
/// SHA-256.
pub open spec fn server_key_exchange_bytes(
    curve_type: u8,
    named_curve: u16,
    public_key: Seq<u8>,
    signature: Seq<u8>,
) -> Seq<u8> {
    seq![curve_type] + wire::enc16(named_curve) + enc_vec8(public_key) + seq![4u8, 3u8]
        + enc_vec16(signature)
}

/// The public key in the body of a server's share.
pub open spec fn server_public_key(s: Seq<u8>) -> Option<Seq<u8>> {
    match vec8_at(s, 3) {
        None => None,
        Some((public_key, a)) => match vec16_at(s, a + 2) {
            None => None,
            Some(_) => Some(public_key),
        },
    }
}

impl ServerKeyExchange {
    /// The body of the message.
    pub fn encode(&self) -> (out: Vec<u8>)
        ensures
            out@ == server_key_exchange_bytes(
                self.curve_type,
                self.named_curve,
                self.public_key@,
                self.signature@,
            ),
    {
        let mut out: Vec<u8> = Vec::new();
        out.push(self.curve_type);
        wire::put_u16(&mut out, self.named_curve);
        put_vec8(&mut out, self.public_key.as_slice());
        out.push(4);
        out.push(3);
        put_vec16(&mut out, self.signature.as_slice());
        assert(out@ =~= server_key_exchange_bytes(
            self.curve_type,
            self.named_curve,
            self.public_key@,
            self.signature@,
        ));
        out
    }

    /// Reads the body of the message.
    pub fn decode(buf: &[u8]) -> (r: DtlsResult<Self>)
        ensures
            match r {
                Ok(k) => server_public_key(buf@) == Some(k.public_key@),
                Err(e) => server_public_key(buf@) is None && e == DtlsError::Malformed(
                    "ServerKeyExchange",
                ),
            },
    {
        if buf.len() < 3 {
            return Err(DtlsError::Malformed("ServerKeyExchange"));
        }
        let (public_key, a) = match read_vec8(buf, 3) {
            Some(x) => x,
            None => {
                return Err(DtlsError::Malformed("ServerKeyExchange"));
            },
        };
        if buf.len() - a < 2 {
            return Err(DtlsError::Malformed("ServerKeyExchange"));
        }
        let (signature, _) = match read_vec16(buf, a + 2) {
            Some(x) => x,
            None => {
                return Err(DtlsError::Malformed("ServerKeyExchange"));
            },
        };
        Ok(
            ServerKeyExchange {
                curve_type: buf[0],
                named_curve: wire::get_u16(buf, 1),
                public_key,
                signature,
            },
        )
    }
}

/// A client's share of the key exchange.
#[derive(Debug, Clone)]
pub struct ClientKeyExchange {
    pub identity_hint: Vec<u8>,
    pub public_key: Vec<u8>,
}

/// The body of a client's share.
pub open spec fn client_key_exchange_bytes(public_key: Seq<u8>) -> Seq<u8> {
    enc_vec8(public_key)
}

/// The public key in the body of a client's share.
pub open spec fn client_public_key(s: Seq<u8>) -> Option<Seq<u8>> {
    match vec8_at(s, 0) {
        Some((public_key, _)) => Some(public_key),
        None => None,
    }
}

impl ClientKeyExchange {
    /// The body of the message.
    pub fn encode(&self) -> (out: Vec<u8>)
        ensures
            out@ == client_key_exchange_bytes(self.public_key@),
    {
        let mut out: Vec<u8> = Vec::new();
        put_vec8(&mut out, self.public_key.as_slice());
        assert(out@ =~= enc_vec8(self.public_key@));
        out
    }

    /// Reads the body of the message.
    pub fn decode(buf: &[u8]) -> (r: DtlsResult<Self>)
        ensures
            match r {
                Ok(k) => client_public_key(buf@) == Some(k.public_key@) && k.identity_hint@.len()
                    == 0,
                Err(e) => client_public_key(buf@) is None && e == DtlsError::Malformed(
                    "ClientKeyExchange",
                ),
            },
    {
        match read_vec8(buf, 0) {
            Some((public_key, _)) => Ok(
                ClientKeyExchange { identity_hint: Vec::new(), public_key },
            ),
            None => Err(DtlsError::Malformed("ClientKeyExchange")),
        }
    }
}

/// The message that ends a handshake.
#[derive(Debug, Clone)]
pub struct Finished {
    pub verify_data: Vec<u8>,
}

impl Finished {
    /// The body of the message.
    pub fn encode(&self) -> (out: Vec<u8>)
        ensures
            out@ == self.verify_data@,
    {
        let out = wire::copy_range(self.verify_data.as_slice(), 0, self.verify_data.len());
        assert(out@ =~= self.verify_data@);
        out
    }

    /// Reads the body of the message: 12 bytes.
    pub fn decode(buf: &[u8]) -> (r: DtlsResult<Self>)
        ensures
            match r {
                Ok(f) => buf@.len() == 12 && f.verify_data@ == buf@,
                Err(e) => buf@.len() != 12 && e == DtlsError::Malformed("Finished"),
            },
    {
        if buf.len() != 12 {
            return Err(DtlsError::Malformed("Finished"));
        }
        let verify_data = wire::copy_range(buf, 0, 12);
        assert(verify_data@ =~= buf@);
        Ok(Finished { verify_data })
    }
}

proof fn lemma_client_hello_parts(h: ClientHelloView)
    requires
        h.random.len() == 32,
    ensures
        ({
            let s = client_hello_bytes(h);
            let a = 35 + h.session_id.len();
            let b = a + 1 + h.cookie.len();
            let c = b + 2 + enc16s(h.cipher_suites).len();
            let d = c + 1 + h.compression_methods.len();
            let e = d + 2 + h.extensions.len();
            &&& s.len() == e
            &&& s[0] == h.version.major
            &&& s[1] == h.version.minor
            &&& s.subrange(2, 34) == h.random
            &&& s.subrange(34, a as int) == enc_vec8(h.session_id)
            &&& s.subrange(a as int, b as int) == enc_vec8(h.cookie)
            &&& s.subrange(b as int, c as int) == enc_vec16(enc16s(h.cipher_suites))
            &&& s.subrange(c as int, d as int) == enc_vec8(h.compression_methods)
            &&& s.subrange(d as int, e as int) == enc_vec16(h.extensions)
        }),
{
    let s = client_hello_bytes(h);
    let a = (35 + h.session_id.len()) as int;
    let b = a + 1 + h.cookie.len();
    let c = b + 2 + enc16s(h.cipher_suites).len();
    let d = c + 1 + h.compression_methods.len();
    let e = d + 2 + h.extensions.len();
    assert(s.subrange(2, 34) =~= h.random);
    assert(s.subrange(34, a) =~= enc_vec8(h.session_id));
    assert(s.subrange(a, b) =~= enc_vec8(h.cookie));
    assert(s.subrange(b, c) =~= enc_vec16(enc16s(h.cipher_suites)));
    assert(s.subrange(c, d) =~= enc_vec8(h.compression_methods));
    assert(s.subrange(d, e) =~= enc_vec16(h.extensions));
}

/// A client's hello whose parts fit their length fields is read back as it was written.
pub proof fn law_decode_of_client_hello(h: ClientHelloView)
    requires
        h.random.len() == 32,
        h.session_id.len() < 256,
        h.cookie.len() < 256,
        h.cipher_suites.len() < 0x8000,
        h.compression_methods.len() < 256,
        h.extensions.len() < 0x1_0000,
    ensures
        client_hello_decoded(client_hello_bytes(h)) == Some(h),
        client_hello_bytes(h).len() == 41 + h.session_id.len() + h.cookie.len() + 2
            * h.cipher_suites.len() + h.compression_methods.len() + h.extensions.len(),
{
    let s = client_hello_bytes(h);
    let a = (35 + h.session_id.len()) as int;
    let b = a + 1 + h.cookie.len();
    let c = b + 2 + enc16s(h.cipher_suites).len();
    let d = c + 1 + h.compression_methods.len();
    lemma_client_hello_parts(h);
    lemma_u16s(h.cipher_suites);
    lemma_vec8(s, 34, h.session_id);
    lemma_vec8(s, a, h.cookie);
    lemma_vec16(s, b, enc16s(h.cipher_suites));
    lemma_vec8(s, c, h.compression_methods);
    lemma_vec16(s, d, h.extensions);
}

proof fn lemma_server_hello_parts(h: ServerHelloView)
    requires
        h.random.len() == 32,
    ensures
        ({
            let s = server_hello_bytes(h);
            let a = (35 + h.session_id.len()) as int;
            let e = a + 5 + h.extensions.len();
            &&& s.len() == e
            &&& s[0] == h.version.major
            &&& s[1] == h.version.minor
            &&& s.subrange(2, 34) == h.random
            &&& s.subrange(34, a as int) == enc_vec8(h.session_id)
            &&& s.subrange(a as int, a + 2) == wire::enc16(h.cipher_suite)
            &&& s[a + 2] == h.compression_method
            &&& s.subrange(a + 3, e as int) == enc_vec16(h.extensions)
        }),
{
    let s = server_hello_bytes(h);
    let a = (35 + h.session_id.len()) as int;
    let e = a + 5 + h.extensions.len();
    assert(s.subrange(2, 34) =~= h.random);
    assert(s.subrange(34, a) =~= enc_vec8(h.session_id));
    assert(s.subrange(a, a + 2) =~= wire::enc16(h.cipher_suite));
    assert(s.subrange(a + 3, e) =~= enc_vec16(h.extensions));
}

/// A server's hello whose parts fit their length fields is read back as it was written.
pub proof fn law_decode_of_server_hello(h: ServerHelloView)
    requires
        h.random.len() == 32,
        h.session_id.len() < 256,
        h.extensions.len() < 0x1_0000,
    ensures
        server_hello_decoded(server_hello_bytes(h)) == Some(h),
        server_hello_bytes(h).len() == 40 + h.session_id.len() + h.extensions.len(),
{
    let s = server_hello_bytes(h);
    let a = (35 + h.session_id.len()) as int;
    lemma_server_hello_parts(h);
    lemma_vec8(s, 34, h.session_id);
    wire::lemma_be16_enc16(s, a, h.cipher_suite);
    lemma_vec16(s, a + 3, h.extensions);
}

/// The public keys of both shares of the key exchange are read back as they were written.
pub proof fn law_decode_of_key_exchange(
    curve_type: u8,
    named_curve: u16,
    public_key: Seq<u8>,
    signature: Seq<u8>,
)
    requires
        public_key.len() < 256,
        signature.len() < 0x1_0000,
    ensures
        client_public_key(client_key_exchange_bytes(public_key)) == Some(public_key),
        client_key_exchange_bytes(public_key).len() == 1 + public_key.len(),
        server_public_key(
            server_key_exchange_bytes(curve_type, named_curve, public_key, signature),
        ) == Some(public_key),
        server_key_exchange_bytes(curve_type, named_curve, public_key, signature).len() == 8
            + public_key.len() + signature.len(),
{
    let c = client_key_exchange_bytes(public_key);
    assert(c.subrange(0, (1 + public_key.len()) as int) =~= enc_vec8(public_key));
    lemma_vec8(c, 0, public_key);
    let s = server_key_exchange_bytes(curve_type, named_curve, public_key, signature);
    let a = (4 + public_key.len()) as int;
    let e = a + 4 + signature.len();
    assert(s.len() == e);
    assert(s.subrange(3, a) =~= enc_vec8(public_key));
    assert(s.subrange(a + 2, e) =~= enc_vec16(signature));
    lemma_vec8(s, 3, public_key);
    lemma_vec16(s, a + 2, signature);
}

} // verus!
