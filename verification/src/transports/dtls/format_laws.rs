//! What the bytes of records and handshake messages stand for (RFC 5246, RFC 6347).
use vstd::prelude::*;

use crate::transports::dtls::error::DtlsError;
use crate::transports::dtls::handshake;
use crate::transports::dtls::handshake::{
    ClientHelloView, HandshakeType, MessageView, ServerHelloView,
};
use crate::transports::dtls::key_laws;
use crate::transports::dtls::record;
use crate::transports::dtls::record::{ContentType, ProtocolVersion, RecordView};
use crate::wire;

verus! {

/// The content types and their numbers; other numbers are refused.
pub proof fn law_content_types(t: ContentType, n: u8)
    ensures
        t.code() == key_laws::type_number(t),
        ContentType::of_code(t.code()) == Ok::<ContentType, DtlsError>(t),
        n < 20 || n > 24 ==> ContentType::of_code(n) == Err::<ContentType, DtlsError>(
            DtlsError::InvalidContentType(n),
        ),
{
}

/// The numbers of the handshake messages on the wire.
pub open spec fn message_number(t: HandshakeType) -> u8 {
    match t {
        HandshakeType::HelloRequest => 0,
        HandshakeType::ClientHello => 1,
        HandshakeType::ServerHello => 2,
        HandshakeType::HelloVerifyRequest => 3,
        HandshakeType::Certificate => 11,
        HandshakeType::ServerKeyExchange => 12,
        HandshakeType::CertificateRequest => 13,
        HandshakeType::ServerHelloDone => 14,
        HandshakeType::CertificateVerify => 15,
        HandshakeType::ClientKeyExchange => 16,
        HandshakeType::Finished => 20,
    }
}

/// The handshake messages and their numbers.
pub proof fn law_handshake_types(t: HandshakeType)
    ensures
        t.code() == message_number(t),
        HandshakeType::of_code(t.code()) == Ok::<HandshakeType, DtlsError>(t),
{
}

/// A record: its type, its version, its epoch, six bytes of sequence number, the length of its
/// payload, and the payload. What follows is not part of it.
pub proof fn law_record_is_read(
    t: ContentType,
    version: ProtocolVersion,
    epoch: u16,
    high: u16,
    low: u32,
    payload: Seq<u8>,
    rest: Seq<u8>,
)
    requires
        payload.len() < 0x1_0000,
    ensures
        ({
            let s = seq![key_laws::type_number(t), version.major, version.minor] + wire::enc16(
                epoch,
            ) + wire::enc16(high) + wire::enc32(low) + wire::enc16(payload.len() as u16) + payload
                + rest;
            &&& record::record_decoded(s) == Ok::<Option<RecordView>, DtlsError>(
                Some(
                    RecordView {
                        content_type: t,
                        version,
                        epoch,
                        sequence_number: (high * 0x1_0000_0000 + low) as u64,
                        payload,
                    },
                ),
            )
            &&& s.skip(record::record_len(s)) == rest
        }),
{
    let h = seq![key_laws::type_number(t), version.major, version.minor] + wire::enc16(epoch)
        + wire::enc16(high) + wire::enc32(low) + wire::enc16(payload.len() as u16);
    let s = h + payload + rest;
    lemma_record_header(t, version, epoch, high, low, payload.len() as u16);
    assert(forall|i: int| 0 <= i < 13 ==> s[i] == h[i]);
    assert(wire::be16(s, 3) == wire::be16(h, 3));
    assert(wire::be16(s, 5) == wire::be16(h, 5));
    assert(wire::be32(s, 7) == wire::be32(h, 7));
    assert(wire::be16(s, 11) == wire::be16(h, 11));
    assert(s.subrange(13, 13 + payload.len() as int) =~= payload);
    assert(s.skip(13 + payload.len() as int) =~= rest);
}

proof fn lemma_record_header(
    t: ContentType,
    version: ProtocolVersion,
    epoch: u16,
    high: u16,
    low: u32,
    len: u16,
)
    ensures
        ({
            let h = seq![key_laws::type_number(t), version.major, version.minor] + wire::enc16(
                epoch,
            ) + wire::enc16(high) + wire::enc32(low) + wire::enc16(len);
            &&& h.len() == 13
            &&& h[0] == key_laws::type_number(t)
            &&& h[1] == version.major
            &&& h[2] == version.minor
            &&& wire::be16(h, 3) == epoch
            &&& wire::be16(h, 5) == high
            &&& wire::be32(h, 7) == low
            &&& wire::be16(h, 11) == len
        }),
{
    let h = seq![key_laws::type_number(t), version.major, version.minor] + wire::enc16(epoch)
        + wire::enc16(high) + wire::enc32(low) + wire::enc16(len);
    assert(h.subrange(3, 5) =~= wire::enc16(epoch));
    wire::lemma_be16_enc16(h, 3, epoch);
    assert(h.subrange(5, 7) =~= wire::enc16(high));
    wire::lemma_be16_enc16(h, 5, high);
    assert(h.subrange(7, 11) =~= wire::enc32(low));
    wire::lemma_be32_enc32(h, 7, low);
    assert(h.subrange(11, 13) =~= wire::enc16(len));
    wire::lemma_be16_enc16(h, 11, len);
}

/// A handshake message in one piece: its type, its length, its number, the place and the length of
/// the piece, and its body.
pub proof fn law_message_is_read(t: HandshakeType, number: u16, body: Seq<u8>, rest: Seq<u8>)
    requires
        body.len() < 0x100_0000,
    ensures
        ({
            let n = body.len() as u32;
            let s = seq![message_number(t)] + wire::enc24(n) + wire::enc16(number) + wire::enc24(0)
                + wire::enc24(n) + body + rest;
            &&& handshake::message_decoded(s) == Ok::<Option<MessageView>, DtlsError>(
                Some(
                    MessageView {
                        msg_type: t,
                        message_seq: number,
                        fragment_offset: 0,
                        fragment_length: n,
                        body,
                    },
                ),
            )
            &&& handshake::message_len(s) == 12 + body.len()
        }),
        ({
            let n = body.len() as u32;
            handshake::message_bytes(handshake::whole_message(t, number, body)) == seq![
                message_number(t),
            ] + wire::enc24(n) + wire::enc16(number) + wire::enc24(0) + wire::enc24(n) + body
        }),
{
    let n = body.len() as u32;
    let h = seq![message_number(t)] + wire::enc24(n) + wire::enc16(number) + wire::enc24(0)
        + wire::enc24(n);
    let s = h + body + rest;
    assert(h.len() == 12);
    assert(h.subrange(4, 6) =~= wire::enc16(number));
    wire::lemma_be16_enc16(h, 4, number);
    assert(h.subrange(6, 9) =~= wire::enc24(0));
    wire::lemma_be24_enc24(h, 6, 0);
    assert(h.subrange(9, 12) =~= wire::enc24(n));
    wire::lemma_be24_enc24(h, 9, n);
    assert(forall|i: int| 0 <= i < 12 ==> s[i] == h[i]);
    assert(wire::be16(s, 4) == wire::be16(h, 4));
    assert(wire::be24(s, 6) == wire::be24(h, 6));
    assert(wire::be24(s, 9) == wire::be24(h, 9));
    assert(s.subrange(12, 12 + body.len() as int) =~= body);
}

/// A client's hello: the version, the random value, and then, each with its length before it, the
/// session, the cookie, the cipher suites, the compression methods and the extensions.
pub proof fn law_client_hello_layout(h: ClientHelloView)
    requires
        h.random.len() == 32,
        h.session_id.len() < 256,
        h.cookie.len() < 256,
        h.cipher_suites.len() == 1,
        h.compression_methods.len() < 256,
        h.extensions.len() < 0x1_0000,
    ensures
        handshake::client_hello_bytes(h) == seq![h.version.major, h.version.minor] + h.random
            + seq![h.session_id.len() as u8] + h.session_id + seq![h.cookie.len() as u8] + h.cookie
            + seq![0u8, 2] + wire::enc16(h.cipher_suites[0]) + seq![
            h.compression_methods.len() as u8,
        ] + h.compression_methods + wire::enc16(h.extensions.len() as u16) + h.extensions,
        handshake::client_hello_decoded(handshake::client_hello_bytes(h)) == Some(h),
{
    handshake::law_decode_of_client_hello(h);
    let one = h.cipher_suites;
    assert(one.drop_last() =~= seq![]);
    assert(handshake::enc16s(one.drop_last()) =~= seq![]);
    assert(handshake::enc16s(one) =~= wire::enc16(one[0]));
    assert(handshake::enc_vec16(handshake::enc16s(one)) =~= seq![0u8, 2] + wire::enc16(one[0]));
    assert(handshake::client_hello_bytes(h) =~= seq![h.version.major, h.version.minor] + h.random
        + seq![h.session_id.len() as u8] + h.session_id + seq![h.cookie.len() as u8] + h.cookie
        + seq![0u8, 2] + wire::enc16(h.cipher_suites[0]) + seq![h.compression_methods.len() as u8]
        + h.compression_methods + wire::enc16(h.extensions.len() as u16) + h.extensions);
}

/// A server's hello: the version, the random value, the session with its length before it, the
/// cipher suite, the compression method, and the extensions with their length before them.
pub proof fn law_server_hello_layout(h: ServerHelloView)
    requires
        h.random.len() == 32,
        h.session_id.len() < 256,
        h.extensions.len() < 0x1_0000,
    ensures
        handshake::server_hello_bytes(h) == seq![h.version.major, h.version.minor] + h.random
            + seq![h.session_id.len() as u8] + h.session_id + wire::enc16(h.cipher_suite) + seq![
            h.compression_method,
        ] + wire::enc16(h.extensions.len() as u16) + h.extensions,
        handshake::server_hello_decoded(handshake::server_hello_bytes(h)) == Some(h),
{
    handshake::law_decode_of_server_hello(h);
    assert(handshake::server_hello_bytes(h) =~= seq![h.version.major, h.version.minor] + h.random
        + seq![h.session_id.len() as u8] + h.session_id + wire::enc16(h.cipher_suite) + seq![
        h.compression_method,
    ] + wire::enc16(h.extensions.len() as u16) + h.extensions);
}

/// A certificate message with one certificate: three bytes of length, twice, and the certificate.
pub proof fn law_certificate_layout(cert: Seq<u8>)
    requires
        cert.len() < 0xFF_FFF0,
    ensures
        handshake::certificate_bytes(seq![cert]) == wire::enc24((cert.len() + 3) as u32)
            + wire::enc24(cert.len() as u32) + cert,
{
    let one = seq![cert];
    assert(one.drop_last() =~= seq![]);
    assert(handshake::certificate_list(one.drop_last()) =~= seq![]);
    assert(handshake::certificate_list(one) =~= wire::enc24(cert.len() as u32) + cert);
    assert(handshake::certificate_bytes(one) =~= wire::enc24((cert.len() + 3) as u32) + wire::enc24(
        cert.len() as u32,
    ) + cert);
}

/// Both shares of the key exchange, as they are read: a length and the key; the server's after the
/// kind of curve and the curve.
pub proof fn law_shares_are_read(
    kind: u8,
    curve: u16,
    key: Seq<u8>,
    scheme: Seq<u8>,
    signature: Seq<u8>,
)
    requires
        key.len() < 256,
        scheme.len() == 2,
        signature.len() < 0x1_0000,
    ensures
        handshake::client_public_key(seq![key.len() as u8] + key) == Some(key),
        handshake::server_public_key(
            seq![kind] + wire::enc16(curve) + seq![key.len() as u8] + key + scheme + wire::enc16(
                signature.len() as u16,
            ) + signature,
        ) == Some(key),
{
    let c = seq![key.len() as u8] + key;
    assert(c.subrange(1, 1 + key.len() as int) =~= key);
    let s = seq![kind] + wire::enc16(curve) + seq![key.len() as u8] + key + scheme + wire::enc16(
        signature.len() as u16,
    ) + signature;
    let a = 4 + key.len() as int;
    assert(s[3] == key.len());
    assert(s.subrange(4, a) =~= key);
    assert(s.subrange(a + 2, a + 4) =~= wire::enc16(signature.len() as u16));
    wire::lemma_be16_enc16(s, a + 2, signature.len() as u16);
}

/// The SRTP profiles of a client: those that the `use_srtp` extension lists, in order, wherever it
/// stands among the extensions.
pub proof fn law_profiles_are_read(
    number: u16,
    data: Seq<u8>,
    first: u16,
    second: u16,
    rest: Seq<u8>,
)
    requires
        number != 14,
        data.len() < 0x1_0000,
    ensures
        ({
            let list = seq![0u8, 14, 0, 7, 0, 4] + wire::enc16(first) + wire::enc16(second) + seq![
                0u8,
            ];
            let other = wire::enc16(number) + wire::enc16(data.len() as u16) + data;
            &&& handshake::srtp_profiles(list + rest) == seq![first, second]
                + handshake::srtp_profiles(rest)
            &&& handshake::srtp_profiles(other + rest) == handshake::srtp_profiles(rest)
        }),
{
    let list = seq![0u8, 14, 0, 7, 0, 4] + wire::enc16(first) + wire::enc16(second) + seq![0u8];
    let s = list + rest;
    assert(wire::be16(s, 0) == 14);
    assert(wire::be16(s, 2) == 7);
    let d = s.subrange(4, 11);
    assert(d =~= seq![0u8, 4] + wire::enc16(first) + wire::enc16(second) + seq![0u8]);
    assert(wire::be16(d, 0) == 4);
    assert(d.subrange(2, 4) =~= wire::enc16(first));
    wire::lemma_be16_enc16(d, 2, first);
    assert(d.subrange(4, 6) =~= wire::enc16(second));
    wire::lemma_be16_enc16(d, 4, second);
    assert(handshake::profile_list(d) =~= seq![first, second]);
    assert(s.skip(11) =~= rest);
    lemma_other_extension(number, data, rest);
}

proof fn lemma_other_extension(number: u16, data: Seq<u8>, rest: Seq<u8>)
    requires
        number != 14,
        data.len() < 0x1_0000,
    ensures
        handshake::srtp_profiles(
            wire::enc16(number) + wire::enc16(data.len() as u16) + data + rest,
        ) == handshake::srtp_profiles(rest),
{
    let n = data.len() as int;
    let s = wire::enc16(number) + wire::enc16(data.len() as u16) + data + rest;
    assert(s.subrange(0, 2) =~= wire::enc16(number));
    wire::lemma_be16_enc16(s, 0, number);
    assert(s.subrange(2, 4) =~= wire::enc16(data.len() as u16));
    wire::lemma_be16_enc16(s, 2, data.len() as u16);
    assert(s.skip(4 + n) =~= rest);
    let none: Seq<u16> = seq![];
    assert(none + handshake::srtp_profiles(rest) =~= handshake::srtp_profiles(rest));
}

/// A record or a message that is not whole is waited for; one of an unknown type is refused.
pub proof fn law_incomplete_is_waited_for(s: Seq<u8>)
    ensures
        s.len() < 13 ==> record::record_decoded(s) == Ok::<Option<RecordView>, DtlsError>(None),
        s.len() >= 13 && 20 <= s[0] <= 24 && s.len() < 13 + wire::be16(s, 11)
            ==> record::record_decoded(s) == Ok::<Option<RecordView>, DtlsError>(None),
        s.len() >= 13 && !(20 <= s[0] <= 24) ==> record::record_decoded(s) == Err::<
            Option<RecordView>,
            DtlsError,
        >(DtlsError::InvalidContentType(s[0])),
        s.len() < 12 ==> handshake::message_decoded(s) == Ok::<Option<MessageView>, DtlsError>(
            None,
        ),
        s.len() >= 12 && HandshakeType::of_code(s[0]) is Ok && s.len() < 12 + wire::be24(s, 9)
            ==> handshake::message_decoded(s) == Ok::<Option<MessageView>, DtlsError>(None),
        s.len() >= 12 && (4 <= s[0] <= 10 || 17 <= s[0] <= 19 || s[0] > 20)
            ==> handshake::message_decoded(s) is Err,
{
}

} // verus!
