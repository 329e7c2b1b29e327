//! What the messages of a handshake say, as the other end reads them.
use vstd::prelude::*;
use vstd::string::*;

use crate::crypto;
use crate::transports::dtls::error::DtlsError;
use crate::transports::dtls::handshake;
use crate::transports::dtls::handshake::{
    ClientHelloView, HandshakeType, MessageView, ServerHelloView,
};
use crate::transports::dtls::keys;
use crate::transports::dtls::record;
use crate::transports::dtls::record::{ContentType, ProtocolVersion, RecordView};
use crate::transports::dtls::session;
use crate::transports::dtls::session::{ActionView, SessionView, StateView};
use crate::wire;

verus! {

/// The record that is sent.
pub open spec fn record_in(a: ActionView) -> Option<RecordView> {
    match a {
        ActionView::Send(d) => match record::record_decoded(d) {
            Ok(r) => r,
            Err(_) => None,
        },
        ActionView::Deliver(_) => None,
    }
}

/// The handshake message that is sent in the clear.
pub open spec fn message_in(a: ActionView) -> Option<MessageView> {
    match record_in(a) {
        Some(r) => if r.content_type == ContentType::Handshake && r.epoch == 0 {
            match handshake::message_decoded(r.payload) {
                Ok(m) => m,
                Err(_) => None,
            }
        } else {
            None
        },
        None => None,
    }
}

/// The client's hello that is sent.
pub open spec fn client_hello_in(a: ActionView) -> Option<ClientHelloView> {
    match message_in(a) {
        Some(m) => if m.msg_type == HandshakeType::ClientHello {
            handshake::client_hello_decoded(m.body)
        } else {
            None
        },
        None => None,
    }
}

/// The server's hello that is sent.
pub open spec fn server_hello_in(a: ActionView) -> Option<ServerHelloView> {
    match message_in(a) {
        Some(m) => if m.msg_type == HandshakeType::ServerHello {
            handshake::server_hello_decoded(m.body)
        } else {
            None
        },
        None => None,
    }
}

/// The data of the first extension with this number.
pub open spec fn extension_in(s: Seq<u8>, number: u16) -> Option<Seq<u8>>
    decreases s.len(),
{
    if s.len() < 4 || s.len() < 4 + wire::be16(s, 2) {
        None
    } else if wire::be16(s, 0) == number {
        Some(s.subrange(4, 4 + wire::be16(s, 2)))
    } else {
        extension_in(s.skip(4 + wire::be16(s, 2)), number)
    }
}

/// A message in the clear is read as it was sent: whole, in the place that `s` gives it, in a
/// record of DTLS 1.2.
pub proof fn law_clear_is_read(s: SessionView, t: HandshakeType, body: Seq<u8>)
    requires
        s.epoch == 0,
        s.sequence_number < 0x1_0000_0000_0000,
        body.len() < 0xFF00,
    ensures
        record_in(session::clear(s, t, body)) == Some(
            RecordView {
                content_type: ContentType::Handshake,
                version: ProtocolVersion { major: 254, minor: 253 },
                epoch: 0,
                sequence_number: s.sequence_number,
                payload: session::message_of(s, t, body),
            },
        ),
        message_in(session::clear(s, t, body)) == Some(
            MessageView {
                msg_type: t,
                message_seq: s.message_seq,
                fragment_offset: 0,
                fragment_length: body.len() as u32,
                body,
            },
        ),
{
    reveal(session::message_of);
    reveal(session::record_of);
    let raw = session::message_of(s, t, body);
    let m = handshake::whole_message(t, s.message_seq, body);
    let none: Seq<u8> = seq![];
    assert(raw + none =~= raw);
    handshake::law_decode_of_message(m, none);
    assert(raw.len() == 12 + body.len());
    let r = RecordView {
        content_type: ContentType::Handshake,
        version: ProtocolVersion { major: 254, minor: 253 },
        epoch: 0,
        sequence_number: s.sequence_number,
        payload: raw,
    };
    let d = record::record_bytes(r);
    assert(d + none =~= d);
    record::law_decode_of_encoded(r, none);
}

/// The hello that a client makes of a random value and a cookie: version 1.2, no session to go on
/// with, the one cipher suite (ECDHE with ECDSA, AES-128-GCM and SHA-256), no compression, and the
/// curve and the point format of the key exchange.
pub open spec fn hello_of(random: Seq<u8>, cookie: Seq<u8>, h: ClientHelloView) -> bool {
    &&& h.version == (ProtocolVersion { major: 254, minor: 253 })
    &&& h.random == random
    &&& h.session_id.len() == 0
    &&& h.cookie == cookie
    &&& h.cipher_suites == seq![0xC02Bu16]
    &&& h.compression_methods == seq![0u8]
    &&& extension_in(h.extensions, 10) == Some(seq![0u8, 2, 0, 23])
    &&& extension_in(h.extensions, 11) == Some(seq![1u8, 0])
}

proof fn lemma_hello_read(random: Seq<u8>, cookie: Seq<u8>)
    requires
        random.len() == 32,
        cookie.len() < 256,
    ensures
        handshake::client_hello_decoded(session::client_hello(random, cookie)) matches Some(h)
            && hello_of(random, cookie, h),
        session::client_hello(random, cookie).len() < 0xFF00,
{
    reveal(session::client_hello);
    let h = ClientHelloView {
        version: ProtocolVersion { major: 254, minor: 253 },
        random,
        session_id: seq![],
        cookie,
        cipher_suites: seq![0xC02Bu16],
        compression_methods: seq![0u8],
        extensions: session::client_extensions(),
    };
    handshake::law_decode_of_client_hello(h);
    lemma_client_extensions();
}

proof fn lemma_client_extensions()
    ensures
        extension_in(session::client_extensions(), 10) == Some(seq![0u8, 2, 0, 23]),
        extension_in(session::client_extensions(), 11) == Some(seq![1u8, 0]),
        session::client_extensions().len() == 14,
{
    let e = session::client_extensions();
    assert(wire::be16(e, 0) == 10);
    assert(wire::be16(e, 2) == 4);
    assert(e.subrange(4, 8) =~= seq![0u8, 2, 0, 23]);
    let f = e.skip(8);
    assert(f =~= seq![0u8, 11, 0, 2, 1, 0]);
    assert(wire::be16(f, 0) == 11);
    assert(wire::be16(f, 2) == 2);
    assert(f.subrange(4, 6) =~= seq![1u8, 0]);
    assert(extension_in(f, 11) == Some(seq![1u8, 0]));
    assert(extension_in(e, 11) == extension_in(f, 11));
}

/// A client starts with one datagram, its hello with the random value and no cookie. A server
/// waits.
pub proof fn law_client_starts(s: SessionView, random: Seq<u8>)
    requires
        random.len() == 32,
        s.epoch == 0,
        s.sequence_number < 0xFFFF_FFFF_FFFF,
    ensures
        ({
            let step = session::started(s, random);
            &&& step.error is None
            &&& step.session.state == StateView::Handshaking
            &&& !s.is_client ==> step.actions.len() == 0
            &&& s.is_client ==> {
                &&& step.actions.len() == 1
                &&& client_hello_in(step.actions[0]) matches Some(h) && hello_of(
                    random,
                    Seq::<u8>::empty(),
                    h,
                )
                &&& step.session.client_random == Some(random)
                &&& step.session.sequence_number == s.sequence_number + 1
                &&& step.session.message_seq == session::next16(s.message_seq)
                &&& step.session.transcript == s.transcript + record_in(step.actions[0])->0.payload
                &&& step.actions[0] == ActionView::Send(step.session.last_flight->0)
            }
        }),
{
    if s.is_client {
        let c = SessionView {
            state: StateView::Handshaking,
            client_random: Some(random),
            ..s
        };
        lemma_hello_read(random, seq![]);
        law_clear_is_read(
            c,
            HandshakeType::ClientHello,
            session::client_hello(random, seq![]),
        );
    }
}

/// A request to repeat the hello is answered with one datagram: the hello of before, with the
/// cookie of the request and the same random value, as the next message. It starts the transcript
/// anew: neither the first hello nor the request counts.
pub proof fn law_cookie_is_returned(
    s: SessionView,
    first: Seq<u8>,
    version: ProtocolVersion,
    cookie: Seq<u8>,
    m: MessageView,
    raw: Seq<u8>,
    random: Seq<u8>,
)
    requires
        s.client_random == Some(first),
        first.len() == 32,
        s.epoch == 0,
        s.sequence_number < 0xFFFF_FFFF_FFFF,
        m.msg_type == HandshakeType::HelloVerifyRequest,
        cookie.len() < 256,
        m.body == seq![version.major, version.minor, cookie.len() as u8] + cookie,
    ensures
        ({
            let step = session::on_message(s, m, raw, random);
            &&& step.error is None
            &&& step.actions.len() == 1
            &&& client_hello_in(step.actions[0]) matches Some(h) && hello_of(first, cookie, h)
            &&& message_in(step.actions[0])->0.message_seq == s.message_seq
            &&& record_in(step.actions[0])->0.sequence_number == s.sequence_number
            &&& step.session == (SessionView {
                transcript: record_in(step.actions[0])->0.payload,
                sequence_number: (s.sequence_number + 1) as u64,
                message_seq: session::next16(s.message_seq),
                ..s
            })
        }),
{
    reveal(session::on_message);
    let body = m.body;
    assert(body[2] == cookie.len());
    assert(body.subrange(3, 3 + cookie.len() as int) =~= cookie);
    assert(handshake::hello_verify_cookie(body) == Some(cookie));
    let c = SessionView { transcript: seq![], ..s };
    let hello = session::client_hello(first, cookie);
    lemma_hello_read(first, cookie);
    law_clear_is_read(c, HandshakeType::ClientHello, hello);
    let step = session::on_message(s, m, raw, random);
    assert(step.actions[0] == session::clear(c, HandshakeType::ClientHello, hello));
    let none: Seq<u8> = seq![];
    let sent = session::message_of(c, HandshakeType::ClientHello, hello);
    assert(none + sent =~= sent);
}

/// The two hellos of a client whose first was answered with a cookie differ in the cookie alone.
pub proof fn law_hellos_agree(
    s: SessionView,
    random: Seq<u8>,
    version: ProtocolVersion,
    cookie: Seq<u8>,
    m: MessageView,
    raw: Seq<u8>,
    other: Seq<u8>,
)
    requires
        s.is_client,
        random.len() == 32,
        s.epoch == 0,
        s.sequence_number < 0xFFFF_FFFF_FFFE,
        m.msg_type == HandshakeType::HelloVerifyRequest,
        cookie.len() < 256,
        m.body == seq![version.major, version.minor, cookie.len() as u8] + cookie,
    ensures
        ({
            let first = session::started(s, random);
            let second = session::on_message(first.session, m, raw, other);
            client_hello_in(first.actions[0]) matches Some(a) && (client_hello_in(
                second.actions[0],
            ) matches Some(b) && a.random == b.random && a.random == random && a.cookie.len() == 0
                && b.cookie == cookie && a.cipher_suites == b.cipher_suites)
        }),
{
    law_client_starts(s, random);
    let first = session::started(s, random);
    law_cookie_is_returned(first.session, random, version, cookie, m, raw, other);
}

/// The extensions of a server's answer: the point format and the empty renegotiation info always,
/// and the first of the SRTP profiles that the client offered, alone, where it offered any.
#[verifier::rlimit(40)]
proof fn lemma_server_extensions(profiles: Seq<u16>)
    ensures
        ({
            let e = session::server_extensions(profiles);
            &&& e.len() <= 20
            &&& extension_in(e, 11) == Some(seq![1u8, 0])
            &&& extension_in(e, 0xFF01) == Some(seq![0u8])
            &&& profiles.len() == 0 ==> extension_in(e, 14) is None
            &&& profiles.len() > 0 ==> (extension_in(e, 14) matches Some(d) && d.len() == 5
                && wire::be16(d, 0) == 2 && wire::be16(d, 2) == profiles[0] && d[4] == 0)
        }),
{
    let e = session::server_extensions(profiles);
    assert(wire::be16(e, 0) == 11);
    assert(wire::be16(e, 2) == 2);
    assert(e.subrange(4, 6) =~= seq![1u8, 0]);
    let f = e.skip(6);
    assert(wire::be16(f, 0) == 0xFF01);
    assert(wire::be16(f, 2) == 1);
    assert(f.subrange(4, 5) =~= seq![0u8]);
    assert(extension_in(f, 0xFF01) == Some(seq![0u8]));
    assert(extension_in(e, 0xFF01) == extension_in(f, 0xFF01));
    let g = f.skip(5);
    assert(extension_in(f, 14) == extension_in(g, 14));
    assert(extension_in(e, 14) == extension_in(f, 14));
    if profiles.len() == 0 {
        assert(g.len() == 0);
    } else {
        assert(g =~= seq![0u8, 14, 0, 5, 0, 2] + wire::enc16(profiles[0]) + seq![0u8]);
        assert(wire::be16(g, 0) == 14);
        assert(wire::be16(g, 2) == 5);
        let d = g.subrange(4, 9);
        assert(d =~= seq![0u8, 2] + wire::enc16(profiles[0]) + seq![0u8]);
        assert(d.subrange(2, 4) =~= wire::enc16(profiles[0]));
        wire::lemma_be16_enc16(d, 2, profiles[0]);
        assert(wire::be16(d, 0) == 2);
        assert(extension_in(g, 14) == Some(d));
    }
}

/// The hello that a server makes of the client's: version 1.2, in the client's session, with the
/// one cipher suite and no compression, and with the first of the SRTP profiles that the client
/// offered, where it offered any.
#[verifier::opaque]
pub open spec fn answer_of(h: ClientHelloView, random: Seq<u8>, a: ServerHelloView) -> bool {
    let profiles = handshake::srtp_profiles(h.extensions);
    &&& a.version == (ProtocolVersion { major: 254, minor: 253 })
    &&& a.random == random
    &&& a.session_id == h.session_id
    &&& a.cipher_suite == 0xC02B
    &&& a.compression_method == 0
    &&& extension_in(a.extensions, 11) == Some(seq![1u8, 0])
    &&& extension_in(a.extensions, 0xFF01) == Some(seq![0u8])
    &&& profiles.len() == 0 ==> extension_in(a.extensions, 14) is None
    &&& profiles.len() > 0 ==> (extension_in(a.extensions, 14) matches Some(d) && d.len() == 5
        && wire::be16(d, 0) == 2 && wire::be16(d, 2) == profiles[0] && d[4] == 0)
}

proof fn lemma_answer_read(h: ClientHelloView, random: Seq<u8>)
    requires
        random.len() == 32,
        h.session_id.len() < 256,
    ensures
        handshake::server_hello_decoded(session::server_hello(h, random)) matches Some(a)
            && answer_of(h, random, a),
        session::server_hello(h, random).len() < 0xFF00,
{
    reveal(session::server_hello);
    reveal(answer_of);
    let profiles = handshake::srtp_profiles(h.extensions);
    lemma_server_extensions(profiles);
    handshake::law_decode_of_server_hello(
        ServerHelloView {
            version: ProtocolVersion { major: 254, minor: 253 },
            random,
            session_id: h.session_id,
            cipher_suite: 0xC02B,
            compression_method: 0,
            extensions: session::server_extensions(profiles),
        },
    );
}

/// The share of a server in the key exchange: its public key on the curve secp256r1, and a
/// signature with ECDSA and SHA-256.
#[verifier::opaque]
pub open spec fn is_share(body: Seq<u8>, public_key: Seq<u8>, signature: Seq<u8>) -> bool {
    &&& handshake::server_public_key(body) == Some(public_key)
    &&& body[0] == 3
    &&& wire::be16(body, 1) == 23
    &&& body[3] == public_key.len()
    &&& body.skip(4 + public_key.len() as int) == seq![4u8, 3] + wire::enc16(
        signature.len() as u16,
    ) + signature
}

proof fn lemma_share(public_key: Seq<u8>, signature: Seq<u8>)
    requires
        public_key.len() < 256,
        signature.len() < 0x1_0000,
    ensures
        is_share(
            handshake::server_key_exchange_bytes(3, 23, public_key, signature),
            public_key,
            signature,
        ),
        handshake::server_key_exchange_bytes(3, 23, public_key, signature).len() == 8
            + public_key.len() + signature.len(),
{
    reveal(is_share);
    let b = handshake::server_key_exchange_bytes(3, 23, public_key, signature);
    handshake::law_decode_of_key_exchange(3, 23, public_key, signature);
    assert(b.subrange(1, 3) =~= wire::enc16(23));
    wire::lemma_be16_enc16(b, 1, 23);
    assert(b.skip(4 + public_key.len() as int) =~= seq![4u8, 3] + wire::enc16(
        signature.len() as u16,
    ) + signature);
}

/// What a server signs: both random values, and its public key as it stands in its share.
pub open spec fn to_sign(client: Seq<u8>, server: Seq<u8>, public_key: Seq<u8>) -> Seq<u8> {
    client + server + seq![3u8, 0, 23, public_key.len() as u8] + public_key
}

/// The hello of a server, as it is sent.
proof fn lemma_hello_sent(s: SessionView, h: ClientHelloView, random: Seq<u8>)
    requires
        s.epoch == 0,
        s.sequence_number < 0x1_0000_0000_0000,
        random.len() == 32,
        h.session_id.len() < 256,
    ensures
        ({
            let a = session::clear(
                s,
                HandshakeType::ServerHello,
                session::server_hello(h, random),
            );
            &&& server_hello_in(a) matches Some(x) && answer_of(h, random, x)
            &&& record_in(a) matches Some(r) && r.payload == session::message_of(
                s,
                HandshakeType::ServerHello,
                session::server_hello(h, random),
            )
        }),
{
    lemma_answer_read(h, random);
    law_clear_is_read(s, HandshakeType::ServerHello, session::server_hello(h, random));
}

/// The share of a server, as it is sent.
proof fn lemma_share_sent(s: SessionView, public_key: Seq<u8>, signature: Seq<u8>)
    requires
        s.epoch == 0,
        s.sequence_number < 0x1_0000_0000_0000,
        public_key.len() < 256,
        signature.len() < 0xF000,
    ensures
        ({
            let b = handshake::server_key_exchange_bytes(3, 23, public_key, signature);
            let a = session::clear(s, HandshakeType::ServerKeyExchange, b);
            &&& message_in(a) matches Some(m) && m.msg_type == HandshakeType::ServerKeyExchange
                && is_share(m.body, public_key, signature)
            &&& record_in(a) matches Some(r) && r.payload == session::message_of(
                s,
                HandshakeType::ServerKeyExchange,
                b,
            )
        }),
{
    lemma_share(public_key, signature);
    law_clear_is_read(
        s,
        HandshakeType::ServerKeyExchange,
        handshake::server_key_exchange_bytes(3, 23, public_key, signature),
    );
}

/// Another message of a server, as it is sent.
proof fn lemma_message_sent(s: SessionView, t: HandshakeType, body: Seq<u8>)
    requires
        s.epoch == 0,
        s.sequence_number < 0x1_0000_0000_0000,
        body.len() < 0xFF00,
    ensures
        ({
            let a = session::clear(s, t, body);
            &&& message_in(a) matches Some(m) && m.msg_type == t && m.body == body
            &&& record_in(a) matches Some(r) && r.payload == session::message_of(s, t, body)
        }),
{
    law_clear_is_read(s, t, body);
}

/// What a server sends, and what it then knows.
proof fn lemma_flight(s: SessionView, h: ClientHelloView, random: Seq<u8>, signature: Seq<u8>)
    requires
        s.sequence_number < 0xFFFF_FFFF_0000,
        crypto::ecdsa_signature(
            s.private_key,
            session::signed_params(h.random, random, s.public_key),
        ) == Some(signature),
    ensures
        ({
            let step = session::server_flight(s, h, random);
            let s0 = SessionView {
                client_random: Some(h.random),
                server_random: Some(random),
                ..s
            };
            let b0 = session::server_hello(h, random);
            let b1 = handshake::certificate_bytes(s.certificates);
            let b2 = handshake::server_key_exchange_bytes(3, 23, s.public_key, signature);
            let s1 = session::sent(s0, HandshakeType::ServerHello, b0);
            let s2 = session::sent(s1, HandshakeType::Certificate, b1);
            let s3 = session::sent(s2, HandshakeType::ServerKeyExchange, b2);
            &&& step.error is None
            &&& step.actions == seq![
                session::clear(s0, HandshakeType::ServerHello, b0),
                session::clear(s1, HandshakeType::Certificate, b1),
                session::clear(s2, HandshakeType::ServerKeyExchange, b2),
                session::clear(s3, HandshakeType::ServerHelloDone, seq![]),
            ]
            &&& step.session == session::sent(s3, HandshakeType::ServerHelloDone, seq![])
            &&& s1.sequence_number == s.sequence_number + 1 && s1.epoch == s.epoch
            &&& s2.sequence_number == s.sequence_number + 2 && s2.epoch == s.epoch
            &&& s3.sequence_number == s.sequence_number + 3 && s3.epoch == s.epoch
            &&& step.session.sequence_number == s.sequence_number + 4
        }),
{
    let step = session::server_flight(s, h, random);
    assert(step.error is None);
}

proof fn lemma_signed(client: Seq<u8>, server: Seq<u8>, public_key: Seq<u8>)
    requires
        public_key.len() < 256,
    ensures
        session::signed_params(client, server, public_key) == to_sign(client, server, public_key),
{
    reveal(session::signed_params);
}

/// A server answers a hello with four messages in order: its hello; its certificates; its public
/// key, signed together with both random values; and the end of its flight.
#[verifier::rlimit(40)]
#[verifier::spinoff_prover]
pub proof fn law_server_answers(s: SessionView, h: ClientHelloView, random: Seq<u8>)
    requires
        s.epoch == 0,
        s.sequence_number < 0xFFFF_FFFF_0000,
        random.len() == 32,
        h.session_id.len() < 256,
        s.public_key.len() < 256,
        handshake::certificate_bytes(s.certificates).len() < 0xFF00,
        crypto::ecdsa_signature(s.private_key, to_sign(h.random, random, s.public_key)) matches Some(
            signature,
        ) && signature.len() < 0xF000,
    ensures
        ({
            let step = session::server_flight(s, h, random);
            let signature = crypto::ecdsa_signature(
                s.private_key,
                to_sign(h.random, random, s.public_key),
            )->0;
            &&& step.error is None
            &&& step.actions.len() == 4
            &&& server_hello_in(step.actions[0]) matches Some(a) && answer_of(h, random, a)
            &&& message_in(step.actions[1]) matches Some(b) && b.msg_type
                == HandshakeType::Certificate && b.body == handshake::certificate_bytes(
                s.certificates,
            )
            &&& message_in(step.actions[2]) matches Some(c) && c.msg_type
                == HandshakeType::ServerKeyExchange && is_share(c.body, s.public_key, signature)
            &&& message_in(step.actions[3]) matches Some(d) && d.msg_type
                == HandshakeType::ServerHelloDone && d.body.len() == 0
        }),
{
    lemma_signed(h.random, random, s.public_key);
    let signature = crypto::ecdsa_signature(
        s.private_key,
        to_sign(h.random, random, s.public_key),
    )->0;
    let s0 = SessionView { client_random: Some(h.random), server_random: Some(random), ..s };
    let b0 = session::server_hello(h, random);
    let b1 = handshake::certificate_bytes(s.certificates);
    let b2 = handshake::server_key_exchange_bytes(3, 23, s.public_key, signature);
    let s1 = session::sent(s0, HandshakeType::ServerHello, b0);
    let s2 = session::sent(s1, HandshakeType::Certificate, b1);
    let s3 = session::sent(s2, HandshakeType::ServerKeyExchange, b2);
    let a0 = session::clear(s0, HandshakeType::ServerHello, b0);
    let a1 = session::clear(s1, HandshakeType::Certificate, b1);
    let a2 = session::clear(s2, HandshakeType::ServerKeyExchange, b2);
    let a3 = session::clear(s3, HandshakeType::ServerHelloDone, seq![]);
    let step = session::server_flight(s, h, random);
    lemma_flight(s, h, random, signature);
    lemma_hello_sent(s0, h, random);
    lemma_message_sent(s1, HandshakeType::Certificate, b1);
    lemma_share_sent(s2, s.public_key, signature);
    lemma_message_sent(s3, HandshakeType::ServerHelloDone, seq![]);
    assert(step.actions[0] == a0 && step.actions[1] == a1 && step.actions[2] == a2
        && step.actions[3] == a3);
}

/// A server that has answered a hello knows both random values, and takes note of all that it
/// said; its records are numbered one after the other.
#[verifier::rlimit(40)]
#[verifier::spinoff_prover]
pub proof fn law_server_takes_note(s: SessionView, h: ClientHelloView, random: Seq<u8>)
    requires
        s.epoch == 0,
        s.sequence_number < 0xFFFF_FFFF_0000,
        random.len() == 32,
        h.session_id.len() < 256,
        s.public_key.len() < 256,
        handshake::certificate_bytes(s.certificates).len() < 0xFF00,
        crypto::ecdsa_signature(s.private_key, to_sign(h.random, random, s.public_key)) matches Some(
            signature,
        ) && signature.len() < 0xF000,
    ensures
        ({
            let step = session::server_flight(s, h, random);
            &&& step.session.client_random == Some(h.random)
            &&& step.session.server_random == Some(random)
            &&& step.session.transcript == s.transcript + record_in(step.actions[0])->0.payload
                + record_in(step.actions[1])->0.payload + record_in(step.actions[2])->0.payload
                + record_in(step.actions[3])->0.payload
            &&& step.session.sequence_number == s.sequence_number + 4
        }),
{
    let signature = crypto::ecdsa_signature(
        s.private_key,
        to_sign(h.random, random, s.public_key),
    )->0;
    lemma_signed(h.random, random, s.public_key);
    let s0 = SessionView { client_random: Some(h.random), server_random: Some(random), ..s };
    let b0 = session::server_hello(h, random);
    let b1 = handshake::certificate_bytes(s.certificates);
    let b2 = handshake::server_key_exchange_bytes(3, 23, s.public_key, signature);
    let s1 = session::sent(s0, HandshakeType::ServerHello, b0);
    let s2 = session::sent(s1, HandshakeType::Certificate, b1);
    let s3 = session::sent(s2, HandshakeType::ServerKeyExchange, b2);
    let step = session::server_flight(s, h, random);
    lemma_flight(s, h, random, signature);
    lemma_hello_sent(s0, h, random);
    lemma_message_sent(s1, HandshakeType::Certificate, b1);
    lemma_share_sent(s2, s.public_key, signature);
    lemma_message_sent(s3, HandshakeType::ServerHelloDone, seq![]);
    assert(step.actions[0] == session::clear(s0, HandshakeType::ServerHello, b0));
    assert(step.actions[1] == session::clear(s1, HandshakeType::Certificate, b1));
    assert(step.actions[2] == session::clear(s2, HandshakeType::ServerKeyExchange, b2));
    assert(step.actions[3] == session::clear(s3, HandshakeType::ServerHelloDone, seq![]));
}

/// What is meant for the other end is only taken note of, and so is a message that cannot be read;
/// a `Finished` message of another length is passed over.
pub proof fn law_messages_for_others(
    s: SessionView,
    m: MessageView,
    raw: Seq<u8>,
    random: Seq<u8>,
)
    ensures
        ({
            let step = session::on_message(s, m, raw, random);
            let heard = SessionView { transcript: s.transcript + raw, ..s };
            let at_client = m.msg_type == HandshakeType::ClientHello || m.msg_type
                == HandshakeType::ClientKeyExchange;
            let at_server = m.msg_type == HandshakeType::ServerHello || m.msg_type
                == HandshakeType::ServerKeyExchange;
            &&& s.is_client && at_client || !s.is_client && at_server ==> step.session == heard
                && step.actions.len() == 0 && step.error is None
            &&& m.msg_type == HandshakeType::ClientHello && handshake::client_hello_decoded(
                m.body,
            ) is None ==> step.session == heard && step.actions.len() == 0 && step.error is None
            &&& m.msg_type == HandshakeType::Finished && m.body.len() != 12 ==> step.session == s
                && step.actions.len() == 0 && step.error is None
            &&& m.msg_type == HandshakeType::HelloRequest ==> step.session == s
                && step.actions.len() == 0 && step.error is None
            &&& m.msg_type == HandshakeType::Certificate ==> step.session == heard
                && step.actions.len() == 0 && step.error is None
        }),
{
    reveal(session::on_message);
}

/// A client learns the server's random value and public key from its messages, and a server the
/// client's public key, with which it has keys; each is taken note of.
pub proof fn law_messages_are_learned(
    s: SessionView,
    m: MessageView,
    raw: Seq<u8>,
    random: Seq<u8>,
)
    ensures
        ({
            let step = session::on_message(s, m, raw, random);
            let heard = SessionView { transcript: s.transcript + raw, ..s };
            &&& s.is_client && m.msg_type == HandshakeType::ServerHello
                ==> (handshake::server_hello_decoded(m.body) matches Some(h) ==> step.session
                == (SessionView { server_random: Some(h.random), ..heard }) && step.actions.len()
                == 0)
            &&& s.is_client && m.msg_type == HandshakeType::ServerKeyExchange
                ==> (handshake::server_public_key(m.body) matches Some(pk) ==> step.session == (
            SessionView { peer_public_key: Some(pk), ..heard }) && step.actions.len() == 0)
            &&& !s.is_client && m.msg_type == HandshakeType::ClientKeyExchange
                ==> (handshake::client_public_key(m.body) matches Some(pk) ==> {
                let known = SessionView { peer_public_key: Some(pk), ..heard };
                &&& step.session.keys == match session::agreed_keys(known) {
                    Some(k) => Some(k),
                    None => s.keys,
                }
                &&& step.session.secret is None
                &&& step.session.transcript == heard.transcript
                &&& step.actions.len() == 0
            })
        }),
{
    reveal(session::on_message);
}

/// A handshake that ends before there are keys fails at the server, and does not end at the client.
pub proof fn law_no_end_without_keys(s: SessionView, raw: Seq<u8>, data: Seq<u8>)
    requires
        s.keys is None,
    ensures
        session::client_finished(s, raw, data).error == Some(DtlsError::SessionKeysNotDerived),
        session::client_finished(s, raw, data).session.state == StateView::Failed,
        session::server_finished(s, data).session == s,
        session::server_finished(s, data).actions.len() == 0,
        session::server_finished(s, data).error is None,
{
}

} // verus!
