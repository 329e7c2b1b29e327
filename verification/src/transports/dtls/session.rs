//! One end of a DTLS connection, as a machine from datagrams to datagrams.
use vstd::prelude::*;
use vstd::string::*;

use crate::buffer;
use crate::crypto;
use crate::transports::dtls::certificate::Certificate;
use crate::transports::dtls::error::{DtlsError, DtlsResult};
use crate::transports::dtls::handshake;
use crate::transports::dtls::handshake::{
    CertificateMessage, ClientHello, ClientHelloView, ClientKeyExchange, Finished,
    HandshakeMessage, HandshakeType, HelloVerifyRequest, MessageView, Random, ServerHello,
    ServerHelloView, ServerKeyExchange,
};
use crate::transports::dtls::keys;
use crate::transports::dtls::keys::{KeysView, SessionKeys};
use crate::transports::dtls::record;
use crate::transports::dtls::record::{ContentType, DtlsRecord, ProtocolVersion, RecordView};
use crate::wire;

verus! {

/// How far a connection has come.
#[derive(Debug, Clone)]
pub enum DtlsState {
    New,
    Handshaking,
    Connected(SessionKeys),
    Failed,
}

/// How far a connection has come.
#[verifier::ext_equal]
pub enum StateView {
    New,
    Handshaking,
    Connected(KeysView),
    Failed,
}

impl View for DtlsState {
    type V = StateView;

    open spec fn view(&self) -> StateView {
        match self {
            DtlsState::New => StateView::New,
            DtlsState::Handshaking => StateView::Handshaking,
            DtlsState::Connected(keys) => StateView::Connected(keys@),
            DtlsState::Failed => StateView::Failed,
        }
    }
}

/// What the owner of a connection has to do.
#[derive(Debug, Clone, PartialEq, Eq)]
pub enum DtlsAction {
    /// Send a datagram to the peer.
    Send(Vec<u8>),
    /// Hand data of the peer to the application.
    Deliver(Vec<u8>),
}

/// What the owner of a connection has to do.
#[verifier::ext_equal]
pub enum ActionView {
    Send(Seq<u8>),
    Deliver(Seq<u8>),
}

impl View for DtlsAction {
    type V = ActionView;

    open spec fn view(&self) -> ActionView {
        match self {
            DtlsAction::Send(d) => ActionView::Send(d@),
            DtlsAction::Deliver(d) => ActionView::Deliver(d@),
        }
    }
}

/// What the owner of a connection has to do, in order.
pub open spec fn acts(actions: Seq<DtlsAction>) -> Seq<ActionView> {
    actions.map_values(|a: DtlsAction| a@)
}

/// What one end of a connection knows.
#[verifier::ext_equal]
pub struct SessionView {
    pub is_client: bool,
    pub certificates: Seq<Seq<u8>>,
    pub private_key: Seq<char>,
    pub secret: Option<Seq<u8>>,
    pub public_key: Seq<u8>,
    pub peer_public_key: Option<Seq<u8>>,
    pub client_random: Option<Seq<u8>>,
    pub server_random: Option<Seq<u8>>,
    pub keys: Option<KeysView>,
    pub transcript: Seq<u8>,
    pub epoch: u16,
    pub sequence_number: u64,
    pub message_seq: u16,
    pub last_flight: Option<Seq<u8>>,
    pub state: StateView,
}

/// What an event leads to: what the connection then knows, what its owner has to do, and the
/// failure that ends it, if any. `used` counts the random values that were drawn.
pub struct Step {
    pub session: SessionView,
    pub actions: Seq<ActionView>,
    pub error: Option<DtlsError>,
    pub used: nat,
}

/// `x + 1`, modulo 2^16.
pub open spec fn next16(x: u16) -> u16 {
    if x == u16::MAX {
        0
    } else {
        (x + 1) as u16
    }
}

/// `x + 1`, modulo 2^64.
pub open spec fn next64(x: u64) -> u64 {
    if x == u64::MAX {
        0
    } else {
        (x + 1) as u64
    }
}

/// The epoch and the sequence number of a record as one number.
pub open spec fn full_seq(epoch: u16, sequence_number: u64) -> u64 {
    ((epoch as u64) << 48u64) | sequence_number
}

/// The extensions that a client sends: the curve and the point format that it supports.
pub open spec fn client_extensions() -> Seq<u8> {
    seq![0u8, 10, 0, 4, 0, 2, 0, 23, 0, 11, 0, 2, 1, 0]
}

/// The hello that a client sends.
#[verifier::opaque]
pub open spec fn client_hello(random: Seq<u8>, cookie: Seq<u8>) -> Seq<u8> {
    handshake::client_hello_bytes(
        ClientHelloView {
            version: ProtocolVersion::dtls_1_2(),
            random,
            session_id: seq![],
            cookie,
            cipher_suites: seq![0xC02Bu16],
            compression_methods: seq![0u8],
            extensions: client_extensions(),
        },
    )
}

/// The extensions that a server sends: the point format, an empty renegotiation info, and the
/// first SRTP profile that the client offers, if it offers one.
pub open spec fn server_extensions(profiles: Seq<u16>) -> Seq<u8> {
    let fixed = seq![0u8, 11, 0, 2, 1, 0, 255, 1, 0, 1, 0];
    if profiles.len() == 0 {
        fixed
    } else {
        fixed + seq![0u8, 14, 0, 5, 0, 2] + wire::enc16(profiles[0]) + seq![0u8]
    }
}

/// The hello that a server answers with.
#[verifier::opaque]
pub open spec fn server_hello(h: ClientHelloView, random: Seq<u8>) -> Seq<u8> {
    handshake::server_hello_bytes(
        ServerHelloView {
            version: ProtocolVersion::dtls_1_2(),
            random,
            session_id: h.session_id,
            cipher_suite: 0xC02B,
            compression_method: 0,
            extensions: server_extensions(handshake::srtp_profiles(h.extensions)),
        },
    )
}

/// What a server signs of its share of the key exchange.
#[verifier::opaque]
pub open spec fn signed_params(
    client_random: Seq<u8>,
    server_random: Seq<u8>,
    public_key: Seq<u8>,
) -> Seq<u8> {
    client_random + server_random + seq![3u8, 0, 23, (public_key.len() % 256) as u8] + public_key
}

/// The message of `s` with this body.
#[verifier::opaque]
pub open spec fn message_of(s: SessionView, t: HandshakeType, body: Seq<u8>) -> Seq<u8> {
    handshake::message_bytes(handshake::whole_message(t, s.message_seq, body))
}

/// The record of `s` with this payload.
#[verifier::opaque]
pub open spec fn record_of(s: SessionView, content_type: ContentType, payload: Seq<u8>) -> Seq<u8> {
    record::record_bytes(
        RecordView {
            content_type,
            version: ProtocolVersion::dtls_1_2(),
            epoch: s.epoch,
            sequence_number: s.sequence_number,
            payload,
        },
    )
}

/// `s` with a message added to the transcript.
pub open spec fn noted(s: SessionView, raw: Seq<u8>) -> SessionView {
    SessionView { transcript: s.transcript + raw, ..s }
}

/// `s` after it sent a message in the clear.
pub open spec fn sent(s: SessionView, t: HandshakeType, body: Seq<u8>) -> SessionView {
    SessionView {
        transcript: s.transcript + message_of(s, t, body),
        sequence_number: next64(s.sequence_number),
        message_seq: next16(s.message_seq),
        ..s
    }
}

/// The datagram with a message in the clear.
pub open spec fn clear(s: SessionView, t: HandshakeType, body: Seq<u8>) -> ActionView {
    ActionView::Send(record_of(s, ContentType::Handshake, message_of(s, t, body)))
}

/// The start of a handshake. A client sends its hello.
pub open spec fn started(s: SessionView, random: Seq<u8>) -> Step {
    let h = SessionView { state: StateView::Handshaking, ..s };
    if s.is_client {
        let c = SessionView { client_random: Some(random), ..h };
        let body = client_hello(random, seq![]);
        let flight = record_of(
            c,
            ContentType::Handshake,
            message_of(c, HandshakeType::ClientHello, body),
        );
        Step {
            session: SessionView {
                last_flight: Some(flight),
                ..sent(c, HandshakeType::ClientHello, body)
            },
            actions: seq![ActionView::Send(flight)],
            error: None,
            used: 0,
        }
    } else {
        Step { session: h, actions: seq![], error: None, used: 0 }
    }
}

/// What is sent again when no answer came: the hello of a client that has sent nothing else.
pub open spec fn retransmitted(s: SessionView) -> Option<Seq<u8>> {
    if s.is_client && s.message_seq == 1 {
        s.last_flight
    } else {
        None
    }
}

/// The answer of a server to a client's hello: its hello, its certificate, its share of the key
/// exchange and the end of its flight.
pub open spec fn server_flight(s: SessionView, h: ClientHelloView, random: Seq<u8>) -> Step {
    let s0 = SessionView { client_random: Some(h.random), server_random: Some(random), ..s };
    let b0 = server_hello(h, random);
    let s1 = sent(s0, HandshakeType::ServerHello, b0);
    let b1 = handshake::certificate_bytes(s.certificates);
    let s2 = sent(s1, HandshakeType::Certificate, b1);
    let first = seq![
        clear(s0, HandshakeType::ServerHello, b0),
        clear(s1, HandshakeType::Certificate, b1),
    ];
    match crypto::ecdsa_signature(s.private_key, signed_params(h.random, random, s.public_key)) {
        None => Step { session: s2, actions: first, error: Some(DtlsError::PrivateKey), used: 0 },
        Some(signature) => {
            let b2 = handshake::server_key_exchange_bytes(3, 23, s.public_key, signature);
            let s3 = sent(s2, HandshakeType::ServerKeyExchange, b2);
            let s4 = sent(s3, HandshakeType::ServerHelloDone, seq![]);
            Step {
                session: s4,
                actions: first.push(clear(s2, HandshakeType::ServerKeyExchange, b2)).push(
                    clear(s3, HandshakeType::ServerHelloDone, seq![]),
                ),
                error: None,
                used: 0,
            }
        },
    }
}

/// The keys that the key exchange of `s` leads to.
pub open spec fn agreed_keys(s: SessionView) -> Option<KeysView> {
    match (s.secret, s.peer_public_key, s.client_random, s.server_random) {
        (Some(secret), Some(peer), Some(client), Some(server)) => keys::exchanged_keys(
            secret,
            peer,
            client,
            server,
        ),
        _ => None,
    }
}

/// `s` after it completed the key exchange. The secret key is used at most once.
pub open spec fn exchanged(s: SessionView) -> SessionView {
    SessionView {
        secret: if s.peer_public_key is Some {
            None
        } else {
            s.secret
        },
        keys: match agreed_keys(s) {
            Some(k) => Some(k),
            None => s.keys,
        },
        ..s
    }
}

/// The payload of a record with a message, protected where `s` has keys and has left the first
/// epoch.
pub open spec fn guarded(s: SessionView, raw: Seq<u8>) -> Result<Seq<u8>, DtlsError> {
    match s.keys {
        Some(k) => if s.epoch > 0 {
            keys::record_sealed(
                ContentType::Handshake,
                ProtocolVersion::dtls_1_2(),
                full_seq(s.epoch, s.sequence_number),
                raw,
                k.write_key(s.is_client),
                k.write_iv(s.is_client),
            )
        } else {
            Ok(raw)
        },
        None => Ok(raw),
    }
}

/// The change to the next epoch, then a `Finished` message in it. `s` is the connection before,
/// `label` names this side.
pub open spec fn finishing(s: SessionView, label: Seq<u8>) -> Step {
    let change = ActionView::Send(record_of(s, ContentType::ChangeCipherSpec, seq![1u8]));
    let e = SessionView { epoch: next16(s.epoch), sequence_number: 0, ..s };
    let data = match s.keys {
        Some(k) => keys::verify_data(k.master_secret, label, s.transcript),
        None => wire::repeated(0, 12),
    };
    let raw = message_of(e, HandshakeType::Finished, data);
    let n = noted(e, raw);
    match guarded(n, raw) {
        Err(x) => Step { session: n, actions: seq![change], error: Some(x), used: 0 },
        Ok(payload) => Step {
            session: SessionView { sequence_number: next64(n.sequence_number), ..n },
            actions: seq![
                change,
                ActionView::Send(record_of(n, ContentType::Handshake, payload)),
            ],
            error: None,
            used: 0,
        },
    }
}

/// The answer of a client to the end of the server's flight: its share of the key exchange and,
/// where that leads to keys, its `Finished` message.
pub open spec fn client_flight(s: SessionView) -> Step {
    let body = handshake::client_key_exchange_bytes(s.public_key);
    let first = clear(s, HandshakeType::ClientKeyExchange, body);
    let s1 = sent(s, HandshakeType::ClientKeyExchange, body);
    let s2 = exchanged(s1);
    if agreed_keys(s1) is None {
        Step { session: s2, actions: seq![first], error: None, used: 0 }
    } else {
        let f = finishing(s2, "client finished".spec_bytes());
        Step {
            session: if f.error is None {
                SessionView { message_seq: next16(f.session.message_seq), ..f.session }
            } else {
                f.session
            },
            actions: seq![first] + f.actions,
            error: f.error,
            used: 0,
        }
    }
}

/// Whether the peer's `Finished` message does not confirm the handshake.
pub open spec fn refuted(s: SessionView, label: Seq<u8>, data: Seq<u8>) -> bool {
    s.keys is Some && data != keys::verify_data(s.keys->0.master_secret, label, s.transcript)
}

/// The end of a handshake for a server: it checks the client's `Finished` message and sends its
/// own.
pub open spec fn client_finished(s: SessionView, raw: Seq<u8>, data: Seq<u8>) -> Step {
    if refuted(s, "client finished".spec_bytes(), data) {
        Step {
            session: SessionView { state: StateView::Failed, ..s },
            actions: seq![],
            error: Some(DtlsError::FinishedVerificationFailed),
            used: 0,
        }
    } else {
        let f = finishing(noted(s, raw), "server finished".spec_bytes());
        if f.error is Some {
            f
        } else {
            match s.keys {
                Some(k) => Step {
                    session: SessionView { state: StateView::Connected(k), ..f.session },
                    ..f
                },
                None => Step {
                    session: SessionView { state: StateView::Failed, ..f.session },
                    error: Some(DtlsError::SessionKeysNotDerived),
                    ..f
                },
            }
        }
    }
}

/// The end of a handshake for a client: it checks the server's `Finished` message.
pub open spec fn server_finished(s: SessionView, data: Seq<u8>) -> Step {
    if refuted(s, "server finished".spec_bytes(), data) {
        Step {
            session: SessionView { state: StateView::Failed, ..s },
            actions: seq![],
            error: Some(DtlsError::FinishedVerificationFailed),
            used: 0,
        }
    } else {
        Step {
            session: SessionView {
                state: match s.keys {
                    Some(k) => StateView::Connected(k),
                    None => s.state,
                },
                ..s
            },
            actions: seq![],
            error: None,
            used: 0,
        }
    }
}

/// The answer to a request to repeat the hello with a cookie. The transcript starts anew.
pub open spec fn repeated_hello(s: SessionView, cookie: Seq<u8>, random: Seq<u8>) -> Step {
    let r = match s.client_random {
        Some(x) => x,
        None => random,
    };
    let c = SessionView { transcript: seq![], ..s };
    let body = client_hello(r, cookie);
    Step {
        session: sent(c, HandshakeType::ClientHello, body),
        actions: seq![clear(c, HandshakeType::ClientHello, body)],
        error: None,
        used: 0,
    }
}

/// Nothing happens.
pub open spec fn unchanged(s: SessionView) -> Step {
    Step { session: s, actions: seq![], error: None, used: 0 }
}

/// What a handshake message leads to. `raw` is the message on the wire, `random` a random value
/// in case the answer needs one.
#[verifier::opaque]
pub open spec fn on_message(
    before: SessionView,
    m: MessageView,
    raw: Seq<u8>,
    random: Seq<u8>,
) -> Step {
    let s = if m.msg_type == HandshakeType::Finished || m.msg_type == HandshakeType::HelloRequest
        || m.msg_type == HandshakeType::HelloVerifyRequest {
        before
    } else {
        noted(before, raw)
    };
    match m.msg_type {
        HandshakeType::ClientHello => match handshake::client_hello_decoded(m.body) {
            Some(h) => if s.is_client {
                unchanged(s)
            } else {
                server_flight(s, h, random)
            },
            None => unchanged(s),
        },
        HandshakeType::ClientKeyExchange => match handshake::client_public_key(m.body) {
            Some(pk) => if s.is_client {
                unchanged(s)
            } else {
                unchanged(exchanged(SessionView { peer_public_key: Some(pk), ..s }))
            },
            None => unchanged(s),
        },
        HandshakeType::Finished => if m.body.len() != 12 {
            unchanged(s)
        } else if s.is_client {
            server_finished(s, m.body)
        } else {
            client_finished(s, raw, m.body)
        },
        HandshakeType::HelloVerifyRequest => match handshake::hello_verify_cookie(m.body) {
            Some(cookie) => repeated_hello(s, cookie, random),
            None => unchanged(s),
        },
        HandshakeType::ServerHello => match handshake::server_hello_decoded(m.body) {
            Some(h) => if s.is_client {
                unchanged(SessionView { server_random: Some(h.random), ..s })
            } else {
                unchanged(s)
            },
            None => unchanged(s),
        },
        HandshakeType::ServerKeyExchange => match handshake::server_public_key(m.body) {
            Some(pk) => if s.is_client {
                unchanged(SessionView { peer_public_key: Some(pk), ..s })
            } else {
                unchanged(s)
            },
            None => unchanged(s),
        },
        HandshakeType::ServerHelloDone => client_flight(s),
        _ => unchanged(s),
    }
}

/// `first`, and what `next` leads to after it.
pub open spec fn and_next(first: Step, next: Step) -> Step {
    Step { actions: first.actions + next.actions, ..next }
}

/// What the handshake messages in the payload of a record lead to. `randoms` are the random
/// values to draw, one for each message, of which the first `used` have been drawn.
pub open spec fn on_messages(
    s: SessionView,
    body: Seq<u8>,
    randoms: Seq<Seq<u8>>,
    used: nat,
) -> Step
    decreases body.len(),
{
    let done = Step { used, ..unchanged(s) };
    match handshake::message_decoded(body) {
        Ok(Some(m)) => {
            let len = handshake::message_len(body);
            let step = Step {
                used: used + 1,
                ..on_message(s, m, body.take(len), randoms[used as int])
            };
            if step.error is Some || len < 12 || len > body.len() {
                step
            } else {
                and_next(step, on_messages(step.session, body.skip(len), randoms, step.used))
            }
        },
        _ => done,
    }
}

/// The payload of a received record, decrypted where it left the first epoch. None where it is
/// not authentic, or there are no keys to tell.
pub open spec fn received_payload(s: SessionView, r: RecordView) -> Option<Seq<u8>> {
    if r.epoch == 0 {
        Some(r.payload)
    } else {
        match s.keys {
            Some(k) => match keys::record_opened(
                r.content_type,
                r.version,
                full_seq(r.epoch, r.sequence_number),
                r.payload,
                k.write_key(!s.is_client),
                k.write_iv(!s.is_client),
            ) {
                Ok(plain) => Some(plain),
                Err(_) => None,
            },
            None => None,
        }
    }
}

/// What the payload of a received record leads to.
pub open spec fn on_payload(
    s: SessionView,
    content_type: ContentType,
    payload: Seq<u8>,
    randoms: Seq<Seq<u8>>,
    used: nat,
) -> Step {
    match content_type {
        ContentType::ApplicationData => Step {
            session: s,
            actions: seq![ActionView::Deliver(payload)],
            error: None,
            used,
        },
        ContentType::Handshake => on_messages(s, payload, randoms, used),
        _ => Step { used, ..unchanged(s) },
    }
}

/// What the records of a datagram lead to, up to the first that cannot be read.
pub open spec fn on_records(
    s: SessionView,
    data: Seq<u8>,
    randoms: Seq<Seq<u8>>,
    used: nat,
) -> Step
    decreases data.len(),
{
    let done = Step { used, ..unchanged(s) };
    match record::record_decoded(data) {
        Ok(Some(r)) => {
            let len = record::record_len(data);
            match received_payload(s, r) {
                Some(payload) => {
                    let step = on_payload(s, r.content_type, payload, randoms, used);
                    if step.error is Some || len < 13 || len > data.len() {
                        step
                    } else {
                        and_next(step, on_records(step.session, data.skip(len), randoms, step.used))
                    }
                },
                None => done,
            }
        },
        _ => done,
    }
}

/// What data of the application leads to: a protected record, where there are keys.
pub open spec fn on_outgoing(s: SessionView, data: Seq<u8>) -> Step {
    match s.keys {
        Some(k) => match keys::record_sealed(
            ContentType::ApplicationData,
            ProtocolVersion::dtls_1_2(),
            full_seq(s.epoch, s.sequence_number),
            data,
            k.write_key(s.is_client),
            k.write_iv(s.is_client),
        ) {
            Ok(sealed) => Step {
                session: SessionView { sequence_number: next64(s.sequence_number), ..s },
                actions: seq![
                    ActionView::Send(record_of(s, ContentType::ApplicationData, sealed)),
                ],
                error: None,
                used: 0,
            },
            Err(_) => unchanged(s),
        },
        None => unchanged(s),
    }
}

/// One end of a DTLS connection.
pub struct DtlsTransport {
    is_client: bool,
    certificate: Certificate,
    secret: Option<Vec<u8>>,
    public_key: Vec<u8>,
    peer_public_key: Option<Vec<u8>>,
    client_random: Option<Vec<u8>>,
    server_random: Option<Vec<u8>>,
    keys: Option<SessionKeys>,
    transcript: Vec<u8>,
    epoch: u16,
    sequence_number: u64,
    message_seq: u16,
    last_flight: Option<Vec<u8>>,
    state: DtlsState,
}

impl View for DtlsTransport {
    type V = SessionView;

    closed spec fn view(&self) -> SessionView {
        SessionView {
            is_client: self.is_client,
            certificates: handshake::contents(self.certificate.certificate@),
            private_key: self.certificate.private_key@,
            secret: crypto::bytes_of(self.secret),
            public_key: self.public_key@,
            peer_public_key: crypto::bytes_of(self.peer_public_key),
            client_random: crypto::bytes_of(self.client_random),
            server_random: crypto::bytes_of(self.server_random),
            keys: keys::keys_view(self.keys),
            transcript: self.transcript@,
            epoch: self.epoch,
            sequence_number: self.sequence_number,
            message_seq: self.message_seq,
            last_flight: crypto::bytes_of(self.last_flight),
            state: self.state@,
        }
    }
}

impl SessionView {
    /// What holds of a connection at all times. The keys have the right lengths, a random value
    /// has 32 bytes, the secret key is gone once there are keys, and a connection is established
    /// only under the keys of its handshake.
    pub open spec fn wf(self) -> bool {
        &&& self.keys is Some ==> self.keys->0.wf() && self.secret is None
        &&& self.client_random is Some ==> self.client_random->0.len() == 32
        &&& self.state matches StateView::Connected(k) ==> self.keys == Some(k)
    }
}

/// What a connection knows before its handshake.
pub open spec fn new_session(
    certificates: Seq<Seq<u8>>,
    private_key: Seq<char>,
    is_client: bool,
    secret: Seq<u8>,
    public_key: Seq<u8>,
) -> SessionView {
    SessionView {
        is_client,
        certificates,
        private_key,
        secret: Some(secret),
        public_key,
        peer_public_key: None,
        client_random: None,
        server_random: None,
        keys: None,
        transcript: seq![],
        epoch: 0,
        sequence_number: 0,
        message_seq: 0,
        last_flight: None,
        state: StateView::New,
    }
}

/// A random value with the given time.
pub fn fresh_random(now: u32) -> (r: Random)
    ensures
        r.wf(),
        r.gmt_unix_time == now,
{
    Random { gmt_unix_time: now, random_bytes: crypto::random_bytes(28) }
}

/// The bytes of the hello that a client sends.
fn build_client_hello(random: Random, cookie: Vec<u8>) -> (body: Vec<u8>)
    ensures
        body@ == client_hello(random.octets(), cookie@),
{
    let mut cipher_suites: Vec<u16> = Vec::new();
    cipher_suites.push(0xC02B);
    let mut compression_methods: Vec<u8> = Vec::new();
    compression_methods.push(0);
    let mut extensions: Vec<u8> = Vec::new();
    wire::put_bytes(&mut extensions, &[0u8, 10, 0, 4, 0, 2, 0, 23]);
    wire::put_bytes(&mut extensions, &[0u8, 11, 0, 2, 1, 0]);
    let hello = ClientHello {
        version: ProtocolVersion::dtls_1_2(),
        random,
        session_id: Vec::new(),
        cookie,
        cipher_suites,
        compression_methods,
        extensions,
    };
    proof {
        assert(hello.extensions@ =~= client_extensions());
        assert(hello.cipher_suites@ =~= seq![0xC02Bu16]);
        assert(hello.compression_methods@ =~= seq![0u8]);
        assert(hello.session_id@ =~= seq![]);
        reveal(client_hello);
    }
    hello.encode()
}

/// The bytes of the hello that a server answers with.
fn build_server_hello(hello: &ClientHello, random: Random) -> (body: Vec<u8>)
    ensures
        body@ == server_hello(hello@, random.octets()),
{
    let profiles = handshake::offered_srtp_profiles(hello.extensions.as_slice());
    let mut extensions: Vec<u8> = Vec::new();
    wire::put_bytes(&mut extensions, &[0u8, 11, 0, 2, 1, 0]);
    wire::put_bytes(&mut extensions, &[255u8, 1, 0, 1, 0]);
    if profiles.len() > 0 {
        wire::put_bytes(&mut extensions, &[0u8, 14, 0, 5, 0, 2]);
        wire::put_u16(&mut extensions, profiles[0]);
        extensions.push(0);
    }
    assert(extensions@ =~= server_extensions(handshake::srtp_profiles(hello.extensions@)));
    reveal(server_hello);
    let answer = ServerHello {
        version: ProtocolVersion::dtls_1_2(),
        random,
        session_id: keys::copy_all(&hello.session_id),
        cipher_suite: 0xC02B,
        compression_method: 0,
        extensions,
    };
    answer.encode()
}

/// What a server signs of its share of the key exchange.
fn build_signed_params(client_random: &[u8], server_random: &[u8], public_key: &[u8]) -> (r: Vec<
    u8,
>)
    ensures
        r@ == signed_params(client_random@, server_random@, public_key@),
{
    let mut params = keys::concat(client_random, server_random);
    params.push(3);
    params.push(0);
    params.push(23);
    params.push((public_key.len() % 256) as u8);
    wire::put_bytes(&mut params, public_key);
    proof {
        reveal(signed_params);
        assert(params@ =~= signed_params(client_random@, server_random@, public_key@));
    }
    params
}

proof fn lemma_acts_push(actions: Seq<DtlsAction>, a: DtlsAction)
    ensures
        acts(actions.push(a)) == acts(actions).push(a@),
{
    assert(acts(actions.push(a)) =~= acts(actions).push(a@));
}

fn push_send(out: &mut Vec<DtlsAction>, datagram: Vec<u8>)
    ensures
        acts(final(out)@) == acts(old(out)@).push(ActionView::Send(datagram@)),
{
    proof {
        lemma_acts_push(out@, DtlsAction::Send(datagram));
    }
    out.push(DtlsAction::Send(datagram));
}

impl DtlsTransport {
    /// A connection with the given secret key. `None` where the bytes are no secret key.
    pub fn with_secret(certificate: Certificate, is_client: bool, secret: Vec<u8>) -> (r: Option<
        Self,
    >)
        ensures
            match r {
                Some(s) => crypto::p256_public(secret@) is Some && s@ == new_session(
                    handshake::contents(certificate.certificate@),
                    certificate.private_key@,
                    is_client,
                    secret@,
                    crypto::p256_public(secret@)->0,
                ) && s@.wf(),
                None => crypto::p256_public(secret@) is None,
            },
    {
        let public_key = match crypto::p256_public_key(secret.as_slice()) {
            Some(public_key) => public_key,
            None => {
                return None;
            },
        };
        let s = DtlsTransport {
            is_client,
            certificate,
            secret: Some(secret),
            public_key,
            peer_public_key: None,
            client_random: None,
            server_random: None,
            keys: None,
            transcript: Vec::new(),
            epoch: 0,
            sequence_number: 0,
            message_seq: 0,
            last_flight: None,
            state: DtlsState::New,
        };
        assert(s.transcript@ =~= seq![]);
        Some(s)
    }

    /// A connection with a fresh secret key.
    pub fn new(certificate: Certificate, is_client: bool) -> (r: Self)
        ensures
            r@.wf(),
            r@.secret is Some,
            crypto::p256_public(r@.secret->0) == Some(r@.public_key),
            r@ == new_session(
                handshake::contents(certificate.certificate@),
                certificate.private_key@,
                is_client,
                r@.secret->0,
                r@.public_key,
            ),
    {
        let secret = crypto::p256_random_secret();
        let copy = keys::copy_all(&secret);
        let public_key = match crypto::p256_public_key(copy.as_slice()) {
            Some(public_key) => public_key,
            None => Vec::new(),
        };
        let s = DtlsTransport {
            is_client,
            certificate,
            secret: Some(secret),
            public_key,
            peer_public_key: None,
            client_random: None,
            server_random: None,
            keys: None,
            transcript: Vec::new(),
            epoch: 0,
            sequence_number: 0,
            message_seq: 0,
            last_flight: None,
            state: DtlsState::New,
        };
        assert(s.transcript@ =~= seq![]);
        s
    }

    /// How far the connection has come.
    pub fn state(&self) -> (r: &DtlsState)
        ensures
            r@ == self@.state,
    {
        &self.state
    }

    /// Whether this end is the client.
    pub fn is_client(&self) -> (r: bool)
        ensures
            r == self@.is_client,
    {
        self.is_client
    }

    /// Sends a message in the clear: notes it in the transcript and adds the datagram to `out`.
    fn send_message(
        &mut self,
        t: HandshakeType,
        body: Vec<u8>,
        out: &mut Vec<DtlsAction>,
    ) -> (datagram: Vec<u8>)
        ensures
            clear(old(self)@, t, body@) == ActionView::Send(datagram@),
            final(self)@ == sent(old(self)@, t, body@),
            acts(final(out)@) == acts(old(out)@).push(clear(old(self)@, t, body@)),
    {
        let message = HandshakeMessage::whole(t, self.message_seq, body);
        let raw = message.encode();
        proof {
            reveal(message_of);
            reveal(record_of);
        }
        wire::put_bytes(&mut self.transcript, raw.as_slice());
        let datagram = record::build_record(
            ContentType::Handshake,
            ProtocolVersion::dtls_1_2(),
            self.epoch,
            self.sequence_number,
            raw.as_slice(),
        );
        self.sequence_number = self.sequence_number.wrapping_add(1);
        self.message_seq = self.message_seq.wrapping_add(1);
        push_send(out, keys::copy_all(&datagram));
        datagram
    }

    /// Starts the handshake. A client sends its hello with the random value.
    pub fn start(&mut self, random: Random) -> (actions: Vec<DtlsAction>)
        requires
            old(self)@.wf(),
            random.wf(),
            old(self)@.state is New,
        ensures
            final(self)@ == started(old(self)@, random.octets()).session,
            acts(actions@) == started(old(self)@, random.octets()).actions,
            final(self)@.wf(),
    {
        let mut out: Vec<DtlsAction> = Vec::new();
        assert(acts(out@) =~= seq![]);
        self.state = DtlsState::Handshaking;
        if self.is_client {
            self.client_random = Some(random.to_bytes());
            let cookie: Vec<u8> = Vec::new();
            assert(cookie@ =~= seq![]);
            let body = build_client_hello(random, cookie);
            let datagram = self.send_message(HandshakeType::ClientHello, body, &mut out);
            assert(acts(out@) =~= seq![ActionView::Send(datagram@)]);
            self.last_flight = Some(datagram);
        }
        out
    }

    /// What to send again when no answer came.
    pub fn retransmit(&self) -> (r: Option<Vec<u8>>)
        ensures
            crypto::bytes_of(r) == retransmitted(self@),
    {
        if self.is_client && self.message_seq == 1 {
            match &self.last_flight {
                Some(d) => Some(keys::copy_all(d)),
                None => None,
            }
        } else {
            None
        }
    }

    /// The answer of a server to a client's hello.
    fn send_server_flight(&mut self, hello: &ClientHello, random: Random, out: &mut Vec<DtlsAction>) -> (r: DtlsResult<()>)
        requires
            old(self)@.wf(),
            random.wf(),
            hello.random.wf(),
        ensures
            final(self)@.wf(),
            final(self)@ == server_flight(old(self)@, hello@, random.octets()).session,
            acts(final(out)@) == acts(old(out)@) + server_flight(
                old(self)@,
                hello@,
                random.octets(),
            ).actions,
            ends(r, server_flight(old(self)@, hello@, random.octets()).error),
    {
        let ghost before = acts(out@);
        let client = hello.random.to_bytes();
        let server = random.to_bytes();
        let params = build_signed_params(
            client.as_slice(),
            server.as_slice(),
            self.public_key.as_slice(),
        );
        self.client_random = Some(client);
        self.server_random = Some(server);
        let ghost s0 = self@;
        let body = build_server_hello(hello, random);
        let ghost b0 = body@;
        self.send_message(HandshakeType::ServerHello, body, out);
        let ghost s1 = self@;
        let chain = CertificateMessage {
            certificates: copy_list(&self.certificate.certificate),
        };
        let body = chain.encode();
        let ghost b1 = body@;
        self.send_message(HandshakeType::Certificate, body, out);
        let ghost s2 = self@;
        let ghost first = seq![
            clear(s0, HandshakeType::ServerHello, b0),
            clear(s1, HandshakeType::Certificate, b1),
        ];
        assert(acts(out@) =~= before + first);
        let signature = match crypto::ecdsa_sign(
            self.certificate.private_key.as_str(),
            params.as_slice(),
        ) {
            Some(signature) => signature,
            None => {
                return Err(DtlsError::PrivateKey);
            },
        };
        let share = ServerKeyExchange {
            curve_type: 3,
            named_curve: 23,
            public_key: keys::copy_all(&self.public_key),
            signature,
        };
        let body = share.encode();
        let ghost b2 = body@;
        self.send_message(HandshakeType::ServerKeyExchange, body, out);
        let ghost s3 = self@;
        let body: Vec<u8> = Vec::new();
        assert(body@ =~= seq![]);
        self.send_message(HandshakeType::ServerHelloDone, body, out);
        assert(acts(out@) =~= before + first.push(
            clear(s2, HandshakeType::ServerKeyExchange, b2),
        ).push(clear(s3, HandshakeType::ServerHelloDone, seq![])));
        Ok(())
    }

    /// Completes the key exchange with what is known of the peer. Tells whether it led to keys.
    fn complete_exchange(&mut self) -> (r: bool)
        requires
            old(self)@.wf(),
        ensures
            final(self)@ == exchanged(old(self)@),
            final(self)@.wf(),
            r == (agreed_keys(old(self)@) is Some),
    {
        if self.peer_public_key.is_none() {
            return false;
        }
        let secret = match self.secret.take() {
            Some(secret) => secret,
            None => {
                return false;
            },
        };
        let derived = match (&self.peer_public_key, &self.client_random, &self.server_random) {
            (Some(peer), Some(client), Some(server)) => keys::exchange_keys(
                secret.as_slice(),
                peer.as_slice(),
                client.as_slice(),
                server.as_slice(),
            ),
            _ => None,
        };
        match derived {
            Some(derived) => {
                self.keys = Some(derived);
                true
            },
            None => false,
        }
    }

    /// Changes to the next epoch and sends a `Finished` message in it.
    fn finish(&mut self, label: &[u8], out: &mut Vec<DtlsAction>) -> (r: DtlsResult<()>)
        requires
            old(self)@.wf(),
        ensures
            final(self)@ == finishing(old(self)@, label@).session,
            acts(final(out)@) == acts(old(out)@) + finishing(old(self)@, label@).actions,
            ends(r, finishing(old(self)@, label@).error),
            final(self)@.wf(),
    {
        let ghost before = acts(out@);
        let ghost s = self@;
        let change = record::build_record(
            ContentType::ChangeCipherSpec,
            ProtocolVersion::dtls_1_2(),
            self.epoch,
            self.sequence_number,
            &[1u8],
        );
        proof {
            reveal(record_of);
            reveal(message_of);
            assert((&[1u8])@ =~= seq![1u8]);
        }
        let ghost change_act = ActionView::Send(change@);
        push_send(out, change);
        self.epoch = self.epoch.wrapping_add(1);
        self.sequence_number = 0;
        let verify_data = match &self.keys {
            Some(k) => keys::calculate_verify_data(
                k.master_secret.as_slice(),
                label,
                self.transcript.as_slice(),
            ),
            None => {
                let mut zeros: Vec<u8> = Vec::new();
                wire::put_repeated(&mut zeros, 0, 12);
                assert(zeros@ =~= wire::repeated(0, 12));
                zeros
            },
        };
        let finished = Finished { verify_data };
        let message = HandshakeMessage::whole(
            HandshakeType::Finished,
            self.message_seq,
            finished.encode(),
        );
        let raw = message.encode();
        wire::put_bytes(&mut self.transcript, raw.as_slice());
        let ghost n = self@;
        assert(acts(out@) =~= before + seq![change_act]);
        let payload = match &self.keys {
            Some(k) => {
                if self.epoch > 0 {
                    let (key, iv) = k.writing(self.is_client);
                    let seq: u64 = ((self.epoch as u64) << 48) | self.sequence_number;
                    keys::encrypt_record(
                        ContentType::Handshake,
                        ProtocolVersion::dtls_1_2(),
                        seq,
                        raw.as_slice(),
                        key.as_slice(),
                        iv.as_slice(),
                    )?
                } else {
                    raw
                }
            },
            None => raw,
        };
        let datagram = record::build_record(
            ContentType::Handshake,
            ProtocolVersion::dtls_1_2(),
            self.epoch,
            self.sequence_number,
            payload.as_slice(),
        );
        self.sequence_number = self.sequence_number.wrapping_add(1);
        let ghost last = ActionView::Send(datagram@);
        push_send(out, datagram);
        assert(acts(out@) =~= before + seq![change_act, last]);
        Ok(())
    }
}

impl DtlsTransport {
    /// The answer of a client to the end of the server's flight.
    fn send_client_flight(&mut self, out: &mut Vec<DtlsAction>) -> (r: DtlsResult<()>)
        requires
            old(self)@.wf(),
        ensures
            final(self)@ == client_flight(old(self)@).session,
            acts(final(out)@) == acts(old(out)@) + client_flight(old(self)@).actions,
            ends(r, client_flight(old(self)@).error),
            final(self)@.wf(),
    {
        let ghost before = acts(out@);
        let ghost s = self@;
        let share = ClientKeyExchange {
            identity_hint: Vec::new(),
            public_key: keys::copy_all(&self.public_key),
        };
        let body = share.encode();
        let ghost first = clear(s, HandshakeType::ClientKeyExchange, body@);
        self.send_message(HandshakeType::ClientKeyExchange, body, out);
        assert(acts(out@) =~= before + seq![first]);
        let agreed = self.complete_exchange();
        if agreed {
            let ghost f = finishing(self@, "client finished".spec_bytes());
            let ghost middle = acts(out@);
            let r = self.finish("client finished".as_bytes(), out);
            assert(acts(out@) =~= before + (seq![first] + f.actions));
            r?;
            self.message_seq = self.message_seq.wrapping_add(1);
        }
        Ok(())
    }

    /// Whether the peer's `Finished` message does not confirm the handshake.
    fn refutes(&self, label: &[u8], data: &[u8]) -> (r: bool)
        ensures
            r == refuted(self@, label@, data@),
    {
        match &self.keys {
            Some(k) => {
                let expected = keys::calculate_verify_data(
                    k.master_secret.as_slice(),
                    label,
                    self.transcript.as_slice(),
                );
                !wire::bytes_eq(data, expected.as_slice())
            },
            None => false,
        }
    }

    /// The end of a handshake for a server.
    fn on_client_finished(&mut self, raw: &[u8], data: &[u8], out: &mut Vec<DtlsAction>) -> (r:
        DtlsResult<()>)
        requires
            old(self)@.wf(),
        ensures
            final(self)@ == client_finished(old(self)@, raw@, data@).session,
            acts(final(out)@) == acts(old(out)@) + client_finished(
                old(self)@,
                raw@,
                data@,
            ).actions,
            ends(r, client_finished(old(self)@, raw@, data@).error),
            final(self)@.wf(),
    {
        let ghost before = acts(out@);
        if self.refutes("client finished".as_bytes(), data) {
            self.state = DtlsState::Failed;
            assert(acts(out@) =~= before + seq![]);
            return Err(DtlsError::FinishedVerificationFailed);
        }
        wire::put_bytes(&mut self.transcript, raw);
        self.finish("server finished".as_bytes(), out)?;
        match &self.keys {
            Some(k) => {
                self.state = DtlsState::Connected(k.copy());
                Ok(())
            },
            None => {
                self.state = DtlsState::Failed;
                Err(DtlsError::SessionKeysNotDerived)
            },
        }
    }

    /// The end of a handshake for a client.
    fn on_server_finished(&mut self, data: &[u8]) -> (r: DtlsResult<()>)
        requires
            old(self)@.wf(),
        ensures
            final(self)@ == server_finished(old(self)@, data@).session,
            ends(r, server_finished(old(self)@, data@).error),
            final(self)@.wf(),
    {
        if self.refutes("server finished".as_bytes(), data) {
            self.state = DtlsState::Failed;
            return Err(DtlsError::FinishedVerificationFailed);
        }
        if let Some(k) = &self.keys {
            self.state = DtlsState::Connected(k.copy());
        }
        Ok(())
    }

    /// The answer to a request to repeat the hello with a cookie.
    fn repeat_hello(&mut self, cookie: Vec<u8>, random: Random, out: &mut Vec<DtlsAction>)
        requires
            old(self)@.wf(),
        ensures
            final(self)@ == repeated_hello(old(self)@, cookie@, random.octets()).session,
            acts(final(out)@) == acts(old(out)@) + repeated_hello(
                old(self)@,
                cookie@,
                random.octets(),
            ).actions,
            final(self)@.wf(),
    {
        let ghost before = acts(out@);
        let used = match &self.client_random {
            Some(octets) => {
                let again = Random {
                    gmt_unix_time: wire::get_u32(octets.as_slice(), 0),
                    random_bytes: wire::copy_range(octets.as_slice(), 4, 32),
                };
                proof {
                    wire::lemma_enc32_be32(octets@, 0);
                    wire::lemma_glue(octets@, 0, 4, 32);
                    assert(octets@.subrange(0, 32) =~= octets@);
                }
                again
            },
            None => random,
        };
        self.transcript = Vec::new();
        assert(self.transcript@ =~= seq![]);
        let ghost c = self@;
        let body = build_client_hello(used, cookie);
        let ghost b = body@;
        self.send_message(HandshakeType::ClientHello, body, out);
        assert(acts(out@) =~= before + seq![clear(c, HandshakeType::ClientHello, b)]);
    }

    /// Handles one handshake message. `raw` is the message on the wire, `random` a random value
    /// in case the answer needs one.
    pub fn handle_message(
        &mut self,
        message: &HandshakeMessage,
        raw: &[u8],
        random: Random,
        out: &mut Vec<DtlsAction>,
    ) -> (r: DtlsResult<()>)
        requires
            old(self)@.wf(),
            random.wf(),
        ensures
            final(self)@ == on_message(old(self)@, message@, raw@, random.octets()).session,
            acts(final(out)@) == acts(old(out)@) + on_message(
                old(self)@,
                message@,
                raw@,
                random.octets(),
            ).actions,
            ends(r, on_message(old(self)@, message@, raw@, random.octets()).error),
            final(self)@.wf(),
    {
        reveal(on_message);
        let ghost before = acts(out@);
        assert(before + seq![] =~= before);
        let t = message.msg_type;
        if !(t == HandshakeType::Finished || t == HandshakeType::HelloRequest || t
            == HandshakeType::HelloVerifyRequest) {
            wire::put_bytes(&mut self.transcript, raw);
        }
        match t {
            HandshakeType::ClientHello => {
                if !self.is_client {
                    if let Ok(hello) = ClientHello::decode(message.body.as_slice()) {
                        return self.send_server_flight(&hello, random, out);
                    }
                }
                Ok(())
            },
            HandshakeType::ClientKeyExchange => {
                if !self.is_client {
                    if let Ok(share) = ClientKeyExchange::decode(message.body.as_slice()) {
                        self.peer_public_key = Some(share.public_key);
                        self.complete_exchange();
                    }
                }
                Ok(())
            },
            HandshakeType::Finished => {
                if let Ok(finished) = Finished::decode(message.body.as_slice()) {
                    if self.is_client {
                        return self.on_server_finished(finished.verify_data.as_slice());
                    }
                    return self.on_client_finished(raw, finished.verify_data.as_slice(), out);
                }
                Ok(())
            },
            HandshakeType::HelloVerifyRequest => {
                if let Ok(request) = HelloVerifyRequest::decode(message.body.as_slice()) {
                    self.repeat_hello(request.cookie, random, out);
                }
                Ok(())
            },
            HandshakeType::ServerHello => {
                if self.is_client {
                    if let Ok(hello) = ServerHello::decode(message.body.as_slice()) {
                        self.server_random = Some(hello.random.to_bytes());
                    }
                }
                Ok(())
            },
            HandshakeType::ServerKeyExchange => {
                if self.is_client {
                    if let Ok(share) = ServerKeyExchange::decode(message.body.as_slice()) {
                        self.peer_public_key = Some(share.public_key);
                    }
                }
                Ok(())
            },
            HandshakeType::ServerHelloDone => self.send_client_flight(out),
            _ => Ok(()),
        }
    }
}

/// Whether `drawn` are the random values of `randoms` from `used` on.
pub open spec fn drawn_from(randoms: Seq<Seq<u8>>, used: nat, drawn: Seq<Seq<u8>>) -> bool {
    &&& used + drawn.len() <= randoms.len()
    &&& forall|i: int| 0 <= i < drawn.len() ==> randoms[used + i] == #[trigger] drawn[i]
}

/// Whether `drawn` are random values with the time `now`.
pub open spec fn timed(drawn: Seq<Seq<u8>>, now: u32) -> bool {
    forall|i: int|
        0 <= i < drawn.len() ==> (#[trigger] drawn[i]).len() == 32 && drawn[i].subrange(0, 4)
            == wire::enc32(now)
}

/// Whether `whole` is what remains to be done as `rest`, after the actions `done`.
pub open spec fn resumes(whole: Step, done: Seq<ActionView>, rest: Step) -> bool {
    &&& whole.session == rest.session
    &&& whole.actions == done + rest.actions
    &&& whole.error == rest.error
    &&& whole.used == rest.used
}

proof fn lemma_resumes(whole: Step, done: Seq<ActionView>, first: Step, next: Step)
    requires
        resumes(whole, done, and_next(first, next)),
    ensures
        resumes(whole, done + first.actions, next),
{
    assert(done + (first.actions + next.actions) =~= (done + first.actions) + next.actions);
}

impl DtlsTransport {
    /// Handles the handshake messages in the payload of a record.
    fn handle_messages(&mut self, body: &[u8], now: u32, out: &mut Vec<DtlsAction>) -> (r: (
        DtlsResult<()>,
        Ghost<Seq<Seq<u8>>>,
    ))
        requires
            old(self)@.wf(),
        ensures
            final(self)@.wf(),
            timed(r.1@, now),
            forall|randoms: Seq<Seq<u8>>, used: nat|
                drawn_from(randoms, used, r.1@) ==> {
                    let step = #[trigger] on_messages(old(self)@, body@, randoms, used);
                    &&& step.session == final(self)@
                    &&& acts(final(out)@) == acts(old(out)@) + step.actions
                    &&& ends(r.0, step.error)
                    &&& step.used == used + r.1@.len()
                },
    {
        let n: usize = body.len();
        let ghost s0 = self@;
        let ghost out0 = acts(out@);
        let ghost mut done: Seq<ActionView> = seq![];
        let ghost mut drawn: Seq<Seq<u8>> = seq![];
        let mut at: usize = 0;
        proof {
            assert(body@.skip(0) =~= body@);
            assert(acts(out@) =~= out0 + done);
            assert forall|randoms: Seq<Seq<u8>>, used: nat| resumes(
                #[trigger] on_messages(s0, body@, randoms, used),
                done,
                on_messages(self@, body@.skip(at as int), randoms, used + drawn.len()),
            ) by {
                let st = on_messages(s0, body@, randoms, used);
                assert(done + st.actions =~= st.actions);
            }
        }
        loop
            invariant
                self@.wf(),
                n == body@.len(),
                at <= n,
                s0 == old(self)@,
                out0 == acts(old(out)@),
                acts(out@) == out0 + done,
                timed(drawn, now),
                forall|randoms: Seq<Seq<u8>>, used: nat|
                    drawn_from(randoms, used, drawn) ==> resumes(
                        #[trigger] on_messages(s0, body@, randoms, used),
                        done,
                        on_messages(self@, body@.skip(at as int), randoms, used + drawn.len()),
                    ),
            decreases n - at,
        {
            let ghost before = self@;
            let ghost rest = body@.skip(at as int);
            let ghost drawn0 = drawn;
            let ghost done0 = done;
            let rest_exec = vstd::slice::slice_subrange(body, at, n);
            assert(rest_exec@ =~= rest);
            let (message, len) = match HandshakeMessage::decode(rest_exec) {
                Ok(Some(x)) => x,
                _ => {
                    proof {
                        assert forall|randoms: Seq<Seq<u8>>, used: nat|
                            drawn_from(randoms, used, drawn) implies ({
                            let step = #[trigger] on_messages(s0, body@, randoms, used);
                            &&& step.session == self@
                            &&& acts(out@) == out0 + step.actions
                            &&& step.error is None
                            &&& step.used == used + drawn.len()
                        }) by {
                            let last = on_messages(self@, rest, randoms, used + drawn.len());
                            assert(last.actions =~= seq![]);
                            assert(done + seq![] =~= done);
                        }
                    }
                    return (Ok(()), Ghost(drawn));
                },
            };
            let random = fresh_random(now);
            let ghost octets = random.octets();
            let raw = vstd::slice::slice_subrange(rest_exec, 0, len);
            assert(raw@ =~= rest.take(len as int));
            let ghost step = on_message(before, message@, raw@, octets);
            let r = self.handle_message(&message, raw, random, out);
            proof {
                assert(octets.subrange(0, 4) =~= wire::enc32(now));
                drawn = drawn.push(octets);
                done = done + step.actions;
                assert(acts(out@) =~= out0 + done);
                assert forall|randoms: Seq<Seq<u8>>, used: nat|
                    drawn_from(randoms, used, drawn) implies drawn_from(randoms, used, drawn0)
                    && randoms[(used + drawn0.len()) as int] == octets by {
                    assert forall|i: int| 0 <= i < drawn0.len() implies randoms[used + i]
                        == #[trigger] drawn0[i] by {
                        assert(drawn[i] == drawn0[i]);
                    }
                    assert(drawn[drawn0.len() as int] == octets);
                }
            }
            if r.is_err() {
                proof {
                    assert forall|randoms: Seq<Seq<u8>>, used: nat|
                        drawn_from(randoms, used, drawn) implies ({
                        let whole = #[trigger] on_messages(s0, body@, randoms, used);
                        &&& whole.session == self@
                        &&& acts(out@) == out0 + whole.actions
                        &&& whole.error == step.error
                        &&& whole.used == used + drawn.len()
                    }) by {
                        let last = on_messages(before, rest, randoms, used + drawn0.len());
                        assert(last.session == step.session);
                    }
                }
                return (r, Ghost(drawn));
            }
            at = at + len;
            proof {
                assert(rest.skip(len as int) =~= body@.skip(at as int));
                assert forall|randoms: Seq<Seq<u8>>, used: nat|
                    drawn_from(randoms, used, drawn) implies resumes(
                    #[trigger] on_messages(s0, body@, randoms, used),
                    done,
                    on_messages(self@, body@.skip(at as int), randoms, used + drawn.len()),
                ) by {
                    let whole = on_messages(s0, body@, randoms, used);
                    let k = used + drawn0.len();
                    let first = Step { used: k + 1, ..step };
                    let next = on_messages(self@, body@.skip(at as int), randoms, k + 1);
                    assert(resumes(whole, done0, on_messages(before, rest, randoms, k)));
                    assert(on_messages(before, rest, randoms, k) == and_next(first, next));
                    lemma_resumes(whole, done0, first, next);
                }
            }
        }
    }
}

/// What a datagram leads to: what its records lead to. A failure ends the connection.
pub open spec fn on_datagram(s: SessionView, data: Seq<u8>, randoms: Seq<Seq<u8>>) -> Step {
    let step = on_records(s, data, randoms, 0);
    if step.error is Some {
        Step { session: SessionView { state: StateView::Failed, ..step.session }, ..step }
    } else {
        step
    }
}

impl DtlsTransport {
    /// The payload of a received record, decrypted where it left the first epoch.
    fn open_payload(&self, r: &DtlsRecord) -> (p: Option<Vec<u8>>)
        requires
            self@.wf(),
        ensures
            crypto::bytes_of(p) == received_payload(self@, r@),
    {
        let payload = buffer::bytes_slice(&r.payload);
        if r.epoch == 0 {
            let whole = wire::copy_range(payload, 0, payload.len());
            assert(whole@ =~= payload@);
            return Some(whole);
        }
        match &self.keys {
            Some(k) => {
                let (key, iv) = k.writing(!self.is_client);
                let seq: u64 = ((r.epoch as u64) << 48) | r.sequence_number;
                match keys::decrypt_record(
                    r.content_type,
                    r.version,
                    seq,
                    payload,
                    key.as_slice(),
                    iv.as_slice(),
                ) {
                    Ok(plain) => Some(plain),
                    Err(_) => None,
                }
            },
            None => None,
        }
    }

    /// Handles the payload of a received record.
    fn handle_payload(
        &mut self,
        content_type: ContentType,
        payload: Vec<u8>,
        now: u32,
        out: &mut Vec<DtlsAction>,
    ) -> (r: (DtlsResult<()>, Ghost<Seq<Seq<u8>>>))
        requires
            old(self)@.wf(),
        ensures
            final(self)@.wf(),
            timed(r.1@, now),
            forall|randoms: Seq<Seq<u8>>, used: nat|
                drawn_from(randoms, used, r.1@) ==> {
                    let step = #[trigger] on_payload(
                        old(self)@,
                        content_type,
                        payload@,
                        randoms,
                        used,
                    );
                    &&& step.session == final(self)@
                    &&& acts(final(out)@) == acts(old(out)@) + step.actions
                    &&& ends(r.0, step.error)
                    &&& step.used == used + r.1@.len()
                },
    {
        let ghost none: Seq<Seq<u8>> = seq![];
        match content_type {
            ContentType::ApplicationData => {
                proof {
                    lemma_acts_push(out@, DtlsAction::Deliver(payload));
                    assert(acts(out@).push(ActionView::Deliver(payload@)) =~= acts(out@) + seq![
                        ActionView::Deliver(payload@),
                    ]);
                }
                out.push(DtlsAction::Deliver(payload));
                (Ok(()), Ghost(none))
            },
            ContentType::Handshake => self.handle_messages(payload.as_slice(), now, out),
            _ => {
                assert(acts(out@) + seq![] =~= acts(out@));
                (Ok(()), Ghost(none))
            },
        }
    }

    /// Handles a datagram of the peer. `now` is the time in seconds, for the random values that
    /// are drawn. A failure ends the connection; what is to be done before it is still to be
    /// done.
    pub fn handle_datagram(&mut self, packet: Vec<u8>, now: u32) -> (r: (
        Vec<DtlsAction>,
        DtlsResult<()>,
    ))
        requires
            old(self)@.wf(),
        ensures
            final(self)@.wf(),
            exists|randoms: Seq<Seq<u8>>| {
                let step = #[trigger] on_datagram(old(self)@, packet@, randoms);
                &&& step.session == final(self)@
                &&& step.actions == acts(r.0@)
                &&& ends(r.1, step.error)
                &&& step.used == randoms.len()
                &&& timed(randoms, now)
            },
    {
        let mut out: Vec<DtlsAction> = Vec::new();
        let mut data = buffer::bytes_from(packet);
        let ghost s0 = self@;
        let ghost all = packet@;
        let ghost mut done: Seq<ActionView> = seq![];
        let ghost mut drawn: Seq<Seq<u8>> = seq![];
        proof {
            assert(acts(out@) =~= done);
            assert forall|randoms: Seq<Seq<u8>>| resumes(
                #[trigger] on_records(s0, all, randoms, 0),
                done,
                on_records(self@, buffer::bytes_content(data), randoms, drawn.len()),
            ) by {
                let st = on_records(s0, all, randoms, 0);
                assert(done + st.actions =~= st.actions);
            }
        }
        loop
            invariant
                self@.wf(),
                s0 == old(self)@,
                all == packet@,
                acts(out@) == done,
                timed(drawn, now),
                forall|randoms: Seq<Seq<u8>>|
                    drawn_from(randoms, 0, drawn) ==> resumes(
                        #[trigger] on_records(s0, all, randoms, 0),
                        done,
                        on_records(self@, buffer::bytes_content(data), randoms, drawn.len()),
                    ),
            decreases buffer::bytes_content(data).len(),
        {
            let ghost before = self@;
            let ghost rest = buffer::bytes_content(data);
            let ghost drawn0 = drawn;
            let ghost done0 = done;
            let opened = match DtlsRecord::decode(&mut data) {
                Ok(Some(r)) => match self.open_payload(&r) {
                    Some(payload) => Some((r.content_type, payload)),
                    None => None,
                },
                _ => None,
            };
            let (content_type, payload) = match opened {
                Some(x) => x,
                None => {
                    proof {
                        let whole = on_datagram(s0, all, drawn);
                        assert(drawn_from(drawn, 0, drawn));
                        assert(resumes(
                            on_records(s0, all, drawn, 0),
                            done,
                            on_records(before, rest, drawn, drawn.len()),
                        ));
                        assert(done + seq![] =~= done);
                        assert(whole.session == self@ && whole.actions == acts(out@));
                    }
                    return (out, Ok(()));
                },
            };
            let ghost plain = payload@;
            let (r, Ghost(more)) = self.handle_payload(content_type, payload, now, &mut out);
            let ghost after = self@;
            let ghost len = record::record_len(rest);
            proof {
                drawn = drawn0 + more;
                assert(timed(drawn, now));
                assert forall|randoms: Seq<Seq<u8>>|
                    drawn_from(randoms, 0, drawn) implies drawn_from(randoms, 0, drawn0)
                    && drawn_from(randoms, drawn0.len(), more) by {
                    assert forall|i: int| 0 <= i < drawn0.len() implies randoms[0 + i]
                        == #[trigger] drawn0[i] by {
                        assert(drawn[i] == drawn0[i]);
                    }
                    assert forall|i: int| 0 <= i < more.len() implies randoms[drawn0.len() + i]
                        == #[trigger] more[i] by {
                        assert(drawn[drawn0.len() + i] == more[i]);
                    }
                }
                assert(drawn_from(drawn, 0, drawn));
                let step = on_payload(before, content_type, plain, drawn, drawn0.len());
                done = done0 + step.actions;
                assert forall|randoms: Seq<Seq<u8>>| drawn_from(randoms, 0, drawn) implies ({
                    let same = #[trigger] on_payload(
                        before,
                        content_type,
                        plain,
                        randoms,
                        drawn0.len(),
                    );
                    &&& same.session == after
                    &&& same.actions == step.actions
                    &&& ends(r, same.error)
                    &&& same.used == drawn.len()
                }) by {
                    let same = on_payload(before, content_type, plain, randoms, drawn0.len());
                    assert(acts(out@) == done0 + same.actions);
                    assert(acts(out@) == done0 + step.actions);
                    assert(same.actions =~= (done0 + same.actions).skip(done0.len() as int));
                    assert(step.actions =~= (done0 + step.actions).skip(done0.len() as int));
                }
            }
            if r.is_err() {
                self.state = DtlsState::Failed;
                proof {
                    let whole = on_datagram(s0, all, drawn);
                    let last = on_records(before, rest, drawn, drawn0.len());
                    assert(resumes(on_records(s0, all, drawn, 0), done0, last));
                    assert(last == on_payload(before, content_type, plain, drawn, drawn0.len()));
                    assert(whole.session == self@ && whole.actions == acts(out@));
                }
                return (out, r);
            }
            proof {
                assert(rest.skip(len) == buffer::bytes_content(data));
                assert forall|randoms: Seq<Seq<u8>>| drawn_from(randoms, 0, drawn) implies resumes(
                    #[trigger] on_records(s0, all, randoms, 0),
                    done,
                    on_records(self@, buffer::bytes_content(data), randoms, drawn.len()),
                ) by {
                    let whole = on_records(s0, all, randoms, 0);
                    let first = on_payload(before, content_type, plain, randoms, drawn0.len());
                    let next = on_records(self@, buffer::bytes_content(data), randoms, drawn.len());
                    assert(resumes(whole, done0, on_records(before, rest, randoms, drawn0.len())));
                    assert(on_records(before, rest, randoms, drawn0.len()) == and_next(first, next));
                    lemma_resumes(whole, done0, first, next);
                }
            }
        }
    }
}

/// The keying material that a connection exports under a label (RFC 5705, without a context).
pub open spec fn exported(k: KeysView, label: Seq<u8>, len: nat) -> Seq<u8> {
    keys::prf(k.master_secret, label, k.client_random + k.server_random, len)
}

impl DtlsTransport {
    /// Protects data of the application. `None` where there are no keys, or the data is longer
    /// than 2^36 bytes. The other end hands the data to its application, once this end has left
    /// the first epoch, where the record fits its length field.
    pub fn send(&mut self, data: &[u8]) -> (r: Option<Vec<u8>>)
        requires
            old(self)@.wf(),
        ensures
            final(self)@.wf(),
            final(self)@ == on_outgoing(old(self)@, data@).session,
            match r {
                Some(d) => on_outgoing(old(self)@, data@).actions == seq![ActionView::Send(d@)],
                None => on_outgoing(old(self)@, data@).actions.len() == 0,
            },
            r is Some <==> old(self)@.keys is Some && data@.len() <= 0x10_0000_0000,
            r matches Some(d) ==> forall|peer: SessionView, randoms: Seq<Seq<u8>>, used: nat|
                peer.keys == old(self)@.keys && peer.is_client != old(self)@.is_client && old(
                    self
                )@.epoch > 0 && old(self)@.sequence_number < 0x1_0000_0000_0000 && data@.len()
                    <= 65511 ==> #[trigger] on_records(peer, d@, randoms, used) == (Step {
                    session: peer,
                    actions: seq![ActionView::Deliver(data@)],
                    error: None,
                    used,
                }),
    {
        let ghost s = self@;
        let sealed = match &self.keys {
            Some(k) => {
                let (key, iv) = k.writing(self.is_client);
                let seq: u64 = ((self.epoch as u64) << 48) | self.sequence_number;
                keys::encrypt_record(
                    ContentType::ApplicationData,
                    ProtocolVersion::dtls_1_2(),
                    seq,
                    data,
                    key.as_slice(),
                    iv.as_slice(),
                )
            },
            None => {
                return None;
            },
        };
        match sealed {
            Ok(payload) => {
                let datagram = record::build_record(
                    ContentType::ApplicationData,
                    ProtocolVersion::dtls_1_2(),
                    self.epoch,
                    self.sequence_number,
                    payload.as_slice(),
                );
                self.sequence_number = self.sequence_number.wrapping_add(1);
                proof {
                    reveal(record_of);
                    assert forall|peer: SessionView, randoms: Seq<Seq<u8>>, used: nat|
                        peer.keys == s.keys && peer.is_client != s.is_client && s.epoch > 0
                            && s.sequence_number < 0x1_0000_0000_0000 && data@.len() <= 65511
                        implies #[trigger] on_records(peer, datagram@, randoms, used) == (Step {
                        session: peer,
                        actions: seq![ActionView::Deliver(data@)],
                        error: None,
                        used,
                    }) by {
                        lemma_delivered(s, peer, payload@, data@, randoms, used);
                    }
                }
                Some(datagram)
            },
            Err(_) => None,
        }
    }

    /// Derives keying material for another protocol from the keys of the connection.
    pub fn export_keying_material(&self, label: &str, len: usize) -> (r: DtlsResult<Vec<u8>>)
        ensures
            match self@.state {
                StateView::Connected(k) => r is Ok && r->Ok_0@ == exported(
                    k,
                    label.spec_bytes(),
                    len as nat,
                ) && r->Ok_0@.len() == len,
                _ => r == Err::<Vec<u8>, DtlsError>(DtlsError::NotConnected),
            },
    {
        match &self.state {
            DtlsState::Connected(k) => {
                let seed = keys::concat(k.client_random.as_slice(), k.server_random.as_slice());
                Ok(
                    keys::prf_sha256(
                        k.master_secret.as_slice(),
                        label.as_bytes(),
                        seed.as_slice(),
                        len,
                    ),
                )
            },
            _ => Err(DtlsError::NotConnected),
        }
    }

    /// Ends the connection after a failure outside it.
    pub fn fail(&mut self)
        requires
            old(self)@.wf(),
        ensures
            final(self)@ == (SessionView { state: StateView::Failed, ..old(self)@ }),
            final(self)@.wf(),
    {
        self.state = DtlsState::Failed;
    }
}

proof fn lemma_delivered(
    s: SessionView,
    peer: SessionView,
    payload: Seq<u8>,
    data: Seq<u8>,
    randoms: Seq<Seq<u8>>,
    used: nat,
)
    requires
        s.keys is Some,
        peer.keys == s.keys,
        peer.is_client != s.is_client,
        s.epoch > 0,
        s.sequence_number < 0x1_0000_0000_0000,
        payload.len() < 0x1_0000,
        keys::record_opened(
            ContentType::ApplicationData,
            ProtocolVersion::dtls_1_2(),
            full_seq(s.epoch, s.sequence_number),
            payload,
            s.keys->0.write_key(s.is_client),
            s.keys->0.write_iv(s.is_client),
        ) == Ok::<Seq<u8>, DtlsError>(data),
    ensures
        on_records(peer, record_of(s, ContentType::ApplicationData, payload), randoms, used) == (
        Step {
            session: peer,
            actions: seq![ActionView::Deliver(data)],
            error: None,
            used,
        }),
{
    reveal(record_of);
    let r = RecordView {
        content_type: ContentType::ApplicationData,
        version: ProtocolVersion::dtls_1_2(),
        epoch: s.epoch,
        sequence_number: s.sequence_number,
        payload,
    };
    let d = record::record_bytes(r);
    let none: Seq<u8> = seq![];
    assert(d + none =~= d);
    record::law_decode_of_encoded(r, none);
    let len = record::record_len(d);
    assert(d.skip(len) == none);
    let step = on_payload(peer, ContentType::ApplicationData, data, randoms, used);
    let rest = on_records(peer, none, randoms, used);
    assert(record::record_decoded(none) == Ok::<Option<RecordView>, DtlsError>(None));
    assert(rest.actions =~= seq![]);
    assert(step.actions + rest.actions =~= step.actions);
}

/// A message makes a connection an established one only if it is a `Finished` message with the
/// twelve bytes that the transcript and the master secret ask for.
pub proof fn law_established_when_confirmed(
    s: SessionView,
    m: MessageView,
    raw: Seq<u8>,
    random: Seq<u8>,
)
    requires
        !(s.state is Connected),
        on_message(s, m, raw, random).session.state is Connected,
    ensures
        m.msg_type == HandshakeType::Finished,
        s.keys is Some,
        m.body == keys::verify_data(
            s.keys->0.master_secret,
            if s.is_client {
                "server finished".spec_bytes()
            } else {
                "client finished".spec_bytes()
            },
            s.transcript,
        ),
        on_message(s, m, raw, random).session.state == StateView::Connected(s.keys->0),
{
    reveal(on_message);
}

/// A message never changes the keys of a connection that has keys, nor gives a secret key back
/// that was used.
pub proof fn law_keys_are_kept(s: SessionView, m: MessageView, raw: Seq<u8>, random: Seq<u8>)
    requires
        s.secret is None,
    ensures
        on_message(s, m, raw, random).session.secret is None,
        on_message(s, m, raw, random).session.keys == s.keys,
        on_message(s, m, raw, random).session.is_client == s.is_client,
{
    reveal(on_message);
}

proof fn lemma_keys_kept_by_messages(
    s: SessionView,
    body: Seq<u8>,
    randoms: Seq<Seq<u8>>,
    used: nat,
)
    requires
        s.secret is None,
    ensures
        on_messages(s, body, randoms, used).session.secret is None,
        on_messages(s, body, randoms, used).session.keys == s.keys,
    decreases body.len(),
{
    if let Ok(Some(m)) = handshake::message_decoded(body) {
        let len = handshake::message_len(body);
        let random = randoms[used as int];
        let step = on_message(s, m, body.take(len), random);
        law_keys_are_kept(s, m, body.take(len), random);
        if !(step.error is Some || len < 12 || len > body.len()) {
            lemma_keys_kept_by_messages(step.session, body.skip(len), randoms, used + 1);
        }
    }
}

proof fn lemma_keys_kept_by_records(
    s: SessionView,
    data: Seq<u8>,
    randoms: Seq<Seq<u8>>,
    used: nat,
)
    requires
        s.secret is None,
    ensures
        on_records(s, data, randoms, used).session.secret is None,
        on_records(s, data, randoms, used).session.keys == s.keys,
    decreases data.len(),
{
    if let Ok(Some(r)) = record::record_decoded(data) {
        let len = record::record_len(data);
        if let Some(payload) = received_payload(s, r) {
            let step = on_payload(s, r.content_type, payload, randoms, used);
            if r.content_type == ContentType::Handshake {
                lemma_keys_kept_by_messages(s, payload, randoms, used);
            }
            if !(step.error is Some || len < 13 || len > data.len()) {
                lemma_keys_kept_by_records(step.session, data.skip(len), randoms, step.used);
            }
        }
    }
}

/// No datagram changes the keys of a connection once its secret key was used.
pub proof fn law_datagrams_keep_keys(s: SessionView, data: Seq<u8>, randoms: Seq<Seq<u8>>)
    requires
        s.secret is None,
    ensures
        on_datagram(s, data, randoms).session.secret is None,
        on_datagram(s, data, randoms).session.keys == s.keys,
{
    lemma_keys_kept_by_records(s, data, randoms, 0);
}

/// Whether a handler's result is the failure that `e` says, if any.
pub open spec fn ends(r: DtlsResult<()>, e: Option<DtlsError>) -> bool {
    match r {
        Ok(_) => e is None,
        Err(x) => e == Some(x),
    }
}

/// A copy of a list of buffers.
fn copy_list(vs: &Vec<Vec<u8>>) -> (r: Vec<Vec<u8>>)
    ensures
        handshake::contents(r@) == handshake::contents(vs@),
{
    let n: usize = vs.len();
    let mut out: Vec<Vec<u8>> = Vec::new();
    let mut i: usize = 0;
    while i < n
        invariant
            n == vs@.len(),
            i <= n,
            out@.len() == i,
            forall|k: int| 0 <= k < i ==> (#[trigger] out@[k])@ == vs@[k]@,
        decreases n - i,
    {
        out.push(keys::copy_all(&vs[i]));
        i += 1;
    }
    assert(handshake::contents(out@) =~= handshake::contents(vs@));
    out
}

} // verus!
