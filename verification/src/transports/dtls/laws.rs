//! How the two ends of a connection come to an agreement.
use vstd::prelude::*;
use vstd::string::*;

use crate::crypto;
use crate::transports::dtls::error::DtlsError;
use crate::transports::dtls::handshake;
use crate::transports::dtls::handshake::{
    ClientHelloView, HandshakeType, MessageView, ServerHelloView,
};
use crate::transports::dtls::keys;
use crate::transports::dtls::keys::KeysView;
use crate::transports::dtls::record;
use crate::transports::dtls::record::{ContentType, ProtocolVersion, RecordView};
use crate::transports::dtls::session;
use crate::transports::dtls::session::{ActionView, SessionView, StateView, Step};
use crate::wire;

verus! {

/// What the cryptographic functions promise where they are called: codes, keys and seals have
/// their lengths, a sealed message can be opened, and two key pairs share one secret.
pub open spec fn primitives_hold() -> bool {
    &&& forall|key: Seq<u8>, data: Seq<u8>| (#[trigger] crypto::hmac_sha256(key, data)).len() == 32
    &&& forall|key: Seq<u8>, nonce: Seq<u8>, aad: Seq<u8>, msg: Seq<u8>|
        key.len() == 16 && nonce.len() == 12 && crypto::gcm_fits(aad, msg) ==> (
        #[trigger] crypto::gcm_sealed(key, nonce, aad, msg) matches Some(sealed) && sealed.len()
            == msg.len() + 16 && crypto::gcm_opened(key, nonce, aad, sealed) == Some(msg))
    &&& forall|secret: Seq<u8>|
        (#[trigger] crypto::p256_public(secret) matches Some(public) ==> public.len() == 65)
    &&& forall|a: Seq<u8>, b: Seq<u8>, pa: Seq<u8>, pb: Seq<u8>|
        #![trigger crypto::p256_shared(a, pb), crypto::p256_shared(b, pa)]
        crypto::p256_public(a) == Some(pa) && crypto::p256_public(b) == Some(pb)
            ==> crypto::p256_shared(a, pb) is Some && crypto::p256_shared(a, pb)
            == crypto::p256_shared(b, pa)
}

/// Whether `s` is one end before its handshake, with a key pair of its own.
pub open spec fn ready(s: SessionView) -> bool {
    &&& s.secret matches Some(secret) && crypto::p256_public(secret) == Some(s.public_key)
        && s == session::new_session(
        s.certificates,
        s.private_key,
        s.is_client,
        secret,
        s.public_key,
    )
}

/// What the datagrams of a flight lead to, one after the other, until one fails. `draws` holds
/// the random values to draw for each.
pub open spec fn on_flight(
    s: SessionView,
    flight: Seq<ActionView>,
    draws: Seq<Seq<Seq<u8>>>,
) -> Step
    decreases flight.len(),
{
    if flight.len() == 0 {
        session::unchanged(s)
    } else {
        let step = match flight[0] {
            ActionView::Send(d) => session::on_datagram(s, d, draws[0]),
            ActionView::Deliver(_) => session::unchanged(s),
        };
        if step.error is Some {
            step
        } else {
            session::and_next(
                step,
                on_flight(step.session, flight.drop_first(), draws.drop_first()),
            )
        }
    }
}

/// The course of a handshake: the client's hello, the server's answer to it, the client's answer
/// to that, and what both make of the last flights.
pub struct Course {
    pub hello: Step,
    pub offer: Step,
    pub answer: Step,
    pub server: Step,
    pub client: Step,
}

/// The course of a handshake where every datagram arrives, and in order. `random` is the random
/// value of the client's hello, `draws` holds those to draw in each flight.
pub open spec fn course(
    client: SessionView,
    server: SessionView,
    random: Seq<u8>,
    draws: Seq<Seq<Seq<Seq<u8>>>>,
) -> Course {
    let hello = session::started(client, random);
    let offer = on_flight(session::started(server, random).session, hello.actions, draws[0]);
    let answer = on_flight(hello.session, offer.actions, draws[1]);
    let end = on_flight(offer.session, answer.actions, draws[2]);
    Course { hello, offer, answer, server: end, client: on_flight(answer.session, end.actions, draws[3]) }
}

/// A record of `s` arrives: `payload` is what it carries, `plain` what the peer reads of it.
proof fn lemma_record_arrives(
    s: SessionView,
    peer: SessionView,
    content_type: ContentType,
    payload: Seq<u8>,
    plain: Seq<u8>,
    randoms: Seq<Seq<u8>>,
)
    requires
        s.sequence_number < 0x1_0000_0000_0000,
        payload.len() < 0x1_0000,
        session::received_payload(
            peer,
            RecordView {
                content_type,
                version: ProtocolVersion::dtls_1_2(),
                epoch: s.epoch,
                sequence_number: s.sequence_number,
                payload,
            },
        ) == Some(plain),
        session::on_payload(peer, content_type, plain, randoms, 0).error is None,
    ensures
        ({
            let step = session::on_datagram(
                peer,
                session::record_of(s, content_type, payload),
                randoms,
            );
            let direct = session::on_payload(peer, content_type, plain, randoms, 0);
            &&& step.session == direct.session
            &&& step.actions == direct.actions
            &&& step.error is None
        }),
{
    reveal(session::record_of);
    let r = RecordView {
        content_type,
        version: ProtocolVersion::dtls_1_2(),
        epoch: s.epoch,
        sequence_number: s.sequence_number,
        payload,
    };
    let d = record::record_bytes(r);
    let none: Seq<u8> = seq![];
    assert(d + none =~= d);
    record::law_decode_of_encoded(r, none);
    assert(d.skip(record::record_len(d)) == none);
    let step = session::on_payload(peer, content_type, plain, randoms, 0);
    let rest = session::on_records(step.session, none, randoms, step.used);
    assert(record::record_decoded(none) == Ok::<Option<RecordView>, DtlsError>(None));
    assert(rest.actions =~= seq![]);
    assert(step.actions + rest.actions =~= step.actions);
}

/// A handshake message of `s` with this body is read by its peer.
proof fn lemma_message_read(
    s: SessionView,
    peer: SessionView,
    t: HandshakeType,
    body: Seq<u8>,
    randoms: Seq<Seq<u8>>,
)
    requires
        body.len() < 0xFF_0000,
        session::on_message(
            peer,
            handshake::whole_message(t, s.message_seq, body),
            session::message_of(s, t, body),
            randoms[0],
        ).error is None,
    ensures
        ({
            let raw = session::message_of(s, t, body);
            let step = session::on_payload(peer, ContentType::Handshake, raw, randoms, 0);
            let direct = session::on_message(
                peer,
                handshake::whole_message(t, s.message_seq, body),
                raw,
                randoms[0],
            );
            &&& step.session == direct.session
            &&& step.actions == direct.actions
            &&& step.error is None
            &&& raw.len() == 12 + body.len()
        }),
{
    reveal(session::message_of);
    let m = handshake::whole_message(t, s.message_seq, body);
    let raw = handshake::message_bytes(m);
    let none: Seq<u8> = seq![];
    assert(raw + none =~= raw);
    handshake::law_decode_of_message(m, none);
    assert(raw.len() == 12 + body.len());
    assert(raw.take(raw.len() as int) =~= raw);
    assert(raw.skip(raw.len() as int) =~= none);
    let direct = session::on_message(peer, m, raw, randoms[0]);
    let rest = session::on_messages(direct.session, none, randoms, 1);
    assert(rest.actions =~= seq![]);
    assert(direct.actions + rest.actions =~= direct.actions);
}

/// A handshake message of `s` that is sent in the clear arrives.
proof fn lemma_clear_arrives(
    s: SessionView,
    peer: SessionView,
    t: HandshakeType,
    body: Seq<u8>,
    randoms: Seq<Seq<u8>>,
)
    requires
        s.epoch == 0,
        s.sequence_number < 0x1_0000_0000_0000,
        body.len() < 0xFF00,
        session::on_message(
            peer,
            handshake::whole_message(t, s.message_seq, body),
            session::message_of(s, t, body),
            randoms[0],
        ).error is None,
    ensures
        ({
            let raw = session::message_of(s, t, body);
            let step = session::on_datagram(
                peer,
                session::record_of(s, ContentType::Handshake, raw),
                randoms,
            );
            let direct = session::on_message(
                peer,
                handshake::whole_message(t, s.message_seq, body),
                raw,
                randoms[0],
            );
            &&& step.session == direct.session
            &&& step.actions == direct.actions
            &&& step.error is None
        }),
{
    let raw = session::message_of(s, t, body);
    lemma_message_read(s, peer, t, body, randoms);
    lemma_record_arrives(s, peer, ContentType::Handshake, raw, raw, randoms);
}

/// A protected payload can be read by who has the key.
proof fn lemma_sealed_opens(
    content_type: ContentType,
    seq: u64,
    payload: Seq<u8>,
    key: Seq<u8>,
    iv: Seq<u8>,
)
    requires
        primitives_hold(),
        key.len() == 16,
        iv.len() == 4,
        payload.len() < 0x1_0000,
    ensures
        ({
            let version = ProtocolVersion::dtls_1_2();
            keys::record_sealed(content_type, version, seq, payload, key, iv) matches Ok(sealed)
                && sealed.len() == payload.len() + 24 && keys::record_opened(
                content_type,
                version,
                seq,
                sealed,
                key,
                iv,
            ) == Ok::<Seq<u8>, DtlsError>(payload)
        }),
{
    let version = ProtocolVersion::dtls_1_2();
    let nonce = wire::enc64(seq);
    let aad = keys::record_aad(seq, content_type, version, payload.len());
    assert(nonce.len() == 8);
    assert(aad.len() == 13);
    let c = crypto::gcm_sealed(key, iv + nonce, aad, payload);
    assert(c is Some);
    let sealed = nonce + c->0;
    assert(sealed.subrange(0, 8) =~= nonce);
    assert(sealed.subrange(8, sealed.len() as int) =~= c->0);
}

/// What a `Finished` message holds has twelve bytes.
proof fn lemma_verify_data_len(master: Seq<u8>, label: Seq<u8>, transcript: Seq<u8>)
    requires
        primitives_hold(),
    ensures
        keys::verify_data(master, label, transcript).len() == 12,
{
    let seed = label + crypto::sha256(transcript);
    reveal_with_fuel(keys::prf_blocks, 2);
    assert(keys::prf_blocks(master, seed, 1).len() == 32);
}

/// The keys of a connection have their lengths.
proof fn lemma_expanded_keys_wf(master: Seq<u8>, client: Seq<u8>, server: Seq<u8>)
    requires
        primitives_hold(),
    ensures
        keys::expanded_keys(master, client, server).wf(),
{
    let seed = "key expansion".spec_bytes() + (server + client);
    reveal_with_fuel(keys::prf_blocks, 3);
    assert(keys::prf_blocks(master, seed, 2).len() == 64);
    assert(keys::key_block(master, client, server).len() == 40);
}

/// The bytes of the `Finished` message that `s` sends under the keys `k`.
spec fn finished_data(s: SessionView, k: KeysView, label: Seq<u8>) -> Seq<u8> {
    keys::verify_data(k.master_secret, label, s.transcript)
}

/// The `Finished` message that `s` sends under the keys `k`.
spec fn finished_message(s: SessionView, k: KeysView, label: Seq<u8>) -> Seq<u8> {
    session::message_of(s, HandshakeType::Finished, finished_data(s, k, label))
}

/// `s` after it sent its `Finished` message under the keys `k`.
spec fn finished_sender(s: SessionView, k: KeysView, label: Seq<u8>) -> SessionView {
    SessionView {
        epoch: 1,
        sequence_number: 1,
        transcript: s.transcript + finished_message(s, k, label),
        ..s
    }
}

/// The end of a flight in the first epoch cannot fail, and both its datagrams arrive at a peer
/// that has the same keys.
#[verifier::rlimit(40)]
proof fn lemma_finishing(s: SessionView, k: KeysView, label: Seq<u8>)
    requires
        primitives_hold(),
        s.keys == Some(k),
        k.wf(),
        s.epoch == 0,
        s.sequence_number < 0x1_0000_0000_0000,
    ensures
        ({
            let f = session::finishing(s, label);
            &&& f.error is None
            &&& f.session == finished_sender(s, k, label)
            &&& f.actions.len() == 2
            &&& f.actions[0] is Send
            &&& f.actions[1] is Send
            &&& finished_data(s, k, label).len() == 12
        }),
        forall|peer: SessionView, randoms: Seq<Seq<u8>>|
            arrives(
                #[trigger] session::on_datagram(
                    peer,
                    session::finishing(s, label).actions[0]->Send_0,
                    randoms,
                ),
                session::unchanged(peer),
            ),
        forall|peer: SessionView, randoms: Seq<Seq<u8>>|
            peer.keys == s.keys && peer.is_client != s.is_client && session::on_message(
                peer,
                handshake::whole_message(
                    HandshakeType::Finished,
                    s.message_seq,
                    finished_data(s, k, label),
                ),
                finished_message(s, k, label),
                randoms[0],
            ).error is None ==> arrives(
                #[trigger] session::on_datagram(
                    peer,
                    session::finishing(s, label).actions[1]->Send_0,
                    randoms,
                ),
                session::on_message(
                    peer,
                    handshake::whole_message(
                        HandshakeType::Finished,
                        s.message_seq,
                        finished_data(s, k, label),
                    ),
                    finished_message(s, k, label),
                    randoms[0],
                ),
            ),
{
    let f = session::finishing(s, label);
    let data = finished_data(s, k, label);
    let e = SessionView { epoch: 1, sequence_number: 0, ..s };
    let raw = session::message_of(e, HandshakeType::Finished, data);
    let n = session::noted(e, raw);
    lemma_verify_data_len(k.master_secret, label, s.transcript);
    assert(raw == finished_message(s, k, label)) by {
        reveal(session::message_of);
    }
    assert(raw.len() == 24) by {
        reveal(session::message_of);
    }
    lemma_sealed_opens(
        ContentType::Handshake,
        session::full_seq(1, 0),
        raw,
        k.write_key(s.is_client),
        k.write_iv(s.is_client),
    );
    let payload = session::guarded(n, raw)->Ok_0;
    let change = session::record_of(s, ContentType::ChangeCipherSpec, seq![1u8]);
    let last = session::record_of(n, ContentType::Handshake, payload);
    assert(f.actions =~= seq![ActionView::Send(change), ActionView::Send(last)]);
    assert(f.session =~= finished_sender(s, k, label));
    assert forall|peer: SessionView, randoms: Seq<Seq<u8>>| arrives(
        #[trigger] session::on_datagram(peer, change, randoms),
        session::unchanged(peer),
    ) by {
        lemma_record_arrives(
            s,
            peer,
            ContentType::ChangeCipherSpec,
            seq![1u8],
            seq![1u8],
            randoms,
        );
    }
    assert forall|peer: SessionView, randoms: Seq<Seq<u8>>|
        peer.keys == s.keys && peer.is_client != s.is_client && session::on_message(
            peer,
            handshake::whole_message(HandshakeType::Finished, s.message_seq, data),
            raw,
            randoms[0],
        ).error is None implies arrives(
        #[trigger] session::on_datagram(peer, last, randoms),
        session::on_message(
            peer,
            handshake::whole_message(HandshakeType::Finished, s.message_seq, data),
            raw,
            randoms[0],
        ),
    ) by {
        lemma_message_read(e, peer, HandshakeType::Finished, data, randoms);
        lemma_record_arrives(n, peer, ContentType::Handshake, payload, raw, randoms);
    }
}

/// Whether a datagram led to what `direct` says, without a failure.
spec fn arrives(step: Step, direct: Step) -> bool {
    &&& step.session == direct.session
    &&& step.actions == direct.actions
    &&& step.error is None
}

/// The first datagram of a flight arrives.
proof fn lemma_flight_goes_on(
    s: SessionView,
    flight: Seq<ActionView>,
    draws: Seq<Seq<Seq<u8>>>,
    direct: Step,
)
    requires
        flight.len() > 0,
        flight[0] matches ActionView::Send(d) && arrives(
            session::on_datagram(s, d, draws[0]),
            direct,
        ),
    ensures
        ({
            let whole = on_flight(s, flight, draws);
            let rest = on_flight(direct.session, flight.drop_first(), draws.drop_first());
            &&& whole.session == rest.session
            &&& whole.actions == direct.actions + rest.actions
            &&& whole.error == rest.error
        }),
{
}

/// The view of the hello that a client starts with.
spec fn first_hello(random: Seq<u8>) -> ClientHelloView {
    ClientHelloView {
        version: ProtocolVersion::dtls_1_2(),
        random,
        session_id: seq![],
        cookie: seq![],
        cipher_suites: seq![0xC02Bu16],
        compression_methods: seq![0u8],
        extensions: session::client_extensions(),
    }
}

/// A client that is about to send its hello.
spec fn greeting(client: SessionView, random: Seq<u8>) -> SessionView {
    SessionView { client_random: Some(random), state: StateView::Handshaking, ..client }
}

/// The hello message of a client.
spec fn hello_message(client: SessionView, random: Seq<u8>) -> Seq<u8> {
    session::message_of(
        greeting(client, random),
        HandshakeType::ClientHello,
        session::client_hello(random, seq![]),
    )
}

/// The hello of a client is read as it was written.
proof fn lemma_client_hello_read(random: Seq<u8>)
    requires
        random.len() == 32,
    ensures
        handshake::client_hello_decoded(session::client_hello(random, seq![])) == Some(
            first_hello(random),
        ),
        session::client_hello(random, seq![]).len() == 58,
{
    let v = first_hello(random);
    reveal(session::client_hello);
    handshake::law_decode_of_client_hello(v);
}

/// A server answers a hello.
proof fn lemma_on_client_hello(
    s: SessionView,
    m: MessageView,
    h: ClientHelloView,
    raw: Seq<u8>,
    random: Seq<u8>,
)
    requires
        !s.is_client,
        m.msg_type == HandshakeType::ClientHello,
        handshake::client_hello_decoded(m.body) == Some(h),
    ensures
        session::on_message(s, m, raw, random) == session::server_flight(
            session::noted(s, raw),
            h,
            random,
        ),
{
    reveal(session::on_message);
}

proof fn lemma_hello_arrives(
    client: SessionView,
    h: SessionView,
    random: Seq<u8>,
    randoms: Seq<Seq<u8>>,
)
    requires
        client.epoch == 0,
        client.sequence_number == 0,
        !h.is_client,
        random.len() == 32,
        session::server_flight(
            session::noted(h, hello_message(client, random)),
            first_hello(random),
            randoms[0],
        ).error is None,
    ensures
        arrives(
            session::on_datagram(
                h,
                session::record_of(
                    greeting(client, random),
                    ContentType::Handshake,
                    hello_message(client, random),
                ),
                randoms,
            ),
            session::server_flight(
                session::noted(h, hello_message(client, random)),
                first_hello(random),
                randoms[0],
            ),
        ),
{
    let g = greeting(client, random);
    let body = session::client_hello(random, seq![]);
    let m = handshake::whole_message(HandshakeType::ClientHello, g.message_seq, body);
    lemma_client_hello_read(random);
    lemma_on_client_hello(h, m, first_hello(random), hello_message(client, random), randoms[0]);
    lemma_clear_arrives(g, h, HandshakeType::ClientHello, body, randoms);
}

/// The hello of a server is read as it was written.
proof fn lemma_server_hello_read(h: ClientHelloView, random: Seq<u8>)
    requires
        random.len() == 32,
        h.session_id.len() < 256,
    ensures
        handshake::server_hello_decoded(session::server_hello(h, random)) matches Some(v)
            && v.random == random,
        session::server_hello(h, random).len() < 1000,
{
    let v = ServerHelloView {
        version: ProtocolVersion::dtls_1_2(),
        random,
        session_id: h.session_id,
        cipher_suite: 0xC02B,
        compression_method: 0,
        extensions: session::server_extensions(handshake::srtp_profiles(h.extensions)),
    };
    reveal(session::server_hello);
    assert(v.extensions.len() < 100);
    handshake::law_decode_of_server_hello(v);
}

/// A client takes the messages of a server's flight.
proof fn lemma_on_server_messages(s: SessionView, m: MessageView, raw: Seq<u8>, random: Seq<u8>)
    requires
        s.is_client,
    ensures
        m.msg_type == HandshakeType::ServerHello ==> (handshake::server_hello_decoded(
            m.body,
        ) matches Some(h) ==> session::on_message(s, m, raw, random) == session::unchanged(
            SessionView { server_random: Some(h.random), ..session::noted(s, raw) },
        )),
        m.msg_type == HandshakeType::Certificate ==> session::on_message(s, m, raw, random)
            == session::unchanged(session::noted(s, raw)),
        m.msg_type == HandshakeType::ServerKeyExchange ==> (handshake::server_public_key(
            m.body,
        ) matches Some(pk) ==> session::on_message(s, m, raw, random) == session::unchanged(
            SessionView { peer_public_key: Some(pk), ..session::noted(s, raw) },
        )),
        m.msg_type == HandshakeType::ServerHelloDone ==> session::on_message(s, m, raw, random)
            == session::client_flight(session::noted(s, raw)),
{
    reveal(session::on_message);
}

/// The bodies of a server's flight.
struct OfferBodies {
    hello: Seq<u8>,
    certificate: Seq<u8>,
    share: Seq<u8>,
}

/// The sessions of a server that sends its flight, one for each message and the last after all.
struct OfferSessions {
    s0: SessionView,
    s1: SessionView,
    s2: SessionView,
    s3: SessionView,
    s4: SessionView,
}

spec fn offer_sessions(s0: SessionView, b: OfferBodies) -> OfferSessions {
    let s1 = session::sent(s0, HandshakeType::ServerHello, b.hello);
    let s2 = session::sent(s1, HandshakeType::Certificate, b.certificate);
    let s3 = session::sent(s2, HandshakeType::ServerKeyExchange, b.share);
    let s4 = session::sent(s3, HandshakeType::ServerHelloDone, seq![]);
    OfferSessions { s0, s1, s2, s3, s4 }
}

/// The flight of a server.
spec fn offer_actions(s0: SessionView, b: OfferBodies) -> Seq<ActionView> {
    let o = offer_sessions(s0, b);
    seq![
        session::clear(o.s0, HandshakeType::ServerHello, b.hello),
        session::clear(o.s1, HandshakeType::Certificate, b.certificate),
        session::clear(o.s2, HandshakeType::ServerKeyExchange, b.share),
        session::clear(o.s3, HandshakeType::ServerHelloDone, seq![]),
    ]
}

/// A client that got all messages of a server's flight.
spec fn informed(
    c: SessionView,
    s0: SessionView,
    b: OfferBodies,
    random: Seq<u8>,
    public_key: Seq<u8>,
) -> SessionView {
    let o = offer_sessions(s0, b);
    SessionView {
        server_random: Some(random),
        peer_public_key: Some(public_key),
        transcript: c.transcript + session::message_of(o.s0, HandshakeType::ServerHello, b.hello)
            + session::message_of(o.s1, HandshakeType::Certificate, b.certificate)
            + session::message_of(o.s2, HandshakeType::ServerKeyExchange, b.share)
            + session::message_of(o.s3, HandshakeType::ServerHelloDone, seq![]),
        ..c
    }
}

/// The flight of a server arrives.
#[verifier::rlimit(40)]
proof fn lemma_offer_arrives(
    c: SessionView,
    s0: SessionView,
    b: OfferBodies,
    random: Seq<u8>,
    public_key: Seq<u8>,
    draws: Seq<Seq<Seq<u8>>>,
)
    requires
        c.is_client,
        s0.epoch == 0,
        s0.sequence_number == 0,
        handshake::server_hello_decoded(b.hello) matches Some(h) && h.random == random,
        handshake::server_public_key(b.share) == Some(public_key),
        b.hello.len() < 0xFF00,
        b.certificate.len() < 0xFF00,
        b.share.len() < 0xFF00,
        session::client_flight(informed(c, s0, b, random, public_key)).error is None,
    ensures
        ({
            let whole = on_flight(c, offer_actions(s0, b), draws);
            let direct = session::client_flight(informed(c, s0, b, random, public_key));
            &&& whole.session == direct.session
            &&& whole.actions == direct.actions
            &&& whole.error is None
        }),
{
    let o = offer_sessions(s0, b);
    let none: Seq<u8> = seq![];
    let r0 = session::message_of(o.s0, HandshakeType::ServerHello, b.hello);
    let r1 = session::message_of(o.s1, HandshakeType::Certificate, b.certificate);
    let r2 = session::message_of(o.s2, HandshakeType::ServerKeyExchange, b.share);
    let r3 = session::message_of(o.s3, HandshakeType::ServerHelloDone, none);
    let m0 = handshake::whole_message(HandshakeType::ServerHello, o.s0.message_seq, b.hello);
    let m1 = handshake::whole_message(HandshakeType::Certificate, o.s1.message_seq, b.certificate);
    let m2 = handshake::whole_message(HandshakeType::ServerKeyExchange, o.s2.message_seq, b.share);
    let m3 = handshake::whole_message(HandshakeType::ServerHelloDone, o.s3.message_seq, none);
    let c1 = SessionView { server_random: Some(random), ..session::noted(c, r0) };
    let c2 = session::noted(c1, r1);
    let c3 = SessionView { peer_public_key: Some(public_key), ..session::noted(c2, r2) };
    let c4 = session::noted(c3, r3);
    assert(c4 == informed(c, s0, b, random, public_key));
    let d1 = draws.drop_first();
    let d2 = d1.drop_first();
    let d3 = d2.drop_first();
    lemma_on_server_messages(c, m0, r0, draws[0][0]);
    lemma_on_server_messages(c1, m1, r1, d1[0][0]);
    lemma_on_server_messages(c2, m2, r2, d2[0][0]);
    lemma_on_server_messages(c3, m3, r3, d3[0][0]);
    lemma_clear_arrives(o.s0, c, HandshakeType::ServerHello, b.hello, draws[0]);
    lemma_clear_arrives(o.s1, c1, HandshakeType::Certificate, b.certificate, d1[0]);
    lemma_clear_arrives(o.s2, c2, HandshakeType::ServerKeyExchange, b.share, d2[0]);
    lemma_clear_arrives(o.s3, c3, HandshakeType::ServerHelloDone, none, d3[0]);
    let f0 = offer_actions(s0, b);
    let f1 = f0.drop_first();
    let f2 = f1.drop_first();
    let f3 = f2.drop_first();
    let f4 = f3.drop_first();
    let last = session::client_flight(c4);
    lemma_flight_goes_on(c, f0, draws, session::unchanged(c1));
    lemma_flight_goes_on(c1, f1, d1, session::unchanged(c2));
    lemma_flight_goes_on(c2, f2, d2, session::unchanged(c3));
    lemma_flight_goes_on(c3, f3, d3, last);
    assert(f4.len() == 0);
    let empty: Seq<ActionView> = seq![];
    assert(last.actions + empty =~= last.actions);
    assert(empty + last.actions =~= last.actions);
}

/// A client that sent its share of the key exchange, which led to the keys `k`.
spec fn shared(a: SessionView, k: KeysView) -> SessionView {
    SessionView {
        secret: None,
        keys: Some(k),
        ..session::sent(
            a,
            HandshakeType::ClientKeyExchange,
            handshake::client_key_exchange_bytes(a.public_key),
        )
    }
}

/// A client that sent its whole answer.
spec fn answered(a: SessionView, k: KeysView) -> SessionView {
    let f = finished_sender(shared(a, k), k, "client finished".spec_bytes());
    SessionView { message_seq: session::next16(f.message_seq), ..f }
}

/// The answer of a client that can complete the key exchange.
proof fn lemma_client_answers(a: SessionView, k: KeysView)
    requires
        primitives_hold(),
        k.wf(),
        a.peer_public_key is Some,
        session::agreed_keys(a) == Some(k),
        a.epoch == 0,
        a.sequence_number < 0x1_0000_0000,
    ensures
        ({
            let body = handshake::client_key_exchange_bytes(a.public_key);
            let step = session::client_flight(a);
            let f = session::finishing(shared(a, k), "client finished".spec_bytes());
            &&& step.error is None
            &&& step.session == answered(a, k)
            &&& step.actions == seq![
                session::clear(a, HandshakeType::ClientKeyExchange, body),
                f.actions[0],
                f.actions[1],
            ]
        }),
{
    let label = "client finished".spec_bytes();
    let body = handshake::client_key_exchange_bytes(a.public_key);
    let s1 = session::sent(a, HandshakeType::ClientKeyExchange, body);
    assert(session::agreed_keys(s1) == session::agreed_keys(a));
    assert(session::exchanged(s1) == shared(a, k));
    lemma_finishing(shared(a, k), k, label);
    let f = session::finishing(shared(a, k), label);
    let first = session::clear(a, HandshakeType::ClientKeyExchange, body);
    assert(seq![first] + f.actions =~= seq![first, f.actions[0], f.actions[1]]);
}

/// A server that got the client's share of the key exchange, which led to the keys `k`.
spec fn agreeing(v: SessionView, a: SessionView, k: KeysView) -> SessionView {
    let raw = session::message_of(
        a,
        HandshakeType::ClientKeyExchange,
        handshake::client_key_exchange_bytes(a.public_key),
    );
    SessionView {
        peer_public_key: Some(a.public_key),
        secret: None,
        keys: Some(k),
        ..session::noted(v, raw)
    }
}

/// A server that got the client's whole answer, and is about to end its own flight.
spec fn confirmed(v: SessionView, a: SessionView, k: KeysView) -> SessionView {
    session::noted(
        agreeing(v, a, k),
        finished_message(shared(a, k), k, "client finished".spec_bytes()),
    )
}

/// What a server makes of the messages of a client.
proof fn lemma_on_client_messages(s: SessionView, m: MessageView, raw: Seq<u8>, random: Seq<u8>)
    requires
        !s.is_client,
    ensures
        m.msg_type == HandshakeType::ClientKeyExchange ==> (handshake::client_public_key(
            m.body,
        ) matches Some(pk) ==> session::on_message(s, m, raw, random) == session::unchanged(
            session::exchanged(
                SessionView { peer_public_key: Some(pk), ..session::noted(s, raw) },
            ),
        )),
        m.msg_type == HandshakeType::Finished && m.body.len() == 12 ==> session::on_message(
            s,
            m,
            raw,
            random,
        ) == session::client_finished(s, raw, m.body),
{
    reveal(session::on_message);
}

/// The answer of a client arrives.
#[verifier::rlimit(40)]
proof fn lemma_answer_arrives(
    v: SessionView,
    a: SessionView,
    k: KeysView,
    draws: Seq<Seq<Seq<u8>>>,
)
    requires
        primitives_hold(),
        k.wf(),
        a.is_client,
        !v.is_client,
        a.peer_public_key is Some,
        session::agreed_keys(a) == Some(k),
        session::agreed_keys(SessionView { peer_public_key: Some(a.public_key), ..v }) == Some(k),
        a.public_key.len() < 256,
        a.epoch == 0,
        v.epoch == 0,
        a.sequence_number < 0x1_0000_0000,
        v.sequence_number < 0x1_0000_0000,
        a.transcript == v.transcript,
    ensures
        ({
            let label = "server finished".spec_bytes();
            let whole = on_flight(v, session::client_flight(a).actions, draws);
            let w = confirmed(v, a, k);
            &&& whole.error is None
            &&& whole.session == (SessionView {
                state: StateView::Connected(k),
                ..finished_sender(w, k, label)
            })
            &&& whole.actions == session::finishing(w, label).actions
        }),
{
    let label = "client finished".spec_bytes();
    let body = handshake::client_key_exchange_bytes(a.public_key);
    let raw = session::message_of(a, HandshakeType::ClientKeyExchange, body);
    let t = shared(a, k);
    let data = finished_data(t, k, label);
    let last = finished_message(t, k, label);
    let v1 = agreeing(v, a, k);
    let w = confirmed(v, a, k);
    let m0 = handshake::whole_message(HandshakeType::ClientKeyExchange, a.message_seq, body);
    let m2 = handshake::whole_message(HandshakeType::Finished, t.message_seq, data);
    let d1 = draws.drop_first();
    let d2 = d1.drop_first();
    lemma_client_answers(a, k);
    lemma_finishing(t, k, label);
    lemma_finishing(w, k, "server finished".spec_bytes());
    handshake::law_decode_of_key_exchange(3, 23, a.public_key, seq![]);
    lemma_on_client_messages(v, m0, raw, draws[0][0]);
    let p = SessionView { peer_public_key: Some(a.public_key), ..session::noted(v, raw) };
    assert(session::agreed_keys(p) == Some(k));
    assert(session::exchanged(p) == v1);
    lemma_clear_arrives(a, v, HandshakeType::ClientKeyExchange, body, draws[0]);
    lemma_on_client_messages(v1, m2, last, d2[0][0]);
    assert(t.transcript == v1.transcript);
    let direct = session::client_finished(v1, last, data);
    assert(direct.error is None);
    let f0 = session::client_flight(a).actions;
    let f1 = f0.drop_first();
    let f2 = f1.drop_first();
    lemma_flight_goes_on(v, f0, draws, session::unchanged(v1));
    lemma_flight_goes_on(v1, f1, d1, session::unchanged(v1));
    lemma_flight_goes_on(v1, f2, d2, direct);
    assert(f2.drop_first().len() == 0);
    let empty: Seq<ActionView> = seq![];
    assert(direct.actions + empty =~= direct.actions);
    assert(empty + direct.actions =~= direct.actions);
}

/// The end of the server's flight arrives.
proof fn lemma_end_arrives(
    v: SessionView,
    a: SessionView,
    k: KeysView,
    draws: Seq<Seq<Seq<u8>>>,
)
    requires
        primitives_hold(),
        k.wf(),
        a.is_client,
        !v.is_client,
        a.epoch == 0,
        v.epoch == 0,
        a.sequence_number < 0x1_0000_0000,
        v.sequence_number < 0x1_0000_0000,
        a.transcript == v.transcript,
    ensures
        ({
            let w = confirmed(v, a, k);
            let end = session::finishing(w, "server finished".spec_bytes());
            let whole = on_flight(answered(a, k), end.actions, draws);
            &&& whole.error is None
            &&& whole.session == (SessionView {
                state: StateView::Connected(k),
                ..answered(a, k)
            })
            &&& whole.actions == Seq::<ActionView>::empty()
        }),
{
    let label = "server finished".spec_bytes();
    let c = answered(a, k);
    let w = confirmed(v, a, k);
    let data = finished_data(w, k, label);
    let raw = finished_message(w, k, label);
    let end = session::finishing(w, label);
    let m = handshake::whole_message(HandshakeType::Finished, w.message_seq, data);
    let d1 = draws.drop_first();
    lemma_finishing(w, k, label);
    assert(c.transcript == w.transcript);
    let direct = session::server_finished(c, data);
    assert(session::on_message(c, m, raw, d1[0][0]) == direct) by {
        reveal(session::on_message);
    }
    let f1 = end.actions.drop_first();
    lemma_flight_goes_on(c, end.actions, draws, session::unchanged(c));
    lemma_flight_goes_on(c, f1, d1, direct);
    assert(f1.drop_first().len() == 0);
}

/// Whether `s` is established under the keys `k`, with nothing sent under them yet but its
/// `Finished` message.
pub open spec fn established(s: SessionView, k: KeysView) -> bool {
    &&& s.state == StateView::Connected(k)
    &&& s.keys == Some(k)
    &&& s.epoch == 1
    &&& s.sequence_number == 1
}

/// Where every datagram arrives, and in order, a handshake establishes both ends, under the same
/// keys: those of the exchange of the client's and the server's key pair with the two random
/// values. `random` is that of the client, the first draw in the first flight that of the server.
/// The server has a private key that signs, and what it sends fits a datagram.
#[verifier::rlimit(40)]
pub proof fn law_handshake_completes(
    client: SessionView,
    server: SessionView,
    random: Seq<u8>,
    draws: Seq<Seq<Seq<Seq<u8>>>>,
)
    requires
        primitives_hold(),
        ready(client),
        ready(server),
        client.is_client,
        !server.is_client,
        random.len() == 32,
        draws[0][0][0].len() == 32,
        handshake::certificate_bytes(server.certificates).len() < 0xFF00,
        crypto::ecdsa_signature(
            server.private_key,
            session::signed_params(random, draws[0][0][0], server.public_key),
        ) matches Some(signature) && signature.len() < 0xF000,
    ensures
        ({
            let c = course(client, server, random, draws);
            let k = keys::exchanged_keys(
                client.secret->0,
                server.public_key,
                random,
                draws[0][0][0],
            );
            &&& k is Some
            &&& c.hello.error is None
            &&& c.offer.error is None
            &&& c.answer.error is None
            &&& c.server.error is None
            &&& c.client.error is None
            &&& established(c.server.session, k->0)
            &&& established(c.client.session, k->0)
            &&& c.client.session.is_client
            &&& !c.server.session.is_client
            &&& c.client.actions.len() == 0
        }),
{
    let other = draws[0][0][0];
    let h = SessionView { state: StateView::Handshaking, ..server };
    let c = course(client, server, random, draws);
    let v = first_hello(random);
    let noted = session::noted(h, hello_message(client, random));
    let direct = session::server_flight(noted, v, other);
    let signature = crypto::ecdsa_signature(
        server.private_key,
        session::signed_params(random, other, server.public_key),
    )->0;
    let b = OfferBodies {
        hello: session::server_hello(v, other),
        certificate: handshake::certificate_bytes(server.certificates),
        share: handshake::server_key_exchange_bytes(3, 23, server.public_key, signature),
    };
    let s0 = SessionView {
        client_random: Some(random),
        server_random: Some(other),
        ..noted
    };
    assert(direct.actions =~= offer_actions(s0, b));
    assert(direct.session == offer_sessions(s0, b).s4);
    lemma_hello_arrives(client, h, random, draws[0][0]);
    lemma_flight_goes_on(h, c.hello.actions, draws[0], direct);
    assert(c.hello.actions.drop_first().len() == 0);
    let empty: Seq<ActionView> = seq![];
    assert(direct.actions + empty =~= direct.actions);
    let start = c.hello.session;
    let a = informed(start, s0, b, other, server.public_key);
    let pre = crypto::p256_shared(client.secret->0, server.public_key);
    assert(pre is Some && pre == crypto::p256_shared(server.secret->0, client.public_key));
    let k = keys::exchanged_keys(client.secret->0, server.public_key, random, other)->0;
    lemma_expanded_keys_wf(keys::master_secret_of(pre->0, random, other), random, other);
    assert(session::agreed_keys(a) == Some(k));
    lemma_server_hello_read(v, other);
    handshake::law_decode_of_key_exchange(3, 23, server.public_key, signature);
    lemma_client_answers(a, k);
    lemma_offer_arrives(start, s0, b, other, server.public_key, draws[1]);
    let w = offer_sessions(s0, b).s4;
    assert(a.transcript == w.transcript);
    assert(session::agreed_keys(
        SessionView { peer_public_key: Some(a.public_key), ..w },
    ) == Some(k));
    lemma_answer_arrives(w, a, k, draws[2]);
    lemma_end_arrives(w, a, k, draws[3]);
}

} // verus!
