//! What the keys of a connection are made of, and what they protect.
use vstd::prelude::*;
use vstd::string::*;

use crate::crypto;
use crate::transports::dtls::error::DtlsError;
use crate::transports::dtls::flight_laws;
use crate::transports::dtls::handshake;
use crate::transports::dtls::handshake::{HandshakeType, MessageView};
use crate::transports::dtls::keys;
use crate::transports::dtls::keys::KeysView;
use crate::transports::dtls::record;
use crate::transports::dtls::record::{ContentType, ProtocolVersion, RecordView};
use crate::transports::dtls::session;
use crate::transports::dtls::session::{ActionView, SessionView, StateView};
use crate::wire;

verus! {

/// The first block of the pseudorandom function: the code of the code of label and seed, followed
/// by label and seed. Up to 32 bytes are taken from it.
pub proof fn law_prf_first_block(secret: Seq<u8>, label: Seq<u8>, seed: Seq<u8>, len: nat)
    requires
        0 < len <= 32,
    ensures
        ({
            let s = label + seed;
            keys::prf(secret, label, seed, len) == crypto::hmac_sha256(
                secret,
                crypto::hmac_sha256(secret, s) + s,
            ).subrange(0, len as int)
        }),
{
    let s = label + seed;
    reveal_with_fuel(keys::prf_blocks, 2);
    reveal_with_fuel(keys::prf_chain, 2);
    assert(keys::prf_blocks(secret, s, 0) =~= seq![]);
    assert(keys::prf_blocks(secret, s, 1) =~= crypto::hmac_sha256(
        secret,
        crypto::hmac_sha256(secret, s) + s,
    ));
}

/// Every further block starts from the code of what the one before it started from.
pub proof fn law_prf_next_block(secret: Seq<u8>, label: Seq<u8>, seed: Seq<u8>, n: nat)
    requires
        forall|key: Seq<u8>, data: Seq<u8>|
            (#[trigger] crypto::hmac_sha256(key, data)).len() == 32,
    ensures
        ({
            let s = label + seed;
            let a = keys::prf_chain(secret, s, n);
            &&& keys::prf_chain(secret, s, n + 1) == crypto::hmac_sha256(secret, a)
            &&& keys::prf(secret, label, seed, 32 * (n + 1)) == keys::prf(
                secret,
                label,
                seed,
                32 * n,
            ) + crypto::hmac_sha256(secret, crypto::hmac_sha256(secret, a) + s)
        }),
{
    let s = label + seed;
    lemma_blocks_len(secret, s, n);
    lemma_blocks_len(secret, s, n + 1);
    let first = keys::prf_blocks(secret, s, n);
    let all = keys::prf_blocks(secret, s, n + 1);
    assert((32 * (n + 1) + 31) as nat / 32 == n + 1);
    assert((32 * n + 31) as nat / 32 == n);
    assert(first.subrange(0, first.len() as int) =~= first);
    assert(all.subrange(0, all.len() as int) =~= all);
}

proof fn lemma_blocks_len(secret: Seq<u8>, s: Seq<u8>, n: nat)
    requires
        forall|key: Seq<u8>, data: Seq<u8>|
            (#[trigger] crypto::hmac_sha256(key, data)).len() == 32,
    ensures
        keys::prf_blocks(secret, s, n).len() == 32 * n,
    decreases n,
{
    if n > 0 {
        lemma_blocks_len(secret, s, (n - 1) as nat);
    }
}

/// Less output of the pseudorandom function is the start of more.
pub proof fn law_prf_is_a_stream(
    secret: Seq<u8>,
    label: Seq<u8>,
    seed: Seq<u8>,
    short: nat,
    long: nat,
)
    requires
        short <= long,
        forall|key: Seq<u8>, data: Seq<u8>|
            (#[trigger] crypto::hmac_sha256(key, data)).len() == 32,
    ensures
        keys::prf(secret, label, seed, short) == keys::prf(secret, label, seed, long).subrange(
            0,
            short as int,
        ),
        keys::prf(secret, label, seed, long).len() == long,
{
    let s = label + seed;
    let a = (short + 31) / 32;
    let b = (long + 31) / 32;
    lemma_blocks_len(secret, s, a);
    lemma_blocks_len(secret, s, b);
    lemma_blocks_start(secret, s, a, b);
    let first = keys::prf_blocks(secret, s, a);
    let all = keys::prf_blocks(secret, s, b);
    assert(first.subrange(0, short as int) =~= all.subrange(0, long as int).subrange(
        0,
        short as int,
    )) by {
        assert forall|i: int| 0 <= i < short implies first[i] == all[i] by {
            assert(all.subrange(0, first.len() as int)[i] == all[i]);
        }
    }
}

proof fn lemma_blocks_start(secret: Seq<u8>, s: Seq<u8>, a: nat, b: nat)
    requires
        a <= b,
        forall|key: Seq<u8>, data: Seq<u8>|
            (#[trigger] crypto::hmac_sha256(key, data)).len() == 32,
    ensures
        keys::prf_blocks(secret, s, b).len() == 32 * b,
        keys::prf_blocks(secret, s, b).subrange(0, 32 * a as int) == keys::prf_blocks(secret, s, a),
    decreases b,
{
    lemma_blocks_len(secret, s, a);
    lemma_blocks_len(secret, s, b);
    let first = keys::prf_blocks(secret, s, a);
    if a < b {
        let c = (b - 1) as nat;
        lemma_blocks_start(secret, s, a, c);
        lemma_blocks_len(secret, s, c);
        let most = keys::prf_blocks(secret, s, c);
        let all = keys::prf_blocks(secret, s, b);
        assert(all.subrange(0, 32 * a as int) =~= most.subrange(0, 32 * a as int));
    } else {
        assert(first.subrange(0, 32 * a as int) =~= first);
    }
}

/// The keys of an exchange: the master secret is made of the shared secret and the random values,
/// the client's first; the key block of the master secret and the random values, the server's
/// first. The block is cut into the client's key, the server's, and the fixed parts of their
/// nonces in the same order.
pub proof fn law_keys_of_exchange(
    secret: Seq<u8>,
    peer: Seq<u8>,
    client: Seq<u8>,
    server: Seq<u8>,
)
    requires
        crypto::p256_shared(secret, peer) is Some,
        forall|key: Seq<u8>, data: Seq<u8>|
            (#[trigger] crypto::hmac_sha256(key, data)).len() == 32,
    ensures
        keys::exchanged_keys(secret, peer, client, server) matches Some(k) && {
            &&& k.master_secret == keys::prf(
                crypto::p256_shared(secret, peer)->0,
                "master secret".spec_bytes(),
                client + server,
                48,
            )
            &&& k.client_write_key.len() == 16
            &&& k.server_write_key.len() == 16
            &&& k.client_write_iv.len() == 4
            &&& k.server_write_iv.len() == 4
            &&& k.client_write_key + k.server_write_key + k.client_write_iv + k.server_write_iv
                == keys::prf(
                k.master_secret,
                "key expansion".spec_bytes(),
                server + client,
                40,
            )
            &&& k.client_random == client
            &&& k.server_random == server
        },
{
    let k = keys::exchanged_keys(secret, peer, client, server)->0;
    let block = keys::prf(k.master_secret, "key expansion".spec_bytes(), server + client, 40);
    lemma_blocks_len(k.master_secret, "key expansion".spec_bytes() + (server + client), 2);
    assert(block.len() == 40);
    assert(k.client_write_key + k.server_write_key + k.client_write_iv + k.server_write_iv
        =~= block);
}

/// Without a shared secret there are no keys.
pub proof fn law_no_keys_without_secret(
    secret: Seq<u8>,
    peer: Seq<u8>,
    client: Seq<u8>,
    server: Seq<u8>,
)
    ensures
        crypto::p256_shared(secret, peer) is None ==> keys::exchanged_keys(
            secret,
            peer,
            client,
            server,
        ) is None,
{
}

/// Each end writes under its own keys, and reads under those of the other.
pub proof fn law_each_end_has_its_keys(k: KeysView)
    ensures
        k.write_key(true) == k.client_write_key,
        k.write_iv(true) == k.client_write_iv,
        k.write_key(false) == k.server_write_key,
        k.write_iv(false) == k.server_write_iv,
{
}

/// The twelve bytes of a `Finished` message: the pseudorandom function of the master secret, the
/// label of its sender and the hash of all messages before it.
pub proof fn law_finished_bytes(master: Seq<u8>, label: Seq<u8>, transcript: Seq<u8>)
    ensures
        ({
            let s = label + crypto::sha256(transcript);
            keys::verify_data(master, label, transcript) == crypto::hmac_sha256(
                master,
                crypto::hmac_sha256(master, s) + s,
            ).subrange(0, 12)
        }),
{
    law_prf_first_block(master, label, crypto::sha256(transcript), 12);
}

/// Exported keys are made of the master secret, the label and the random values, the client's
/// first. Both ends of a connection export the same.
pub proof fn law_exported_keys_agree(a: KeysView, b: KeysView, label: Seq<u8>, len: nat)
    requires
        a.master_secret == b.master_secret,
        a.client_random == b.client_random,
        a.server_random == b.server_random,
    ensures
        session::exported(a, label, len) == session::exported(b, label, len),
        session::exported(a, label, len) == keys::prf(
            a.master_secret,
            label,
            a.client_random + a.server_random,
            len,
        ),
{
}

proof fn lemma_parts(epoch: u64, number: u64)
    by (bit_vector)
    requires
        epoch < 0x1_0000,
        number < 0x1_0000_0000_0000,
    ensures
        ((epoch << 48u64) | number) == epoch * 0x1_0000_0000_0000 + number,
{
}

/// The number of a record over all epochs: the epoch in the upper 16 bits, the sequence number
/// below. No two records of a connection share it.
pub proof fn law_record_numbers(epoch: u16, number: u64)
    requires
        number < 0x1_0000_0000_0000,
    ensures
        session::full_seq(epoch, number) == epoch * 0x1_0000_0000_0000 + number,
        session::full_seq(epoch, number) / 0x1_0000_0000_0000 == epoch,
        session::full_seq(epoch, number) % 0x1_0000_0000_0000 == number,
{
    lemma_parts(epoch as u64, number);
}

/// The numbers of the content types on the wire.
pub open spec fn type_number(content_type: ContentType) -> u8 {
    match content_type {
        ContentType::ChangeCipherSpec => 20,
        ContentType::Alert => 21,
        ContentType::Handshake => 22,
        ContentType::ApplicationData => 23,
        ContentType::Heartbeat => 24,
    }
}

/// A protected payload starts with the number of the record; the rest is sealed under the key,
/// with the fixed part and that number as nonce, and with the number, the type, the version and
/// the length of the payload as what is authenticated beside it.
pub proof fn law_payload_is_sealed(
    content_type: ContentType,
    version: ProtocolVersion,
    number: u64,
    payload: Seq<u8>,
    key: Seq<u8>,
    iv: Seq<u8>,
)
    requires
        payload.len() < 0x1_0000,
        keys::record_sealed(content_type, version, number, payload, key, iv) is Ok,
    ensures
        ({
            let out = keys::record_sealed(content_type, version, number, payload, key, iv)->Ok_0;
            &&& key.len() == 16
            &&& out.len() >= 8
            &&& wire::be64(out, 0) == number
            &&& crypto::gcm_sealed(
                key,
                iv + out.subrange(0, 8),
                out.subrange(0, 8) + seq![type_number(content_type), version.major, version.minor]
                    + wire::enc16(payload.len() as u16),
                payload,
            ) == Some(out.skip(8))
        }),
{
    let out = keys::record_sealed(content_type, version, number, payload, key, iv)->Ok_0;
    assert(out.subrange(0, 8) =~= wire::enc64(number));
    wire::lemma_be64_enc64(out, 0, number);
    let aad = keys::record_aad(number, content_type, version, payload.len());
    let sealed = crypto::gcm_sealed(key, iv + wire::enc64(number), aad, payload);
    assert(out.skip(8) =~= sealed->0);
    assert(content_type.code() == type_number(content_type));
    assert(aad == wire::enc64(number) + seq![
        type_number(content_type),
        version.major,
        version.minor,
    ] + wire::enc16(payload.len() as u16));
}

/// A protected payload is opened with what it starts with and what stands beside it, and refused
/// where it is too short or not authentic.
pub proof fn law_payload_is_opened(
    content_type: ContentType,
    version: ProtocolVersion,
    number: u64,
    explicit: Seq<u8>,
    sealed: Seq<u8>,
    key: Seq<u8>,
    iv: Seq<u8>,
)
    requires
        explicit.len() == 8,
        key.len() == 16,
        16 <= sealed.len() < 0x1_0000,
    ensures
        ({
            let r = keys::record_opened(content_type, version, number, explicit + sealed, key, iv);
            let plain = crypto::gcm_opened(
                key,
                iv + explicit,
                wire::enc64(number) + seq![content_type.code(), version.major, version.minor]
                    + wire::enc16((sealed.len() - 16) as u16),
                sealed,
            );
            &&& plain matches Some(p) ==> r == Ok::<Seq<u8>, DtlsError>(p)
            &&& plain is None ==> r == Err::<Seq<u8>, DtlsError>(DtlsError::DecryptionFailed)
        }),
{
    let payload = explicit + sealed;
    assert(payload.subrange(0, 8) =~= explicit);
    assert(payload.subrange(8, payload.len() as int) =~= sealed);
}

/// The record that ends a flight under `k`: a `Finished` message with the twelve bytes for this
/// label, sealed under the keys of its sender as the first record of the next epoch.
pub open spec fn is_finished(
    a: ActionView,
    is_client: bool,
    message_seq: u16,
    k: KeysView,
    label: Seq<u8>,
    transcript: Seq<u8>,
) -> bool {
    let body = keys::verify_data(k.master_secret, label, transcript);
    let raw = handshake::message_bytes(
        MessageView {
            msg_type: HandshakeType::Finished,
            message_seq,
            fragment_offset: 0,
            fragment_length: 12,
            body,
        },
    );
    flight_laws::record_in(a) matches Some(r) && {
        &&& r.content_type == ContentType::Handshake
        &&& r.version == (ProtocolVersion { major: 254, minor: 253 })
        &&& r.epoch == 1
        &&& r.sequence_number == 0
        &&& keys::record_sealed(
            ContentType::Handshake,
            r.version,
            0x1_0000_0000_0000,
            raw,
            if is_client {
                k.client_write_key
            } else {
                k.server_write_key
            },
            if is_client {
                k.client_write_iv
            } else {
                k.server_write_iv
            },
        ) == Ok::<Seq<u8>, DtlsError>(r.payload)
    }
}

#[verifier::rlimit(40)]
#[verifier::spinoff_prover]
proof fn lemma_finishing_read(s: SessionView, k: KeysView, label: Seq<u8>)
    requires
        s.keys == Some(k),
        s.epoch == 0,
        s.sequence_number < 0x1_0000_0000_0000,
        keys::verify_data(k.master_secret, label, s.transcript).len() == 12,
        session::finishing(s, label).error is None,
        session::finishing(s, label).actions.len() == 2,
        session::finishing(s, label).actions[1]->Send_0.len() < 0x1_0000,
    ensures
        ({
            let f = session::finishing(s, label);
            &&& flight_laws::record_in(f.actions[0]) == Some(
                RecordView {
                    content_type: ContentType::ChangeCipherSpec,
                    version: ProtocolVersion { major: 254, minor: 253 },
                    epoch: 0,
                    sequence_number: s.sequence_number,
                    payload: seq![1u8],
                },
            )
            &&& is_finished(f.actions[1], s.is_client, s.message_seq, k, label, s.transcript)
            &&& f.session.epoch == 1
            &&& f.session.sequence_number == 1
        }),
{
    reveal(session::message_of);
    reveal(session::record_of);
    let f = session::finishing(s, label);
    let none: Seq<u8> = seq![];
    let change = RecordView {
        content_type: ContentType::ChangeCipherSpec,
        version: ProtocolVersion { major: 254, minor: 253 },
        epoch: 0,
        sequence_number: s.sequence_number,
        payload: seq![1u8],
    };
    let d = record::record_bytes(change);
    assert(d + none =~= d);
    record::law_decode_of_encoded(change, none);
    law_record_numbers(1, 0);
    let e = SessionView { epoch: 1, sequence_number: 0, ..s };
    let body = keys::verify_data(k.master_secret, label, s.transcript);
    let raw = session::message_of(e, HandshakeType::Finished, body);
    let n = session::noted(e, raw);
    let payload = session::guarded(n, raw)->Ok_0;
    let last = RecordView {
        content_type: ContentType::Handshake,
        version: ProtocolVersion { major: 254, minor: 253 },
        epoch: 1,
        sequence_number: 0,
        payload,
    };
    let b = record::record_bytes(last);
    assert(b + none =~= b);
    assert(f.actions[1] == ActionView::Send(b));
    assert(payload.len() < b.len());
    record::law_decode_of_encoded(last, none);
}

/// A client that has the server's flight and agrees on keys answers with three datagrams: its
/// public key, the change to the next epoch, and its `Finished` message over all messages so far,
/// under its keys and its label.
#[verifier::rlimit(40)]
#[verifier::spinoff_prover]
pub proof fn law_client_finishes(s: SessionView, k: KeysView)
    requires
        s.is_client,
        s.epoch == 0,
        s.sequence_number < 0xFFFF_FFFF_FF00,
        s.public_key.len() < 256,
        session::agreed_keys(s) == Some(k),
        session::client_flight(s).error is None,
        session::client_flight(s).actions.len() == 3,
        session::client_flight(s).actions[2]->Send_0.len() < 0x1_0000,
        forall|key: Seq<u8>, data: Seq<u8>|
            (#[trigger] crypto::hmac_sha256(key, data)).len() == 32,
    ensures
        ({
            let f = session::client_flight(s);
            let transcript = s.transcript + flight_laws::record_in(f.actions[0])->0.payload;
            &&& flight_laws::message_in(f.actions[0]) matches Some(m) && m.msg_type
                == HandshakeType::ClientKeyExchange && handshake::client_public_key(m.body) == Some(
                s.public_key,
            )
            &&& flight_laws::record_in(f.actions[1]) matches Some(c) && c.content_type
                == ContentType::ChangeCipherSpec && c.payload == seq![1u8] && c.epoch == 0
            &&& is_finished(
                f.actions[2],
                true,
                session::next16(s.message_seq),
                k,
                "client finished".spec_bytes(),
                transcript,
            )
            &&& f.session.keys == Some(k)
            &&& f.session.secret is None
            &&& f.session.state == s.state
        }),
{
    let body = handshake::client_key_exchange_bytes(s.public_key);
    let none: Seq<u8> = seq![];
    handshake::law_decode_of_key_exchange(3, 23, s.public_key, none);
    flight_laws::law_clear_is_read(s, HandshakeType::ClientKeyExchange, body);
    let s1 = session::sent(s, HandshakeType::ClientKeyExchange, body);
    let s2 = session::exchanged(s1);
    let label = "client finished".spec_bytes();
    law_prf_is_a_stream(k.master_secret, label, crypto::sha256(s2.transcript), 12, 12);
    let f = session::finishing(s2, label);
    let all = session::client_flight(s).actions;
    assert(all == seq![session::clear(s, HandshakeType::ClientKeyExchange, body)] + f.actions);
    assert(f.actions.len() == 2);
    assert(all[1] == f.actions[0]);
    assert(all[2] == f.actions[1]);
    lemma_finishing_read(s2, k, label);
}

/// A server that reads the client's `Finished` message, with the twelve bytes for the messages so
/// far and the client's label, ends the handshake with two datagrams: the change to the next epoch
/// and its own `Finished` message, over the client's too, under its keys and its label. With any
/// other bytes the connection fails.
#[verifier::rlimit(40)]
#[verifier::spinoff_prover]
pub proof fn law_server_finishes(s: SessionView, k: KeysView, raw: Seq<u8>, data: Seq<u8>)
    requires
        !s.is_client,
        s.keys == Some(k),
        s.epoch == 0,
        s.sequence_number < 0xFFFF_FFFF_FF00,
        forall|key: Seq<u8>, d: Seq<u8>| (#[trigger] crypto::hmac_sha256(key, d)).len() == 32,
    ensures
        ({
            let f = session::client_finished(s, raw, data);
            let expected = keys::verify_data(
                k.master_secret,
                "client finished".spec_bytes(),
                s.transcript,
            );
            &&& data != expected ==> f.error == Some(DtlsError::FinishedVerificationFailed)
                && f.session.state == StateView::Failed && f.actions.len() == 0
            &&& data == expected && f.error is None ==> f.session.state == StateView::Connected(k)
            &&& data == expected && f.error is None && f.actions[1]->Send_0.len() < 0x1_0000 ==> {
                &&& f.actions.len() == 2
                &&& flight_laws::record_in(f.actions[0]) matches Some(c) && c.content_type
                    == ContentType::ChangeCipherSpec && c.payload == seq![1u8] && c.epoch == 0
                &&& is_finished(
                    f.actions[1],
                    false,
                    s.message_seq,
                    k,
                    "server finished".spec_bytes(),
                    s.transcript + raw,
                )
            }
        }),
{
    let label = "server finished".spec_bytes();
    let w = session::noted(s, raw);
    law_prf_is_a_stream(k.master_secret, label, crypto::sha256(w.transcript), 12, 12);
    let f = session::client_finished(s, raw, data);
    let g = session::finishing(w, label);
    if f.error is None && g.actions[1]->Send_0.len() < 0x1_0000 {
        assert(g.error is None);
        assert(g.actions.len() == 2);
        lemma_finishing_read(w, k, label);
    }
}

/// A client ends the handshake with the server's `Finished` message where it has the twelve bytes
/// for all messages and the server's label; with any other bytes the connection fails.
#[verifier::rlimit(40)]
#[verifier::spinoff_prover]
pub proof fn law_client_confirms(s: SessionView, k: KeysView, data: Seq<u8>)
    requires
        s.keys == Some(k),
    ensures
        ({
            let f = session::server_finished(s, data);
            let expected = keys::verify_data(
                k.master_secret,
                "server finished".spec_bytes(),
                s.transcript,
            );
            &&& f.actions.len() == 0
            &&& data == expected ==> f.error is None && f.session == (SessionView {
                state: StateView::Connected(k),
                ..s
            })
            &&& data != expected ==> f.error == Some(DtlsError::FinishedVerificationFailed)
                && f.session == (SessionView { state: StateView::Failed, ..s })
        }),
{
}

/// A client sends its first hello again, as it was, until it has sent another message; a server
/// sends nothing again.
pub proof fn law_first_hello_is_sent_again(s: SessionView, random: Seq<u8>)
    requires
        s.message_seq == 0,
    ensures
        ({
            let step = session::started(s, random);
            &&& s.is_client ==> (session::retransmitted(step.session) matches Some(d)
                && step.actions == seq![ActionView::Send(d)])
            &&& !s.is_client ==> session::retransmitted(step.session) is None
        }),
        s.is_client ==> session::retransmitted(SessionView { message_seq: 2, ..s }) is None,
{
}

} // verus!
