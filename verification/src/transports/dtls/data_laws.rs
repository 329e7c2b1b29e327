//! What becomes of the data that a connection carries.
use vstd::prelude::*;

use crate::crypto;
use crate::transports::dtls::error::DtlsError;
use crate::transports::dtls::key_laws;
use crate::transports::dtls::keys;
use crate::transports::dtls::keys::KeysView;
use crate::transports::dtls::record;
use crate::transports::dtls::record::{ContentType, ProtocolVersion, RecordView};
use crate::transports::dtls::session;
use crate::transports::dtls::session::{ActionView, SessionView, StateView};
use crate::wire;

verus! {

/// What a record of data holds beside its payload under these keys: what is sealed, and with what.
pub open spec fn sealed_data(
    key: Seq<u8>,
    iv: Seq<u8>,
    number: u64,
    data: Seq<u8>,
) -> Option<Seq<u8>> {
    crypto::gcm_sealed(
        key,
        iv + wire::enc64(number),
        wire::enc64(number) + seq![23u8, 254u8, 253u8] + wire::enc16(data.len() as u16),
        data,
    )
}

/// Data goes out in one record, sealed under the keys of the sender and numbered; nothing else of
/// the connection changes but the number of the next record.
#[verifier::rlimit(40)]
pub proof fn law_data_is_sent(s: SessionView, k: KeysView, data: Seq<u8>, sealed: Seq<u8>)
    requires
        s.keys == Some(k),
        k.client_write_key.len() == 16,
        k.server_write_key.len() == 16,
        s.sequence_number < 0xFFFF_FFFF_FFFF,
        sealed.len() == data.len() + 16,
        data.len() < 0xFF00,
        sealed_data(
            if s.is_client {
                k.client_write_key
            } else {
                k.server_write_key
            },
            if s.is_client {
                k.client_write_iv
            } else {
                k.server_write_iv
            },
            (s.epoch * 0x1_0000_0000_0000 + s.sequence_number) as u64,
            data,
        ) == Some(sealed),
    ensures
        ({
            let step = session::on_outgoing(s, data);
            &&& step.session == (SessionView {
                sequence_number: (s.sequence_number + 1) as u64,
                ..s
            })
            &&& step.error is None
            &&& step.actions.len() == 1
            &&& step.actions[0] matches ActionView::Send(raw) && record::record_decoded(
                raw,
            ) matches Ok(Some(r)) && r == (RecordView {
                content_type: ContentType::ApplicationData,
                version: ProtocolVersion { major: 254, minor: 253 },
                epoch: s.epoch,
                sequence_number: s.sequence_number,
                payload: wire::enc64(
                    (s.epoch * 0x1_0000_0000_0000 + s.sequence_number) as u64,
                ) + sealed,
            })
        }),
{
    let number = (s.epoch * 0x1_0000_0000_0000 + s.sequence_number) as u64;
    key_laws::law_record_numbers(s.epoch, s.sequence_number);
    key_laws::law_each_end_has_its_keys(k);
    lemma_sealed(number, data, k.write_key(s.is_client), k.write_iv(s.is_client), sealed);
    lemma_outgoing(s, k, data, number, wire::enc64(number) + sealed);
}

/// The payload of a record of data.
proof fn lemma_sealed(number: u64, data: Seq<u8>, key: Seq<u8>, iv: Seq<u8>, sealed: Seq<u8>)
    requires
        key.len() == 16,
        data.len() < 0xFF00,
        sealed_data(key, iv, number, data) == Some(sealed),
    ensures
        keys::record_sealed(
            ContentType::ApplicationData,
            ProtocolVersion { major: 254, minor: 253 },
            number,
            data,
            key,
            iv,
        ) == Ok::<Seq<u8>, DtlsError>(wire::enc64(number) + sealed),
{
    key_laws::law_payload_is_sealed(
        ContentType::ApplicationData,
        ProtocolVersion { major: 254, minor: 253 },
        number,
        data,
        key,
        iv,
    );
}

/// The record of data with this payload.
spec fn data_record(s: SessionView, payload: Seq<u8>) -> RecordView {
    RecordView {
        content_type: ContentType::ApplicationData,
        version: ProtocolVersion { major: 254, minor: 253 },
        epoch: s.epoch,
        sequence_number: s.sequence_number,
        payload,
    }
}

proof fn lemma_outgoing(s: SessionView, k: KeysView, data: Seq<u8>, number: u64, payload: Seq<u8>)
    requires
        s.keys == Some(k),
        s.sequence_number < 0xFFFF_FFFF_FFFF,
        payload.len() < 0x1_0000,
        session::full_seq(s.epoch, s.sequence_number) == number,
        keys::record_sealed(
            ContentType::ApplicationData,
            ProtocolVersion { major: 254, minor: 253 },
            number,
            data,
            k.write_key(s.is_client),
            k.write_iv(s.is_client),
        ) == Ok::<Seq<u8>, DtlsError>(payload),
    ensures
        ({
            let step = session::on_outgoing(s, data);
            let r = data_record(s, payload);
            let raw = record::record_bytes(r);
            &&& step.session == (SessionView {
                sequence_number: (s.sequence_number + 1) as u64,
                ..s
            })
            &&& step.error is None
            &&& step.actions.len() == 1
            &&& step.actions[0] == ActionView::Send(raw)
            &&& record::record_decoded(raw) == Ok::<Option<RecordView>, DtlsError>(Some(r))
            &&& raw.skip(record::record_len(raw)).len() == 0
        }),
{
    let r = data_record(s, payload);
    let raw = record::record_bytes(r);
    let step = session::on_outgoing(s, data);
    record::law_decode_of_encoded(r, seq![]);
    assert(raw + seq![] =~= raw);
    assert(ProtocolVersion::dtls_1_2() == ProtocolVersion { major: 254, minor: 253 });
    reveal(session::record_of);
    assert(session::record_of(s, ContentType::ApplicationData, payload) == raw);
    assert(step.actions[0] == ActionView::Send(raw));
}

/// Before there are keys no data goes out, and what was to go is dropped.
pub proof fn law_no_data_without_keys(s: SessionView, data: Seq<u8>)
    requires
        s.keys is None,
    ensures
        session::on_outgoing(s, data).actions.len() == 0,
        session::on_outgoing(s, data).session == s,
        session::on_outgoing(s, data).error is None,
{
}

/// Data that one end sends is what the other end hands over, and all that comes of it, where a
/// sealed message can be opened again and the numbers fit the fields of a record.
#[verifier::rlimit(40)]
pub proof fn law_data_arrives(
    a: SessionView,
    b: SessionView,
    k: KeysView,
    data: Seq<u8>,
    sealed: Seq<u8>,
    randoms: Seq<Seq<u8>>,
)
    requires
        a.keys == Some(k),
        b.keys == Some(k),
        a.is_client != b.is_client,
        a.epoch > 0,
        k.client_write_key.len() == 16,
        k.server_write_key.len() == 16,
        a.sequence_number < 0xFFFF_FFFF_FFFF,
        sealed.len() == data.len() + 16,
        data.len() < 0xFF00,
        sealed_data(
            k.write_key(a.is_client),
            k.write_iv(a.is_client),
            (a.epoch * 0x1_0000_0000_0000 + a.sequence_number) as u64,
            data,
        ) == Some(sealed),
        ({
            let number = (a.epoch * 0x1_0000_0000_0000 + a.sequence_number) as u64;
            crypto::gcm_opened(
                k.write_key(a.is_client),
                k.write_iv(a.is_client) + wire::enc64(number),
                wire::enc64(number) + seq![23u8, 254u8, 253u8] + wire::enc16(data.len() as u16),
                sealed,
            ) == Some(data)
        }),
    ensures
        session::on_outgoing(a, data).actions.len() == 1,
        session::on_outgoing(a, data).actions[0] matches ActionView::Send(raw) && ({
            let step = session::on_datagram(b, raw, randoms);
            &&& step.actions == seq![ActionView::Deliver(data)]
            &&& step.session == b
            &&& step.error is None
        }),
{
    let number = (a.epoch * 0x1_0000_0000_0000 + a.sequence_number) as u64;
    let payload = wire::enc64(number) + sealed;
    let r = data_record(a, payload);
    let raw = record::record_bytes(r);
    key_laws::law_record_numbers(a.epoch, a.sequence_number);
    lemma_sealed(number, data, k.write_key(a.is_client), k.write_iv(a.is_client), sealed);
    lemma_outgoing(a, k, data, number, payload);
    lemma_opened(number, data, k.write_key(a.is_client), k.write_iv(a.is_client), sealed);
    assert(session::received_payload(b, r) == Some(data));
    lemma_last_record(b, raw, r, data, randoms);
}

/// What the payload of a record of data opens to.
proof fn lemma_opened(number: u64, data: Seq<u8>, key: Seq<u8>, iv: Seq<u8>, sealed: Seq<u8>)
    requires
        key.len() == 16,
        data.len() < 0xFF00,
        sealed.len() == data.len() + 16,
        crypto::gcm_opened(
            key,
            iv + wire::enc64(number),
            wire::enc64(number) + seq![23u8, 254u8, 253u8] + wire::enc16(data.len() as u16),
            sealed,
        ) == Some(data),
    ensures
        keys::record_opened(
            ContentType::ApplicationData,
            ProtocolVersion { major: 254, minor: 253 },
            number,
            wire::enc64(number) + sealed,
            key,
            iv,
        ) == Ok::<Seq<u8>, DtlsError>(data),
{
    key_laws::law_payload_is_opened(
        ContentType::ApplicationData,
        ProtocolVersion { major: 254, minor: 253 },
        number,
        wire::enc64(number),
        sealed,
        key,
        iv,
    );
}

/// A datagram of one record of data leads to its delivery.
proof fn lemma_last_record(
    s: SessionView,
    raw: Seq<u8>,
    r: RecordView,
    data: Seq<u8>,
    randoms: Seq<Seq<u8>>,
)
    requires
        record::record_decoded(raw) matches Ok(Some(q)) && q == r,
        r.content_type == ContentType::ApplicationData,
        raw.skip(record::record_len(raw)).len() == 0,
        session::received_payload(s, r) == Some(data),
    ensures
        ({
            let step = session::on_datagram(s, raw, randoms);
            &&& step.actions == seq![ActionView::Deliver(data)]
            &&& step.session == s
            &&& step.error is None
        }),
{
    let rest = raw.skip(record::record_len(raw));
    let step = session::on_payload(s, r.content_type, data, randoms, 0);
    reveal_with_fuel(session::on_records, 2);
    assert(!(record::record_decoded(rest) matches Ok(Some(_))));
    assert(step.actions + seq![] =~= step.actions);
}

/// A record that cannot be opened, or one that is sealed before there are keys, comes to nothing.
pub proof fn law_unreadable_records(
    s: SessionView,
    raw: Seq<u8>,
    r: RecordView,
    randoms: Seq<Seq<u8>>,
)
    requires
        record::record_decoded(raw) matches Ok(Some(q)) && q == r,
        r.epoch > 0,
        s.keys is None,
    ensures
        ({
            let step = session::on_datagram(s, raw, randoms);
            &&& step.actions.len() == 0
            &&& step.session == s
            &&& step.error is None
        }),
{
}

/// What fails while a datagram is read ends the connection, and what was learned before that stays.
pub proof fn law_failure_ends(s: SessionView, data: Seq<u8>, randoms: Seq<Seq<u8>>)
    ensures
        ({
            let step = session::on_datagram(s, data, randoms);
            let read = session::on_records(s, data, randoms, 0);
            &&& step.error == read.error
            &&& step.actions == read.actions
            &&& step.error is Some ==> step.session.state == StateView::Failed
            &&& step.error is None ==> step.session == read.session
            &&& step.session.transcript == read.session.transcript
            &&& step.session.keys == read.session.keys
        }),
{
}

/// The records of a datagram are read one after the other, each by what the one before it led to;
/// what is left of a record is passed over.
pub proof fn law_records_in_turn(
    s: SessionView,
    first: RecordView,
    payload: Seq<u8>,
    rest: Seq<u8>,
    randoms: Seq<Seq<u8>>,
    used: nat,
)
    requires
        first.payload.len() < 0x1_0000,
        first.sequence_number < 0x1_0000_0000_0000,
        session::received_payload(s, first) == Some(payload),
    ensures
        ({
            let all = session::on_records(s, record::record_bytes(first) + rest, randoms, used);
            let one = session::on_payload(s, first.content_type, payload, randoms, used);
            let next = session::on_records(one.session, rest, randoms, one.used);
            &&& one.error is Some ==> all == one
            &&& one.error is None ==> all.actions == one.actions + next.actions && all.session
                == next.session && all.error == next.error
        }),
{
    let data = record::record_bytes(first) + rest;
    record::law_decode_of_encoded(first, rest);
    assert(record::record_bytes(first).len() >= 13) by {
        lemma_record_len(first);
    }
}

proof fn lemma_record_len(r: RecordView)
    requires
        r.payload.len() < 0x1_0000,
        r.sequence_number < 0x1_0000_0000_0000,
    ensures
        record::record_bytes(r).len() == 13 + r.payload.len(),
{
}

} // verus!
