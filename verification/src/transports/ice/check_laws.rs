//! What the two ends of a connectivity check make of it.
use vstd::prelude::*;
use vstd::string::*;
use vstd::utf8::*;

use crate::text;
use crate::transports::ice::address;
use crate::transports::ice::address::SocketAddr;
use crate::transports::ice::candidate::{CandidateView, IceRole, PairView};
use crate::transports::ice::stun;
use crate::transports::ice::stun::{StunClass, StunMethod};
use crate::transports::ice::stun_laws;
use crate::transports::ice::transport;
use crate::transports::ice::transport::{CheckError, CheckReply, IcePacketView, IceView};
use crate::wire;

verus! {

/// The attributes that a check carries are read as they were sent.
proof fn lemma_check_read(
    v: IceView,
    local: CandidateView,
    remote: CandidateView,
    role: IceRole,
    tx: Seq<u8>,
)
    requires
        stun_laws::codes_have_length(),
        tx.len() == 12,
        transport::check_packet(v, local, remote, role, tx) is Ok,
    ensures
        v.remote_parameters is Some,
        ({
            let p = transport::check_packet(v, local, remote, role, tx)->Ok_0;
            let attrs = transport::check_attributes(
                v.local_parameters,
                v.remote_parameters->0,
                local.priority,
                role,
            );
            let n = attrs.len() as int;
            stun::attrs_parsed(p.skip(20)) matches Some(all) && {
                &&& all.len() == n + 2
                &&& all[n].0 == 0x0008
                &&& all[n + 1].0 == 0x8028
                &&& forall|i: int| 0 <= i < n ==> #[trigger] all[i] == attrs[i]
            }
        }),
{
    let q = v.remote_parameters->0;
    let attrs = transport::check_attributes(v.local_parameters, q, local.priority, role);
    let t = stun::message_type(StunClass::Request, StunMethod::Binding);
    let key = Some(encode_utf8(q.password));
    stun_laws::law_message_layout(t, tx, attrs, key, true);
    let all = stun::sent(t, tx, attrs, key, true);
    assert forall|i: int| 0 <= i < attrs.len() implies #[trigger] all[i] == attrs[i] by {
        assert(all.subrange(0, attrs.len() as int)[i] == all[i]);
    }
}

/// A check names both ends, the one that is checked first: who splits the user name at its first
/// colon reads the fragment of the end that is checked, and after it that of the end that checks.
#[verifier::rlimit(40)]
pub proof fn law_check_names_both_ends(
    checking: IceView,
    checked: IceView,
    local: CandidateView,
    remote: CandidateView,
    role: IceRole,
    tx: Seq<u8>,
)
    requires
        stun_laws::codes_have_length(),
        tx.len() == 12,
        checking.remote_parameters == Some(checked.local_parameters),
        !checked.local_parameters.username_fragment.contains(':'),
        transport::check_packet(checking, local, remote, role, tx) is Ok,
    ensures
        ({
            let p = transport::check_packet(checking, local, remote, role, tx)->Ok_0;
            stun_laws::value_in(p, 0x0006) matches Some(v) && {
                let name = decode_utf8(v);
                let colon = text::first_at(name, 0, ':');
                &&& valid_utf8(v)
                &&& colon < name.len()
                &&& name[colon] == ':'
                &&& name.subrange(0, colon) == checked.local_parameters.username_fragment
                &&& name.skip(colon + 1) == checking.local_parameters.username_fragment
            }
        }),
{
    lemma_check_read(checking, local, remote, role, tx);
    let p = transport::check_packet(checking, local, remote, role, tx)->Ok_0;
    let all = stun::attrs_parsed(p.skip(20))->0;
    let there = checked.local_parameters.username_fragment;
    let here = checking.local_parameters.username_fragment;
    let name = there + seq![':'] + here;
    assert(all[0].0 != 6);
    assert(all[1] == (6u16, encode_utf8(name)));
    stun::lemma_first_value(all, 6, 1);
    encode_utf8_decode_utf8(name);
    encode_utf8_valid_utf8(name);
    let k = there.len() as int;
    assert forall|i: int| 0 <= i < k implies name[i] != ':' by {
        assert(name[i] == there[i]);
        assert(there.contains(there[i]));
    }
    assert(name[k] == ':');
    address::lemma_first_at(name, 0, k, ':');
    assert(name.subrange(0, k) =~= there);
    assert(name.skip(k + 1) =~= here);
}

/// A check carries the priority of the candidate that it is sent from, and what settles the role
/// of the end that checks: the end in control says so, and asks for the pair to be used; the other
/// does neither. Both add the number that breaks ties.
#[verifier::rlimit(40)]
pub proof fn law_check_tells_role_and_priority(
    v: IceView,
    local: CandidateView,
    remote: CandidateView,
    role: IceRole,
    tx: Seq<u8>,
)
    requires
        stun_laws::codes_have_length(),
        tx.len() == 12,
        transport::check_packet(v, local, remote, role, tx) is Ok,
    ensures
        ({
            let p = transport::check_packet(v, local, remote, role, tx)->Ok_0;
            &&& stun_laws::value_in(p, 0x0024) matches Some(x) && x.len() == 4 && wire::be32(x, 0)
                == local.priority
            &&& stun_laws::value_in(p, if role == IceRole::Controlling {
                0x802Au16
            } else {
                0x8029u16
            }) matches Some(x) && x.len() == 8 && wire::be64(x, 0) == v.local_parameters.tie_breaker
            &&& stun_laws::value_in(p, if role == IceRole::Controlling {
                0x8029u16
            } else {
                0x802Au16
            }) is None
            &&& role == IceRole::Controlling <==> stun_laws::value_in(p, 0x0025) is Some
            &&& role == IceRole::Controlling ==> stun_laws::value_in(p, 0x0025) == Some(Seq::<u8>::empty())
            &&& stun_laws::value_in(p, 0x8022) == Some("rustrtc".spec_bytes())
        }),
{
    lemma_check_read(v, local, remote, role, tx);
    let p = transport::check_packet(v, local, remote, role, tx)->Ok_0;
    let all = stun::attrs_parsed(p.skip(20))->0;
    let x = wire::enc32(local.priority);
    let y = wire::enc64(v.local_parameters.tie_breaker);
    assert(all[0].0 == 0x8022 && all[1].0 == 6 && all[2] == (0x24u16, x));
    stun::lemma_first_value(all, 0x8022, 0);
    stun::lemma_first_value(all, 0x24, 2);
    assert(x.subrange(0, 4) =~= x);
    wire::lemma_be32_enc32(x, 0, local.priority);
    assert(y.subrange(0, 8) =~= y);
    wire::lemma_be64_enc64(y, 0, v.local_parameters.tie_breaker);
    match role {
        IceRole::Controlling => {
            assert(all[3] == (0x802Au16, y));
            assert(all[4].0 == 0x25);
            assert(all[4].1 =~= seq![]);
            stun::lemma_first_value(all, 0x802A, 3);
            stun::lemma_first_value(all, 0x25, 4);
            stun_laws::lemma_no_value(all, 0x8029);
        },
        IceRole::Controlled => {
            assert(all[3] == (0x8029u16, y));
            stun::lemma_first_value(all, 0x8029, 3);
            stun_laws::lemma_no_value(all, 0x802A);
            stun_laws::lemma_no_value(all, 0x25);
        },
    }
}

/// A check is a binding request in its transaction, with a code under the password of the end that
/// is checked, which that end can verify with what it knows, and a checksum.
#[verifier::rlimit(40)]
pub proof fn law_check_is_authentic(
    checking: IceView,
    checked: IceView,
    local: CandidateView,
    remote: CandidateView,
    role: IceRole,
    tx: Seq<u8>,
)
    requires
        stun_laws::codes_have_length(),
        tx.len() == 12,
        checking.remote_parameters == Some(checked.local_parameters),
        transport::check_packet(checking, local, remote, role, tx) is Ok,
    ensures
        ({
            let p = transport::check_packet(checking, local, remote, role, tx)->Ok_0;
            &&& wire::be16(p, 0) == 0x0001
            &&& p.subrange(8, 20) == tx
            &&& authentic(p, checked.local_parameters.password)
            &&& stun_laws::fingerprinted(p)
        }),
{
    let q = checked.local_parameters;
    let attrs = transport::check_attributes(checking.local_parameters, q, local.priority, role);
    let t = stun::message_type(StunClass::Request, StunMethod::Binding);
    let key = encode_utf8(q.password);
    stun_laws::law_message_layout(t, tx, attrs, Some(key), true);
    stun_laws::law_integrity(t, tx, attrs, key, true);
    stun_laws::law_fingerprint(t, tx, attrs, Some(key));
}

/// Whether a packet with a checksum carries the code that this password gives.
pub open spec fn authentic(p: Seq<u8>, password: Seq<char>) -> bool {
    stun_laws::signed(p, encode_utf8(password))
}

/// When there is no check: only candidates over UDP are checked, once the parameters of the other
/// end are known.
pub proof fn law_when_there_is_a_check(
    v: IceView,
    local: CandidateView,
    remote: CandidateView,
    role: IceRole,
    tx: Seq<u8>,
)
    ensures
        remote.transport != "udp"@ <==> transport::check_packet(v, local, remote, role, tx) == Err::<
            Seq<u8>,
            CheckError,
        >(CheckError::NotUdp),
        remote.transport == "udp"@ && v.remote_parameters is None
            <==> transport::check_packet(v, local, remote, role, tx) == Err::<Seq<u8>, CheckError>(
            CheckError::NoRemoteParameters,
        ),
{
}

/// Every request is answered with success in its transaction, under the password of the end that
/// answers; the answer tells where the request came from.
#[verifier::rlimit(40)]
pub proof fn law_answer(password: Seq<char>, tx: Seq<u8>, addr: SocketAddr)
    requires
        stun_laws::codes_have_length(),
        tx.len() == 12,
    ensures
        ({
            let p = transport::answer(password, tx, addr);
            &&& wire::be16(p, 0) == 0x0101
            &&& p.subrange(8, 20) == tx
            &&& authentic(p, password)
            &&& stun_laws::fingerprinted(p)
            &&& stun_laws::value_in(p, 0x0020) matches Some(x) && stun::xor_address_parsed(x, tx) == Some(
                addr.unscoped(),
            )
        }),
{
    let attrs = seq![(stun::ATTR_XOR_MAPPED_ADDRESS, stun::xor_address_value(addr, tx))];
    let t = stun::message_type(StunClass::SuccessResponse, StunMethod::Binding);
    let key = encode_utf8(password);
    stun_laws::law_address_layout(addr, tx);
    assert(attrs.drop_last() =~= seq![]);
    assert(stun::attrs_bytes(attrs.drop_last()) =~= seq![]);
    assert(stun::attrs_bytes(attrs).len() <= 24);
    stun_laws::law_message_layout(t, tx, attrs, Some(key), true);
    stun_laws::law_integrity(t, tx, attrs, key, true);
    stun_laws::law_fingerprint(t, tx, attrs, Some(key));
    let all = stun::sent(t, tx, attrs, Some(key), true);
    assert(all.subrange(0, 1)[0] == all[0]);
    stun::lemma_first_value(all, 0x20, 0);
    stun::law_address_is_read_back(addr, tx);
}

/// What a packet is for: one that starts with a byte above 1 is data, whole; a request is answered
/// to where it came from; the success of a request that is pending completes it, once; all else is
/// ignored.
pub proof fn law_packets_are_told_apart(v: IceView, packet: Seq<u8>, addr: SocketAddr)
    ensures
        ({
            let m = transport::packet_meaning(v, packet, addr);
            let d = stun::stun_decoded(packet);
            &&& packet.len() == 0 ==> m is Ignored
            &&& m is Data <==> packet.len() > 0 && packet[0] >= 2
            &&& m matches IcePacketView::Data(x) ==> x == packet
            &&& m is Respond <==> packet.len() > 0 && packet[0] < 2 && d is Ok
                && d->Ok_0.class == StunClass::Request
            &&& m matches IcePacketView::Respond(x) ==> x == transport::answer(
                v.local_parameters.password,
                packet.subrange(8, 20),
                addr,
            )
            &&& m is Completed <==> packet.len() > 0 && packet[0] < 2 && d is Ok && d->Ok_0.class
                == StunClass::SuccessResponse && v.pending.contains(packet.subrange(8, 20))
            &&& m is Completed ==> m == IcePacketView::Completed(d->Ok_0)
                && transport::pending_after(v, m) == v.pending.remove(packet.subrange(8, 20))
            &&& !(m is Completed) ==> transport::pending_after(v, m) == v.pending
        }),
{
}

/// A pair works only by a successful binding response in the transaction of the check.
pub proof fn law_when_a_check_passes(tx: Seq<u8>, reply: CheckReply)
    ensures
        transport::check_result(tx, reply) is Ok <==> (reply matches CheckReply::Message(m)
            && m@.transaction_id == tx && m@.method == StunMethod::Binding && m@.class
            == StunClass::SuccessResponse),
        reply is Timeout ==> transport::check_result(tx, reply) == Err::<(), CheckError>(
            CheckError::Timeout,
        ),
        reply is Closed ==> transport::check_result(tx, reply) == Err::<(), CheckError>(
            CheckError::Closed,
        ),
        transport::permission_result(reply) is Ok <==> (reply matches CheckReply::Message(m)
            && m@.class != StunClass::ErrorResponse),
{
}

/// The pairs to check are exactly those of a local and a remote candidate with the same transport.
/// None is nominated.
#[verifier::rlimit(40)]
pub proof fn law_pairs_are_complete(
    locals: Seq<CandidateView>,
    remotes: Seq<CandidateView>,
    p: PairView,
)
    ensures
        transport::pairs_of(locals, remotes).contains(p) <==> {
            &&& locals.contains(p.local)
            &&& remotes.contains(p.remote)
            &&& p.local.transport == p.remote.transport
            &&& !p.nominated
        },
    decreases locals.len(),
{
    let all = transport::pairs_of(locals, remotes);
    if locals.len() > 0 {
        let init = locals.drop_last();
        let first = transport::pairs_of(init, remotes);
        let last = transport::pairs_with(locals.last(), remotes);
        law_pairs_are_complete(init, remotes, p);
        lemma_pairs_with(locals.last(), remotes, p);
        assert(all == first + last);
        if all.contains(p) {
            let k = choose|k: int| 0 <= k < all.len() && all[k] == p;
            if k < first.len() {
                assert(first[k] == p);
            } else {
                assert(last[k - first.len()] == p);
            }
        }
        if first.contains(p) {
            let k = choose|k: int| 0 <= k < first.len() && first[k] == p;
            assert(all[k] == p);
        }
        if last.contains(p) {
            let k = choose|k: int| 0 <= k < last.len() && last[k] == p;
            assert(all[first.len() + k] == p);
        }
        if init.contains(p.local) {
            let k = choose|k: int| 0 <= k < init.len() && init[k] == p.local;
            assert(locals[k] == p.local);
        }
        if locals.contains(p.local) {
            let k = choose|k: int| 0 <= k < locals.len() && locals[k] == p.local;
            if k < init.len() {
                assert(init[k] == p.local);
            }
        }
        assert(locals[locals.len() - 1] == locals.last());
    }
}

#[verifier::rlimit(40)]
proof fn lemma_pairs_with(local: CandidateView, remotes: Seq<CandidateView>, p: PairView)
    ensures
        transport::pairs_with(local, remotes).contains(p) <==> {
            &&& p.local == local
            &&& remotes.contains(p.remote)
            &&& local.transport == p.remote.transport
            &&& !p.nominated
        },
    decreases remotes.len(),
{
    if remotes.len() > 0 {
        let init = remotes.drop_last();
        let first = transport::pairs_with(local, init);
        let all = transport::pairs_with(local, remotes);
        lemma_pairs_with(local, init, p);
        if all.contains(p) {
            let k = choose|k: int| 0 <= k < all.len() && all[k] == p;
            if k < first.len() {
                assert(first[k] == p);
            }
        }
        if first.contains(p) {
            let k = choose|k: int| 0 <= k < first.len() && first[k] == p;
            assert(all[k] == p);
        }
        if init.contains(p.remote) {
            let k = choose|k: int| 0 <= k < init.len() && init[k] == p.remote;
            assert(remotes[k] == p.remote);
        }
        if remotes.contains(p.remote) {
            let k = choose|k: int| 0 <= k < remotes.len() && remotes[k] == p.remote;
            if k < init.len() {
                assert(init[k] == p.remote);
            } else if local.transport == p.remote.transport && p.local == local && !p.nominated {
                assert(all[first.len() as int] == p);
            }
        }
        assert(remotes[remotes.len() - 1] == remotes.last());
    }
}

/// Why a check fails, and why a permission is not given: what comes first in the answer is told
/// first.
pub proof fn law_why_a_check_fails(tx: Seq<u8>, reply: CheckReply)
    ensures
        reply matches CheckReply::Message(m) ==> {
            &&& m@.transaction_id != tx ==> transport::check_result(tx, reply) == Err::<
                (),
                CheckError,
            >(CheckError::TransactionMismatch)
            &&& m@.transaction_id == tx && m@.method != StunMethod::Binding
                ==> transport::check_result(tx, reply) == Err::<(), CheckError>(CheckError::Method)
            &&& m@.transaction_id == tx && m@.method == StunMethod::Binding && m@.class
                != StunClass::SuccessResponse ==> transport::check_result(tx, reply) == Err::<
                (),
                CheckError,
            >(CheckError::Refused)
            &&& m@.class == StunClass::ErrorResponse ==> transport::permission_result(reply)
                == Err::<(), CheckError>(CheckError::PermissionRefused(m@.error_code))
        },
        !(reply is Message) ==> transport::permission_result(reply) == Err::<(), CheckError>(
            CheckError::PermissionTimeout,
        ),
{
}

} // verus!
