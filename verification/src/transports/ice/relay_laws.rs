//! What a relay server is asked, and what its answers mean.
use vstd::prelude::*;
use vstd::utf8::*;

use crate::config::{IceCredentialType, IceServer};
use crate::crypto;
use crate::transports::ice::address::SocketAddr;
use crate::transports::ice::stun;
use crate::transports::ice::stun::{DecodedView, StunClass, StunError, StunMethod};
use crate::transports::ice::stun_laws;
use crate::transports::ice::turn;
use crate::transports::ice::turn::{
    AuthView, CredentialsView, NonceView, TurnError, Verdict,
};
use crate::transports::ice::uri::IceTransportProtocol;
use crate::wire;

verus! {

/// The key of a user is the hash of the user name, the realm and the password, with colons
/// between them. It depends on the nonce in no way.
pub proof fn law_user_key(creds: CredentialsView, realm: Seq<char>, a: Seq<char>, b: Seq<char>)
    ensures
        turn::user_key(creds.username, realm, creds.password) == crypto::md5_hash(
            encode_utf8(creds.username + seq![':'] + realm + seq![':'] + creds.password),
        ),
        turn::auth_of(creds, NonceView { realm, nonce: a }).key == turn::auth_of(
            creds,
            NonceView { realm, nonce: b },
        ).key,
        turn::auth_of(creds, NonceView { realm, nonce: a }).key == turn::user_key(
            creds.username,
            realm,
            creds.password,
        ),
        turn::auth_of(creds, NonceView { realm, nonce: a }).nonce == a,
        turn::auth_of(creds, NonceView { realm, nonce: a }).realm == realm,
        turn::auth_of(creds, NonceView { realm, nonce: a }).username == creds.username,
{
}

/// A request for an allocation asks for UDP, for ten minutes. Once the server has named a realm
/// and a nonce, the request names the user, the realm and the nonce, and is signed with the key of
/// the user; before that it is not.
#[verifier::rlimit(40)]
pub proof fn law_allocation_is_asked_for(
    creds: CredentialsView,
    info: Option<NonceView>,
    tx: Seq<u8>,
    p: Seq<u8>,
)
    requires
        stun_laws::codes_have_length(),
        tx.len() == 12,
        turn::written(
            StunClass::Request,
            StunMethod::Allocate,
            tx,
            turn::allocate_attributes(creds, info),
            turn::allocate_key(creds, info),
            true,
        ) == Ok::<Seq<u8>, TurnError>(p),
    ensures
        wire::be16(p, 0) == 0x0003,
        p.subrange(8, 20) == tx,
        stun_laws::fingerprinted(p),
        stun_laws::value_in(p, 0x0019) == Some(seq![17u8, 0, 0, 0]),
        stun_laws::value_in(p, 0x000D) matches Some(x) && x.len() == 4 && wire::be32(x, 0) == 600,
        info matches Some(i) ==> {
            &&& stun_laws::value_in(p, 0x0006) == Some(encode_utf8(creds.username))
            &&& stun_laws::value_in(p, 0x0014) == Some(encode_utf8(i.realm))
            &&& stun_laws::value_in(p, 0x0015) == Some(encode_utf8(i.nonce))
            &&& stun_laws::signed(p, turn::user_key(creds.username, i.realm, creds.password))
        },
        info is None ==> stun_laws::value_in(p, 0x0008) is None && stun_laws::value_in(p, 0x0006)
            is None,
{
    let attrs = turn::allocate_attributes(creds, info);
    let key = turn::allocate_key(creds, info);
    let t = stun::message_type(StunClass::Request, StunMethod::Allocate);
    let x = wire::enc32(600);
    assert(x.subrange(0, 4) =~= x);
    wire::lemma_be32_enc32(x, 0, 600);
    stun_laws::law_value_is_read(t, tx, attrs, key, true, 0);
    stun_laws::law_value_is_read(t, tx, attrs, key, true, 1);
    match info {
        Some(i) => {
            assert(attrs =~= named_attributes(creds, i));
            lemma_named_request(creds, i, tx, p);
        },
        None => {
            lemma_bare_request(creds, tx, p);
        },
    }
}

/// The attributes of a request that names the user.
spec fn named_attributes(creds: CredentialsView, i: NonceView) -> Seq<(u16, Seq<u8>)> {
    seq![
        (0x0019u16, seq![17u8, 0, 0, 0]),
        (0x000Du16, wire::enc32(600)),
        (0x0006u16, encode_utf8(creds.username)),
        (0x0014u16, encode_utf8(i.realm)),
        (0x0015u16, encode_utf8(i.nonce)),
    ]
}

#[verifier::rlimit(40)]
proof fn lemma_named_request(creds: CredentialsView, i: NonceView, tx: Seq<u8>, p: Seq<u8>)
    requires
        stun_laws::codes_have_length(),
        tx.len() == 12,
        stun::message_fits(
            named_attributes(creds, i),
            Some(turn::user_key(creds.username, i.realm, creds.password)),
            true,
        ),
        p == stun::message_bytes(
            3,
            tx,
            named_attributes(creds, i),
            Some(turn::user_key(creds.username, i.realm, creds.password)),
            true,
        ),
    ensures
        wire::be16(p, 0) == 0x0003,
        p.subrange(8, 20) == tx,
        stun_laws::fingerprinted(p),
        stun_laws::signed(p, turn::user_key(creds.username, i.realm, creds.password)),
        stun_laws::value_in(p, 0x0006) == Some(encode_utf8(creds.username)),
        stun_laws::value_in(p, 0x0014) == Some(encode_utf8(i.realm)),
        stun_laws::value_in(p, 0x0015) == Some(encode_utf8(i.nonce)),
{
    let attrs = named_attributes(creds, i);
    let key = turn::user_key(creds.username, i.realm, creds.password);
    stun_laws::law_message_is_signed(3, tx, attrs, key);
    stun_laws::law_value_is_read(3, tx, attrs, Some(key), true, 2);
    stun_laws::law_value_is_read(3, tx, attrs, Some(key), true, 3);
    stun_laws::law_value_is_read(3, tx, attrs, Some(key), true, 4);
}

proof fn lemma_bare_request(creds: CredentialsView, tx: Seq<u8>, p: Seq<u8>)
    requires
        stun_laws::codes_have_length(),
        tx.len() == 12,
        stun::message_fits(turn::allocate_attributes(creds, None), None, true),
        p == stun::message_bytes(3, tx, turn::allocate_attributes(creds, None), None, true),
    ensures
        wire::be16(p, 0) == 0x0003,
        p.subrange(8, 20) == tx,
        stun_laws::fingerprinted(p),
        stun_laws::value_in(p, 0x0008) is None,
        stun_laws::value_in(p, 0x0006) is None,
{
    let attrs = turn::allocate_attributes(creds, None);
    assert(attrs.len() == 2 && attrs[0].0 == 0x0019 && attrs[1].0 == 0x000D);
    stun_laws::law_message_layout(3, tx, attrs, None, true);
    stun_laws::law_fingerprint(3, tx, attrs, None);
    stun_laws::law_nothing_is_added(3, tx, attrs, 0x0008);
    stun_laws::law_nothing_is_added(3, tx, attrs, 0x0006);
}

/// A request for a permission names the peer, and is signed as what was allocated was.
#[verifier::rlimit(40)]
pub proof fn law_permission_is_asked_for(
    auth: AuthView,
    peer: SocketAddr,
    tx: Seq<u8>,
    p: Seq<u8>,
)
    requires
        stun_laws::codes_have_length(),
        tx.len() == 12,
        turn::written(
            StunClass::Request,
            StunMethod::CreatePermission,
            tx,
            turn::permission_attributes(auth, peer, tx),
            Some(auth.key),
            true,
        ) == Ok::<Seq<u8>, TurnError>(p),
    ensures
        wire::be16(p, 0) == 0x0008,
        p.subrange(8, 20) == tx,
        stun_laws::fingerprinted(p),
        stun_laws::signed(p, auth.key),
        stun_laws::value_in(p, 0x0006) == Some(encode_utf8(auth.username)),
        stun_laws::value_in(p, 0x0014) == Some(encode_utf8(auth.realm)),
        stun_laws::value_in(p, 0x0015) == Some(encode_utf8(auth.nonce)),
        stun_laws::value_in(p, 0x0012) matches Some(x) && stun::xor_address_parsed(x, tx) == Some(
            peer.unscoped(),
        ),
{
    let attrs = turn::permission_attributes(auth, peer, tx);
    let t = stun::message_type(StunClass::Request, StunMethod::CreatePermission);
    assert(t == 8);
    assert(attrs =~= peer_attributes(auth, peer, tx));
    lemma_peer_request(auth, peer, tx, p);
    stun::law_address_is_read_back(peer, tx);
}

/// The attributes of a request that names the user and a peer.
spec fn peer_attributes(auth: AuthView, peer: SocketAddr, tx: Seq<u8>) -> Seq<(u16, Seq<u8>)> {
    seq![
        (0x0006u16, encode_utf8(auth.username)),
        (0x0014u16, encode_utf8(auth.realm)),
        (0x0015u16, encode_utf8(auth.nonce)),
        (0x0012u16, stun::xor_address_value(peer, tx)),
    ]
}

#[verifier::rlimit(40)]
proof fn lemma_peer_request(auth: AuthView, peer: SocketAddr, tx: Seq<u8>, p: Seq<u8>)
    requires
        stun_laws::codes_have_length(),
        tx.len() == 12,
        stun::message_fits(peer_attributes(auth, peer, tx), Some(auth.key), true),
        p == stun::message_bytes(8, tx, peer_attributes(auth, peer, tx), Some(auth.key), true),
    ensures
        wire::be16(p, 0) == 0x0008,
        p.subrange(8, 20) == tx,
        stun_laws::fingerprinted(p),
        stun_laws::signed(p, auth.key),
        stun_laws::value_in(p, 0x0006) == Some(encode_utf8(auth.username)),
        stun_laws::value_in(p, 0x0014) == Some(encode_utf8(auth.realm)),
        stun_laws::value_in(p, 0x0015) == Some(encode_utf8(auth.nonce)),
        stun_laws::value_in(p, 0x0012) == Some(stun::xor_address_value(peer, tx)),
{
    let attrs = peer_attributes(auth, peer, tx);
    stun_laws::law_message_is_signed(8, tx, attrs, auth.key);
    stun_laws::law_value_is_read(8, tx, attrs, Some(auth.key), true, 0);
    stun_laws::law_value_is_read(8, tx, attrs, Some(auth.key), true, 1);
    stun_laws::law_value_is_read(8, tx, attrs, Some(auth.key), true, 2);
    stun_laws::law_value_is_read(8, tx, attrs, Some(auth.key), true, 3);
}

/// Data for a peer is sent to the server whole, with the address of the peer, as an indication
/// that needs no answer.
#[verifier::rlimit(40)]
pub proof fn law_data_is_sent_to_peer(
    auth: Option<AuthView>,
    peer: SocketAddr,
    data: Seq<u8>,
    tx: Seq<u8>,
    p: Seq<u8>,
)
    requires
        stun_laws::codes_have_length(),
        tx.len() == 12,
        turn::written(
            StunClass::Indication,
            StunMethod::Send,
            tx,
            turn::indication_attributes(auth, peer, data, tx),
            turn::indication_key(auth),
            auth is Some,
        ) == Ok::<Seq<u8>, TurnError>(p),
    ensures
        wire::be16(p, 0) == 0x0016,
        p.subrange(8, 20) == tx,
        stun_laws::value_in(p, 0x0013) == Some(data),
        stun_laws::value_in(p, 0x0012) matches Some(x) && stun::xor_address_parsed(x, tx) == Some(
            peer.unscoped(),
        ),
        auth matches Some(a) ==> stun_laws::signed(p, a.key),
{
    let attrs = turn::indication_attributes(auth, peer, data, tx);
    let key = turn::indication_key(auth);
    let t = stun::message_type(StunClass::Indication, StunMethod::Send);
    let at: int = if auth is Some {
        3
    } else {
        0
    };
    stun_laws::law_message_layout(t, tx, attrs, key, auth is Some);
    stun_laws::law_value_is_read(t, tx, attrs, key, auth is Some, at);
    stun_laws::law_value_is_read(t, tx, attrs, key, auth is Some, at + 1);
    stun::law_address_is_read_back(peer, tx);
    if let Some(a) = auth {
        stun_laws::law_integrity(t, tx, attrs, a.key, true);
    }
}

/// What the server passes on: the data of a data indication, from the peer that it names. Nothing
/// else is taken for data.
pub proof fn law_relayed_data(packet: Seq<u8>)
    ensures
        match turn::relayed(packet) {
            Some((data, peer)) => stun::stun_decoded(packet) matches Ok(d) && {
                &&& d.class == StunClass::Indication
                &&& d.method == StunMethod::Data
                &&& d.data == Some(data)
                &&& d.xor_peer_address == Some(peer)
            },
            None => stun::stun_decoded(packet) matches Ok(d) ==> {
                ||| d.class != StunClass::Indication
                ||| d.method != StunMethod::Data
                ||| d.data is None
                ||| d.xor_peer_address is None
            },
        },
{
}

/// What an answer to the request for an allocation means: the address that was allocated, a
/// challenge (the codes 401 and 438) with its realm and nonce, or a refusal with its code. An
/// answer to another request is passed over.
pub proof fn law_allocation_is_answered(tx: Seq<u8>, packet: Seq<u8>, d: DecodedView)
    requires
        stun::stun_decoded(packet) == Ok::<DecodedView, StunError>(d),
    ensures
        d.transaction_id != tx ==> turn::allocate_verdict(tx, packet) is Again,
        d.transaction_id == tx && d.method == StunMethod::Allocate ==> {
            let v = turn::allocate_verdict(tx, packet);
            &&& d.class == StunClass::SuccessResponse && d.xor_relayed_address is Some ==> v
                == Verdict::Granted(d.xor_relayed_address)
            &&& d.class == StunClass::SuccessResponse && d.xor_relayed_address is None ==> v
                == Verdict::Failed(TurnError::NoRelayedAddress)
            &&& d.class == StunClass::ErrorResponse && (d.error_code == Some(401u16)
                || d.error_code == Some(438u16)) && d.realm is Some && d.nonce is Some ==> v
                == Verdict::Challenged(NonceView { realm: d.realm->0, nonce: d.nonce->0 })
            &&& d.class == StunClass::ErrorResponse && d.error_code is Some && d.error_code->0
                != 401 && d.error_code->0 != 438 ==> v == Verdict::Failed(
                TurnError::AllocationRefused(d.error_code->0),
            )
            &&& d.class == StunClass::Request || d.class == StunClass::Indication ==> v
                == Verdict::Failed(TurnError::ResponseClass)
        },
        d.transaction_id == tx && d.method != StunMethod::Allocate ==> turn::allocate_verdict(
            tx,
            packet,
        ) == Verdict::Failed(TurnError::AllocationMethod),
{
}

/// What an answer to the request for a permission means.
pub proof fn law_permission_is_answered(tx: Seq<u8>, packet: Seq<u8>, d: DecodedView)
    requires
        stun::stun_decoded(packet) == Ok::<DecodedView, StunError>(d),
    ensures
        d.transaction_id != tx ==> turn::permission_verdict(tx, packet) is Again,
        d.transaction_id == tx && d.method == StunMethod::CreatePermission ==> {
            let v = turn::permission_verdict(tx, packet);
            &&& d.class == StunClass::SuccessResponse ==> v == Verdict::Granted(None)
            &&& d.class == StunClass::ErrorResponse && (d.error_code == Some(401u16)
                || d.error_code == Some(438u16)) && d.realm is Some && d.nonce is Some ==> v
                == Verdict::Challenged(NonceView { realm: d.realm->0, nonce: d.nonce->0 })
            &&& d.class == StunClass::ErrorResponse && d.error_code is Some && d.error_code->0
                != 401 && d.error_code->0 != 438 ==> v == Verdict::Failed(
                TurnError::PermissionRefused(d.error_code->0),
            )
        },
        d.transaction_id == tx && d.method != StunMethod::CreatePermission
            ==> turn::permission_verdict(tx, packet) == Verdict::Failed(
            TurnError::PermissionMethod,
        ),
{
}

/// Over UDP a message is a datagram; over TCP its length stands before it, in two bytes.
pub proof fn law_messages_are_framed(data: Seq<u8>)
    requires
        data.len() < 0x1_0000,
    ensures
        turn::framed(IceTransportProtocol::Udp, data) == data,
        ({
            let f = turn::framed(IceTransportProtocol::Tcp, data);
            &&& f.len() == 2 + data.len()
            &&& wire::be16(f, 0) == data.len()
            &&& f.skip(2) == data
        }),
{
    let f = turn::framed(IceTransportProtocol::Tcp, data);
    assert(f.subrange(0, 2) =~= wire::enc16(data.len() as u16));
    wire::lemma_be16_enc16(f, 0, data.len() as u16);
    assert(f.skip(2) =~= data);
}

/// A server that asks for a password has a name and a password; what is missing is told, the
/// name first.
pub proof fn law_credentials(server: IceServer)
    ensures
        turn::credentials_of(server) is Ok <==> server.credential_type
            == IceCredentialType::Password && server.username is Some && server.credential is Some,
        turn::credentials_of(server) matches Ok(c) ==> server.username->0@ == c.username
            && server.credential->0@ == c.password,
        server.credential_type != IceCredentialType::Password ==> turn::credentials_of(server)
            == Err::<CredentialsView, TurnError>(TurnError::NotPassword),
        server.credential_type == IceCredentialType::Password && server.username is None
            ==> turn::credentials_of(server) == Err::<CredentialsView, TurnError>(
            TurnError::MissingUsername,
        ),
        server.credential_type == IceCredentialType::Password && server.username is Some
            && server.credential is None ==> turn::credentials_of(server) == Err::<
            CredentialsView,
            TurnError,
        >(TurnError::MissingCredential),
{
}

/// A challenge without a realm, or else without a nonce, fails for that; a refusal without a code
/// counts as code 0.
pub proof fn law_incomplete_answers(tx: Seq<u8>, packet: Seq<u8>, d: DecodedView)
    requires
        stun::stun_decoded(packet) == Ok::<DecodedView, StunError>(d),
        d.transaction_id == tx,
        d.class == StunClass::ErrorResponse,
        d.method == StunMethod::Allocate || d.method == StunMethod::CreatePermission,
    ensures
        ({
            let v = if d.method == StunMethod::Allocate {
                turn::allocate_verdict(tx, packet)
            } else {
                turn::permission_verdict(tx, packet)
            };
            let challenged = d.error_code == Some(401u16) || d.error_code == Some(438u16);
            &&& challenged && d.realm is None ==> v == Verdict::Failed(TurnError::MissingRealm)
            &&& challenged && d.realm is Some && d.nonce is None ==> v == Verdict::Failed(
                TurnError::MissingNonce,
            )
            &&& d.error_code is None && d.method == StunMethod::Allocate ==> v == Verdict::Failed(
                TurnError::AllocationRefused(0),
            )
            &&& d.error_code is None && d.method == StunMethod::CreatePermission ==> v
                == Verdict::Failed(TurnError::PermissionRefused(0))
        }),
{
}

} // verus!
