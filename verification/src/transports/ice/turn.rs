//! The client of a relay server (RFC 8656): allocation, permissions and relayed data.
use vstd::prelude::*;
use vstd::string::*;
use vstd::utf8::*;

use crate::config::{IceCredentialType, IceServer};
use crate::crypto;
use crate::text;
use crate::transports::ice::address::SocketAddr;
use crate::transports::ice::stun;
use crate::transports::ice::stun::{
    DecodedView, StunAttribute, StunClass, StunDecoded, StunError, StunMessage, StunMethod,
};
use crate::transports::ice::uri::IceTransportProtocol;
use crate::wire;

verus! {

/// How long an allocation is asked for, in seconds.
pub const DEFAULT_TURN_LIFETIME: u32 = 600;

/// The number of the protocol UDP.
pub const PROTOCOL_UDP: u8 = 17;

/// How many requests of one kind are made.
pub const MAX_ATTEMPTS: u8 = 3;

/// Why a relay cannot be used.
#[derive(Debug, Clone, Copy, PartialEq, Eq, Structural)]
pub enum TurnError {
    /// The credential of the server is no password.
    NotPassword,
    MissingUsername,
    MissingCredential,
    AllocationRetries,
    AllocationMethod,
    NoRelayedAddress,
    MissingRealm,
    MissingNonce,
    /// The server refused the allocation with this code.
    AllocationRefused(u16),
    ResponseClass,
    /// Nothing was allocated with a password.
    MissingAuth,
    /// Nothing is there to sign a single request with.
    NoAuth,
    PermissionMethod,
    /// The server refused the permission with this code.
    PermissionRefused(u16),
    PermissionRetries,
    /// A message could not be written or read.
    Stun(StunError),
}

impl TurnError {
    /// The text of the failure.
    pub open spec fn text(&self) -> Seq<char> {
        match self {
            TurnError::NotPassword => "only password credentials supported for TURN"@,
            TurnError::MissingUsername => "TURN server missing username"@,
            TurnError::MissingCredential => "TURN server missing credential"@,
            TurnError::AllocationRetries => "TURN allocation failed after retries"@,
            TurnError::AllocationMethod => "unexpected STUN method in allocate response"@,
            TurnError::NoRelayedAddress => "TURN success without relayed address"@,
            TurnError::MissingRealm => "TURN error missing realm"@,
            TurnError::MissingNonce => "TURN error missing nonce"@,
            TurnError::AllocationRefused(code) => "TURN allocate error "@ + text::decimal(
                *code as nat,
            ),
            TurnError::ResponseClass => "unexpected TURN response class"@,
            TurnError::MissingAuth => "TURN allocation missing auth context"@,
            TurnError::NoAuth => "no auth"@,
            TurnError::PermissionMethod => "unexpected STUN method in create-permission response"@,
            TurnError::PermissionRefused(code) => "TURN create-permission error "@ + text::decimal(
                *code as nat,
            ),
            TurnError::PermissionRetries => "TURN create-permission failed after retries"@,
            TurnError::Stun(e) => e.text(),
        }
    }

    /// The text of the failure.
    pub fn message(&self) -> (r: String)
        ensures
            r@ == self.text(),
    {
        let s: &str = match self {
            TurnError::NotPassword => "only password credentials supported for TURN",
            TurnError::MissingUsername => "TURN server missing username",
            TurnError::MissingCredential => "TURN server missing credential",
            TurnError::AllocationRetries => "TURN allocation failed after retries",
            TurnError::AllocationMethod => "unexpected STUN method in allocate response",
            TurnError::NoRelayedAddress => "TURN success without relayed address",
            TurnError::MissingRealm => "TURN error missing realm",
            TurnError::MissingNonce => "TURN error missing nonce",
            TurnError::AllocationRefused(code) => {
                let mut out = String::from_str("TURN allocate error ");
                text::push_decimal(&mut out, *code as u64);
                return out;
            },
            TurnError::ResponseClass => "unexpected TURN response class",
            TurnError::MissingAuth => "TURN allocation missing auth context",
            TurnError::NoAuth => "no auth",
            TurnError::PermissionMethod => "unexpected STUN method in create-permission response",
            TurnError::PermissionRefused(code) => {
                let mut out = String::from_str("TURN create-permission error ");
                text::push_decimal(&mut out, *code as u64);
                return out;
            },
            TurnError::PermissionRetries => "TURN create-permission failed after retries",
            TurnError::Stun(e) => {
                return e.message();
            },
        };
        String::from_str(s)
    }
}

/// A user name and a password.
#[derive(Debug, Clone, PartialEq, Eq)]
pub struct TurnCredentials {
    pub username: String,
    pub password: String,
}

/// A user name and a password.
#[verifier::ext_equal]
pub struct CredentialsView {
    pub username: Seq<char>,
    pub password: Seq<char>,
}

impl View for TurnCredentials {
    type V = CredentialsView;

    open spec fn view(&self) -> CredentialsView {
        CredentialsView { username: self.username@, password: self.password@ }
    }
}

/// What a server is reached with.
pub open spec fn credentials_of(server: IceServer) -> Result<CredentialsView, TurnError> {
    if server.credential_type != IceCredentialType::Password {
        Err(TurnError::NotPassword)
    } else {
        match (server.username, server.credential) {
            (Some(username), Some(password)) => Ok(
                CredentialsView { username: username@, password: password@ },
            ),
            (None, _) => Err(TurnError::MissingUsername),
            (Some(_), None) => Err(TurnError::MissingCredential),
        }
    }
}

impl TurnCredentials {
    /// What a server is reached with.
    pub fn from_server(server: &IceServer) -> (r: Result<Self, TurnError>)
        ensures
            match r {
                Ok(c) => credentials_of(*server) == Ok::<CredentialsView, TurnError>(c@),
                Err(e) => credentials_of(*server) == Err::<CredentialsView, TurnError>(e),
            },
    {
        if server.credential_type != IceCredentialType::Password {
            return Err(TurnError::NotPassword);
        }
        let username = match &server.username {
            Some(s) => s.clone(),
            None => {
                return Err(TurnError::MissingUsername);
            },
        };
        let password = match &server.credential {
            Some(s) => s.clone(),
            None => {
                return Err(TurnError::MissingCredential);
            },
        };
        Ok(TurnCredentials { username, password })
    }
}

/// The text that the key of a user is made from.
pub open spec fn key_text(username: Seq<char>, realm: Seq<char>, password: Seq<char>) -> Seq<char> {
    username + seq![':'] + realm + seq![':'] + password
}

/// The key of a user in a realm.
pub open spec fn user_key(username: Seq<char>, realm: Seq<char>, password: Seq<char>) -> Seq<u8> {
    crypto::md5_hash(encode_utf8(key_text(username, realm, password)))
}

/// Computes the key of a user in a realm.
pub fn long_term_key(username: &str, realm: &str, password: &str) -> (r: Vec<u8>)
    ensures
        r@ == user_key(username@, realm@, password@),
        r@.len() == 16,
{
    let mut input = String::from_str(username);
    input.push(':');
    input.append(realm);
    input.push(':');
    input.append(password);
    assert(input@ =~= key_text(username@, realm@, password@));
    crypto::md5_digest(input.as_str().as_bytes())
}

/// What a server asked to be named in the next request.
#[derive(Debug, Clone, PartialEq, Eq)]
pub struct TurnNonce {
    pub realm: String,
    pub nonce: String,
}

/// What a server asked to be named in the next request.
#[verifier::ext_equal]
pub struct NonceView {
    pub realm: Seq<char>,
    pub nonce: Seq<char>,
}

impl View for TurnNonce {
    type V = NonceView;

    open spec fn view(&self) -> NonceView {
        NonceView { realm: self.realm@, nonce: self.nonce@ }
    }
}

/// The view of what a server asked for, if it asked.
pub open spec fn nonce_view(n: Option<TurnNonce>) -> Option<NonceView> {
    match n {
        Some(n) => Some(n@),
        None => None,
    }
}

/// What requests of an allocation are signed with.
#[derive(Debug, Clone, PartialEq, Eq)]
pub struct TurnAuthState {
    pub username: String,
    pub password: String,
    pub realm: String,
    pub nonce: String,
    pub key: Vec<u8>,
}

/// What requests of an allocation are signed with.
#[verifier::ext_equal]
pub struct AuthView {
    pub username: Seq<char>,
    pub password: Seq<char>,
    pub realm: Seq<char>,
    pub nonce: Seq<char>,
    pub key: Seq<u8>,
}

impl View for TurnAuthState {
    type V = AuthView;

    open spec fn view(&self) -> AuthView {
        AuthView {
            username: self.username@,
            password: self.password@,
            realm: self.realm@,
            nonce: self.nonce@,
            key: self.key@,
        }
    }
}

/// The view of what requests are signed with, if they are.
pub open spec fn auth_view(a: Option<TurnAuthState>) -> Option<AuthView> {
    match a {
        Some(a) => Some(a@),
        None => None,
    }
}

/// What requests are signed with after the server named a realm and a nonce.
pub open spec fn auth_of(creds: CredentialsView, info: NonceView) -> AuthView {
    AuthView {
        username: creds.username,
        password: creds.password,
        realm: info.realm,
        nonce: info.nonce,
        key: user_key(creds.username, info.realm, creds.password),
    }
}

impl TurnAuthState {
    /// What requests are signed with, from its parts.
    pub fn with_key(
        username: String,
        password: String,
        realm: String,
        nonce: String,
        key: Vec<u8>,
    ) -> (r: Self)
        ensures
            r == (TurnAuthState { username, password, realm, nonce, key }),
    {
        TurnAuthState { username, password, realm, nonce, key }
    }

    /// Takes a new realm and nonce, and the key that goes with them.
    pub fn update_nonce(&mut self, realm: String, nonce: String)
        ensures
            final(self)@ == auth_of(
                CredentialsView { username: old(self).username@, password: old(self).password@ },
                NonceView { realm: realm@, nonce: nonce@ },
            ),
    {
        self.realm = realm;
        self.nonce = nonce;
        self.key = long_term_key(
            self.username.as_str(),
            self.realm.as_str(),
            self.password.as_str(),
        );
    }
}

/// A relayed address.
#[derive(Debug, Clone, Copy, PartialEq, Eq, Structural)]
pub struct TurnAllocation {
    pub relayed_address: SocketAddr,
    pub transport: IceTransportProtocol,
}

/// The attributes that name the sender of a request.
pub open spec fn auth_attributes(
    username: Seq<char>,
    realm: Seq<char>,
    nonce: Seq<char>,
) -> Seq<(u16, Seq<u8>)> {
    seq![
        (stun::ATTR_USERNAME, encode_utf8(username)),
        (stun::ATTR_REALM, encode_utf8(realm)),
        (stun::ATTR_NONCE, encode_utf8(nonce)),
    ]
}

/// The attributes of a request for an allocation.
pub open spec fn allocate_attributes(creds: CredentialsView, info: Option<NonceView>) -> Seq<
    (u16, Seq<u8>),
> {
    seq![
        (stun::ATTR_REQUESTED_TRANSPORT, seq![PROTOCOL_UDP, 0, 0, 0]),
        (stun::ATTR_LIFETIME, wire::enc32(DEFAULT_TURN_LIFETIME)),
    ] + match info {
        Some(i) => auth_attributes(creds.username, i.realm, i.nonce),
        None => seq![],
    }
}

/// The key of a request for an allocation.
pub open spec fn allocate_key(creds: CredentialsView, info: Option<NonceView>) -> Option<Seq<u8>> {
    match info {
        Some(i) => Some(user_key(creds.username, i.realm, creds.password)),
        None => None,
    }
}

/// What a response to a request leads to.
#[verifier::ext_equal]
pub enum Verdict {
    /// Ask again.
    Again,
    /// Ask again, naming this realm and nonce.
    Challenged(NonceView),
    /// The request succeeded; an allocation has an address.
    Granted(Option<SocketAddr>),
    Failed(TurnError),
}

/// What the text of a challenge leads to.
pub open spec fn challenge(d: DecodedView) -> Verdict {
    match (d.realm, d.nonce) {
        (None, _) => Verdict::Failed(TurnError::MissingRealm),
        (Some(_), None) => Verdict::Failed(TurnError::MissingNonce),
        (Some(realm), Some(nonce)) => Verdict::Challenged(NonceView { realm, nonce }),
    }
}

/// Whether a response asks for a realm and a nonce to be named.
pub open spec fn is_challenge(d: DecodedView) -> bool {
    d.error_code == Some(401u16) || d.error_code == Some(438u16)
}

/// The code of a refusal, or 0 where it has none.
pub open spec fn code_of(d: DecodedView) -> u16 {
    match d.error_code {
        Some(code) => code,
        None => 0,
    }
}

/// What a packet leads to that came after the request for an allocation `tx`.
pub open spec fn allocate_verdict(tx: Seq<u8>, packet: Seq<u8>) -> Verdict {
    match stun::stun_decoded(packet) {
        Err(e) => Verdict::Failed(TurnError::Stun(e)),
        Ok(d) => if d.transaction_id != tx {
            Verdict::Again
        } else if d.method != StunMethod::Allocate {
            Verdict::Failed(TurnError::AllocationMethod)
        } else {
            match d.class {
                StunClass::SuccessResponse => match d.xor_relayed_address {
                    Some(a) => Verdict::Granted(Some(a)),
                    None => Verdict::Failed(TurnError::NoRelayedAddress),
                },
                StunClass::ErrorResponse => if is_challenge(d) {
                    challenge(d)
                } else {
                    Verdict::Failed(TurnError::AllocationRefused(code_of(d)))
                },
                _ => Verdict::Failed(TurnError::ResponseClass),
            }
        },
    }
}

/// What a packet leads to that came after the request for a permission `tx`.
pub open spec fn permission_verdict(tx: Seq<u8>, packet: Seq<u8>) -> Verdict {
    match stun::stun_decoded(packet) {
        Err(e) => Verdict::Failed(TurnError::Stun(e)),
        Ok(d) => if d.transaction_id != tx {
            Verdict::Again
        } else if d.method != StunMethod::CreatePermission {
            Verdict::Failed(TurnError::PermissionMethod)
        } else {
            match d.class {
                StunClass::SuccessResponse => Verdict::Granted(None),
                StunClass::ErrorResponse => if is_challenge(d) {
                    challenge(d)
                } else {
                    Verdict::Failed(TurnError::PermissionRefused(code_of(d)))
                },
                _ => Verdict::Failed(TurnError::ResponseClass),
            }
        },
    }
}

/// The run of an allocation: whom it is for and what the server asked for so far.
#[derive(Debug, Clone, PartialEq, Eq)]
pub struct TurnAllocate {
    pub creds: TurnCredentials,
    pub info: Option<TurnNonce>,
    pub attempts: u8,
    pub transaction_id: [u8; 12],
}

/// The run of an allocation.
#[verifier::ext_equal]
pub struct AllocateView {
    pub creds: CredentialsView,
    pub info: Option<NonceView>,
    pub attempts: nat,
    pub tx: Seq<u8>,
}

impl View for TurnAllocate {
    type V = AllocateView;

    open spec fn view(&self) -> AllocateView {
        AllocateView {
            creds: self.creds@,
            info: nonce_view(self.info),
            attempts: self.attempts as nat,
            tx: self.transaction_id@,
        }
    }
}

/// The run of a permission.
#[derive(Debug, Clone, Copy, PartialEq, Eq)]
pub struct TurnPermission {
    pub peer: SocketAddr,
    pub attempts: u8,
    pub transaction_id: [u8; 12],
}

/// What to do after a response.
#[derive(Debug, Clone, Copy, PartialEq, Eq)]
pub enum TurnStep<T> {
    Again,
    Done(T),
    Failed(TurnError),
}

/// What the attempt to write a request gives.
pub open spec fn written(
    class: StunClass,
    method: StunMethod,
    tx: Seq<u8>,
    attrs: Seq<(u16, Seq<u8>)>,
    key: Option<Seq<u8>>,
    fingerprint: bool,
) -> Result<Seq<u8>, TurnError> {
    if stun::message_fits(attrs, key, fingerprint) {
        Ok(
            stun::message_bytes(stun::message_type(class, method), tx, attrs, key, fingerprint),
        )
    } else {
        Err(TurnError::Stun(StunError::TooLong))
    }
}

/// The bytes of a result that holds some.
pub open spec fn result_view(r: Result<Vec<u8>, TurnError>) -> Result<Seq<u8>, TurnError> {
    match r {
        Ok(v) => Ok(v@),
        Err(e) => Err(e),
    }
}

fn write_message(msg: &StunMessage, key: Option<&[u8]>, fingerprint: bool) -> (r: Result<
    Vec<u8>,
    TurnError,
>)
    ensures
        result_view(r) == written(
            msg.class,
            msg.method,
            msg.transaction_id@,
            stun::raw_attributes(msg.attributes@, msg.transaction_id@),
            stun::key_view(key),
            fingerprint,
        ),
        r matches Ok(out) ==> stun::stun_decoded(out@) == Ok::<DecodedView, StunError>(
            stun::learned(
                msg.class,
                msg.method,
                msg.transaction_id@,
                msg.sent_attributes(stun::key_view(key), fingerprint),
            ),
        ),
{
    match msg.encode(key, fingerprint) {
        Ok(out) => Ok(out),
        Err(e) => Err(TurnError::Stun(e)),
    }
}

/// Appends the attributes that name the sender of a request.
fn push_auth(
    attributes: &mut Vec<StunAttribute>,
    username: &String,
    realm: &String,
    nonce: &String,
    Ghost(tx): Ghost<Seq<u8>>,
)
    ensures
        stun::raw_attributes(final(attributes)@, tx) == stun::raw_attributes(old(attributes)@, tx)
            + auth_attributes(username@, realm@, nonce@),
{
    attributes.push(StunAttribute::Username(username.clone()));
    attributes.push(StunAttribute::Realm(realm.clone()));
    attributes.push(StunAttribute::Nonce(nonce.clone()));
    assert(stun::raw_attributes(attributes@, tx) =~= stun::raw_attributes(old(attributes)@, tx)
        + auth_attributes(username@, realm@, nonce@));
}

impl TurnAllocate {
    /// The next request for an allocation, in the transaction `transaction_id`. No more than
    /// three are made.
    pub fn request(&mut self, transaction_id: [u8; 12]) -> (r: Result<Vec<u8>, TurnError>)
        ensures
            result_view(r) == if old(self).attempts >= MAX_ATTEMPTS {
                Err::<Seq<u8>, TurnError>(TurnError::AllocationRetries)
            } else {
                written(
                    StunClass::Request,
                    StunMethod::Allocate,
                    transaction_id@,
                    allocate_attributes(old(self)@.creds, old(self)@.info),
                    allocate_key(old(self)@.creds, old(self)@.info),
                    true,
                )
            },
            final(self)@ == if old(self).attempts >= MAX_ATTEMPTS {
                old(self)@
            } else {
                AllocateView {
                    attempts: old(self)@.attempts + 1,
                    tx: transaction_id@,
                    ..old(self)@
                }
            },
    {
        if self.attempts >= MAX_ATTEMPTS {
            return Err(TurnError::AllocationRetries);
        }
        self.attempts = self.attempts + 1;
        self.transaction_id = transaction_id;
        let mut attributes: Vec<StunAttribute> = Vec::new();
        attributes.push(StunAttribute::RequestedTransport(PROTOCOL_UDP));
        attributes.push(StunAttribute::Lifetime(DEFAULT_TURN_LIFETIME));
        let ghost first = stun::raw_attributes(attributes@, transaction_id@);
        assert(first =~= allocate_attributes(self@.creds, None));
        match &self.info {
            Some(info) => {
                let key = long_term_key(
                    self.creds.username.as_str(),
                    info.realm.as_str(),
                    self.creds.password.as_str(),
                );
                push_auth(
                    &mut attributes,
                    &self.creds.username,
                    &info.realm,
                    &info.nonce,
                    Ghost(transaction_id@),
                );
                let msg = StunMessage::allocate_request(transaction_id, attributes);
                assert(stun::raw_attributes(msg.attributes@, transaction_id@)
                    =~= allocate_attributes(self@.creds, self@.info));
                write_message(&msg, Some(key.as_slice()), true)
            },
            None => {
                let msg = StunMessage::allocate_request(transaction_id, attributes);
                write_message(&msg, None, true)
            },
        }
    }
}

/// The attributes of a request for a permission.
pub open spec fn permission_attributes(auth: AuthView, peer: SocketAddr, tx: Seq<u8>) -> Seq<
    (u16, Seq<u8>),
> {
    auth_attributes(auth.username, auth.realm, auth.nonce) + seq![
        (stun::ATTR_XOR_PEER_ADDRESS, stun::xor_address_value(peer, tx)),
    ]
}

/// The attributes of data for a peer.
pub open spec fn indication_attributes(
    auth: Option<AuthView>,
    peer: SocketAddr,
    data: Seq<u8>,
    tx: Seq<u8>,
) -> Seq<(u16, Seq<u8>)> {
    (match auth {
        Some(a) => auth_attributes(a.username, a.realm, a.nonce),
        None => seq![],
    }) + seq![
        (stun::ATTR_XOR_PEER_ADDRESS, stun::xor_address_value(peer, tx)),
        (stun::ATTR_DATA, data),
    ]
}

/// What is read of a request for a permission.
proof fn lemma_permission_learned(auth: AuthView, peer: SocketAddr, tx: Seq<u8>)
    requires
        tx.len() == 12,
    ensures
        stun::learned(
            StunClass::Request,
            StunMethod::CreatePermission,
            tx,
            stun::sent(
                stun::message_type(StunClass::Request, StunMethod::CreatePermission),
                tx,
                permission_attributes(auth, peer, tx),
                Some(auth.key),
                true,
            ),
        ).xor_peer_address == Some(peer.unscoped()),
{
    let sent = stun::sent(
        stun::message_type(StunClass::Request, StunMethod::CreatePermission),
        tx,
        permission_attributes(auth, peer, tx),
        Some(auth.key),
        true,
    );
    stun::lemma_first_value(sent, stun::ATTR_XOR_PEER_ADDRESS, 3);
    stun::law_address_is_read_back(peer, tx);
}

/// The key that data for a peer is signed with.
pub open spec fn indication_key(auth: Option<AuthView>) -> Option<Seq<u8>> {
    match auth {
        Some(a) => Some(a.key),
        None => None,
    }
}

/// What is read of data for a peer.
proof fn lemma_indication_learned(
    auth: Option<AuthView>,
    peer: SocketAddr,
    data: Seq<u8>,
    tx: Seq<u8>,
)
    requires
        tx.len() == 12,
    ensures
        ({
            let d = stun::learned(
                StunClass::Indication,
                StunMethod::Send,
                tx,
                stun::sent(
                    stun::message_type(StunClass::Indication, StunMethod::Send),
                    tx,
                    indication_attributes(auth, peer, data, tx),
                    indication_key(auth),
                    auth is Some,
                ),
            );
            &&& d.xor_peer_address == Some(peer.unscoped())
            &&& d.data == Some(data)
        }),
{
    let sent = stun::sent(
        stun::message_type(StunClass::Indication, StunMethod::Send),
        tx,
        indication_attributes(auth, peer, data, tx),
        indication_key(auth),
        auth is Some,
    );
    let at = if auth is Some {
        3int
    } else {
        0
    };
    stun::lemma_first_value(sent, stun::ATTR_XOR_PEER_ADDRESS, at);
    stun::lemma_first_value(sent, stun::ATTR_DATA, at + 1);
    stun::law_address_is_read_back(peer, tx);
}

/// What is sent to the server for a message: over TCP the length comes first.
pub open spec fn framed(protocol: IceTransportProtocol, data: Seq<u8>) -> Seq<u8> {
    match protocol {
        IceTransportProtocol::Udp => data,
        IceTransportProtocol::Tcp => wire::enc16((data.len() % 0x1_0000) as u16) + data,
    }
}

/// The client of one relay server.
#[derive(Debug, Clone, PartialEq, Eq)]
pub struct TurnClient {
    pub protocol: IceTransportProtocol,
    pub auth: Option<TurnAuthState>,
}

impl TurnClient {
    /// A client that has no allocation.
    pub fn new(protocol: IceTransportProtocol) -> (r: Self)
        ensures
            r.protocol == protocol,
            r.auth is None,
    {
        TurnClient { protocol, auth: None }
    }

    /// Starts an allocation. What was allocated before is no longer used.
    pub fn allocate(&mut self, creds: TurnCredentials) -> (r: TurnAllocate)
        ensures
            final(self).protocol == old(self).protocol,
            final(self).auth is None,
            r.creds == creds,
            r.info is None,
            r.attempts == 0,
    {
        self.auth = None;
        TurnAllocate {
            creds,
            info: None,
            attempts: 0,
            transaction_id: [0u8, 0, 0, 0, 0, 0, 0, 0, 0, 0, 0, 0],
        }
    }

    /// Takes a packet that came after a request for an allocation.
    pub fn allocate_response(&mut self, run: &mut TurnAllocate, packet: &[u8]) -> (r: TurnStep<
        TurnAllocation,
    >)
        ensures
            final(self).protocol == old(self).protocol,
            match allocate_verdict(old(run)@.tx, packet@) {
                Verdict::Again => {
                    &&& r is Again
                    &&& final(run)@ == old(run)@
                    &&& final(self).auth == old(self).auth
                },
                Verdict::Challenged(info) => {
                    &&& r is Again
                    &&& final(run)@ == (AllocateView { info: Some(info), ..old(run)@ })
                    &&& final(self).auth == old(self).auth
                },
                Verdict::Granted(address) => {
                    &&& address matches Some(a) && r == TurnStep::Done(
                        TurnAllocation { relayed_address: a, transport: old(self).protocol },
                    )
                    &&& final(run)@ == old(run)@
                    &&& match old(run)@.info {
                        Some(info) => auth_view(final(self).auth) == Some(
                            auth_of(old(run)@.creds, info),
                        ),
                        None => final(self).auth == old(self).auth,
                    }
                },
                Verdict::Failed(e) => {
                    &&& r == TurnStep::<TurnAllocation>::Failed(e)
                    &&& final(run)@ == old(run)@
                    &&& final(self).auth == old(self).auth
                },
            },
    {
        let parsed = match StunMessage::decode(packet) {
            Ok(parsed) => parsed,
            Err(e) => {
                return TurnStep::Failed(TurnError::Stun(e));
            },
        };
        if !wire::bytes_eq(&parsed.transaction_id, &run.transaction_id) {
            return TurnStep::Again;
        }
        if parsed.method != StunMethod::Allocate {
            return TurnStep::Failed(TurnError::AllocationMethod);
        }
        match parsed.class {
            StunClass::SuccessResponse => match parsed.xor_relayed_address {
                Some(relayed_address) => {
                    if let Some(info) = &run.info {
                        let key = long_term_key(
                            run.creds.username.as_str(),
                            info.realm.as_str(),
                            run.creds.password.as_str(),
                        );
                        self.auth = Some(
                            TurnAuthState::with_key(
                                run.creds.username.clone(),
                                run.creds.password.clone(),
                                info.realm.clone(),
                                info.nonce.clone(),
                                key,
                            ),
                        );
                    }
                    TurnStep::Done(TurnAllocation { relayed_address, transport: self.protocol })
                },
                None => TurnStep::Failed(TurnError::NoRelayedAddress),
            },
            StunClass::ErrorResponse => {
                if challenged(&parsed) {
                    match challenge_of(parsed) {
                        Ok(info) => {
                            run.info = Some(info);
                            TurnStep::Again
                        },
                        Err(e) => TurnStep::Failed(e),
                    }
                } else {
                    TurnStep::Failed(TurnError::AllocationRefused(refusal(&parsed)))
                }
            },
            _ => TurnStep::Failed(TurnError::ResponseClass),
        }
    }

    /// The next request for a permission, in the transaction `transaction_id`. No more than three
    /// are made.
    pub fn permission_request(&self, run: &mut TurnPermission, transaction_id: [u8; 12]) -> (r:
        Result<Vec<u8>, TurnError>)
        ensures
            result_view(r) == if old(run).attempts >= MAX_ATTEMPTS {
                Err::<Seq<u8>, TurnError>(TurnError::PermissionRetries)
            } else {
                match auth_view(self.auth) {
                    None => Err(TurnError::MissingAuth),
                    Some(auth) => written(
                        StunClass::Request,
                        StunMethod::CreatePermission,
                        transaction_id@,
                        permission_attributes(auth, old(run).peer, transaction_id@),
                        Some(auth.key),
                        true,
                    ),
                }
            },
            final(run).peer == old(run).peer,
            final(run).attempts == if old(run).attempts >= MAX_ATTEMPTS {
                old(run).attempts as int
            } else {
                old(run).attempts + 1
            },
            final(run).transaction_id == if old(run).attempts >= MAX_ATTEMPTS {
                old(run).transaction_id
            } else {
                transaction_id
            },
    {
        if run.attempts >= MAX_ATTEMPTS {
            return Err(TurnError::PermissionRetries);
        }
        run.attempts = run.attempts + 1;
        run.transaction_id = transaction_id;
        if self.auth.is_none() {
            return Err(TurnError::MissingAuth);
        }
        self.create_permission_packet(run.peer, transaction_id)
    }

    /// Takes a packet that came after a request for a permission.
    pub fn permission_response(&mut self, run: &TurnPermission, packet: &[u8]) -> (r: TurnStep<()>)
        ensures
            final(self).protocol == old(self).protocol,
            match permission_verdict(run.transaction_id@, packet@) {
                Verdict::Again => r is Again && final(self).auth == old(self).auth,
                Verdict::Challenged(info) => r is Again && auth_view(final(self).auth) == (
                match auth_view(old(self).auth) {
                    Some(a) => Some(
                        auth_of(
                            CredentialsView { username: a.username, password: a.password },
                            info,
                        ),
                    ),
                    None => None,
                }),
                Verdict::Granted(_) => r == TurnStep::Done(()) && final(self).auth == old(
                    self).auth,
                Verdict::Failed(e) => r == TurnStep::<()>::Failed(e) && final(self).auth == old(
                    self).auth,
            },
    {
        let parsed = match StunMessage::decode(packet) {
            Ok(parsed) => parsed,
            Err(e) => {
                return TurnStep::Failed(TurnError::Stun(e));
            },
        };
        if !wire::bytes_eq(&parsed.transaction_id, &run.transaction_id) {
            return TurnStep::Again;
        }
        if parsed.method != StunMethod::CreatePermission {
            return TurnStep::Failed(TurnError::PermissionMethod);
        }
        match parsed.class {
            StunClass::SuccessResponse => TurnStep::Done(()),
            StunClass::ErrorResponse => {
                if challenged(&parsed) {
                    match challenge_of(parsed) {
                        Ok(info) => {
                            let mut held: Option<TurnAuthState> = None;
                            core::mem::swap(&mut held, &mut self.auth);
                            if let Some(mut state) = held {
                                state.update_nonce(info.realm, info.nonce);
                                self.auth = Some(state);
                            }
                            TurnStep::Again
                        },
                        Err(e) => TurnStep::Failed(e),
                    }
                } else {
                    TurnStep::Failed(TurnError::PermissionRefused(refusal(&parsed)))
                }
            },
            _ => TurnStep::Failed(TurnError::ResponseClass),
        }
    }

    /// A request for a permission to exchange data with `peer`. Who reads it learns the peer.
    pub fn create_permission_packet(&self, peer: SocketAddr, transaction_id: [u8; 12]) -> (r:
        Result<Vec<u8>, TurnError>)
        ensures
            result_view(r) == match auth_view(self.auth) {
                None => Err::<Seq<u8>, TurnError>(TurnError::NoAuth),
                Some(auth) => written(
                    StunClass::Request,
                    StunMethod::CreatePermission,
                    transaction_id@,
                    permission_attributes(auth, peer, transaction_id@),
                    Some(auth.key),
                    true,
                ),
            },
            r matches Ok(out) ==> (stun::stun_decoded(out@) matches Ok(d) && {
                &&& d.class == StunClass::Request
                &&& d.method == StunMethod::CreatePermission
                &&& d.transaction_id == transaction_id@
                &&& d.xor_peer_address == Some(peer.unscoped())
            }),
    {
        match &self.auth {
            None => Err(TurnError::NoAuth),
            Some(auth) => {
                let ghost tx = transaction_id@;
                let mut attributes: Vec<StunAttribute> = Vec::new();
                push_auth(&mut attributes, &auth.username, &auth.realm, &auth.nonce, Ghost(tx));
                attributes.push(StunAttribute::XorPeerAddress(peer));
                let msg = StunMessage {
                    class: StunClass::Request,
                    method: StunMethod::CreatePermission,
                    transaction_id,
                    attributes,
                };
                assert(stun::raw_attributes(msg.attributes@, tx) =~= permission_attributes(
                    auth@,
                    peer,
                    tx,
                ));
                proof {
                    lemma_permission_learned(auth@, peer, tx);
                }
                write_message(&msg, Some(auth.key.as_slice()), true)
            },
        }
    }

    /// Data for `peer`, to be sent to the server. Signed where the allocation was. Who reads it
    /// learns the peer and the data.
    pub fn send_indication(&self, peer: SocketAddr, data: &[u8], transaction_id: [u8; 12]) -> (r:
        Result<Vec<u8>, TurnError>)
        ensures
            result_view(r) == written(
                StunClass::Indication,
                StunMethod::Send,
                transaction_id@,
                indication_attributes(auth_view(self.auth), peer, data@, transaction_id@),
                indication_key(auth_view(self.auth)),
                self.auth is Some,
            ),
            r matches Ok(out) ==> (stun::stun_decoded(out@) matches Ok(d) && {
                &&& d.class == StunClass::Indication
                &&& d.method == StunMethod::Send
                &&& d.data == Some(data@)
                &&& d.xor_peer_address == Some(peer.unscoped())
            }),
    {
        let ghost tx = transaction_id@;
        let mut attributes: Vec<StunAttribute> = Vec::new();
        if let Some(auth) = &self.auth {
            push_auth(&mut attributes, &auth.username, &auth.realm, &auth.nonce, Ghost(tx));
        }
        attributes.push(StunAttribute::XorPeerAddress(peer));
        let payload = wire::copy_range(data, 0, data.len());
        assert(payload@ =~= data@);
        attributes.push(StunAttribute::Data(payload));
        let msg = StunMessage {
            class: StunClass::Indication,
            method: StunMethod::Send,
            transaction_id,
            attributes,
        };
        assert(stun::raw_attributes(msg.attributes@, tx) =~= indication_attributes(
            auth_view(self.auth),
            peer,
            data@,
            tx,
        ));
        proof {
            lemma_indication_learned(auth_view(self.auth), peer, data@, tx);
        }
        match &self.auth {
            Some(auth) => write_message(&msg, Some(auth.key.as_slice()), true),
            None => write_message(&msg, None, false),
        }
    }

    /// What is sent to the server for a message.
    pub fn frame(&self, data: &[u8]) -> (r: Vec<u8>)
        ensures
            r@ == framed(self.protocol, data@),
    {
        let mut out: Vec<u8> = Vec::new();
        match self.protocol {
            IceTransportProtocol::Udp => {},
            IceTransportProtocol::Tcp => {
                wire::put_u16(&mut out, (data.len() % 0x1_0000) as u16);
            },
        }
        wire::put_bytes(&mut out, data);
        assert(out@ =~= framed(self.protocol, data@));
        out
    }
}

fn challenged(d: &StunDecoded) -> (r: bool)
    ensures
        r == is_challenge(d@),
{
    match d.error_code {
        Some(code) => code == 401 || code == 438,
        None => false,
    }
}

fn refusal(d: &StunDecoded) -> (r: u16)
    ensures
        r == code_of(d@),
{
    match d.error_code {
        Some(code) => code,
        None => 0,
    }
}

fn challenge_of(d: StunDecoded) -> (r: Result<TurnNonce, TurnError>)
    ensures
        match r {
            Ok(info) => challenge(d@) == Verdict::Challenged(info@),
            Err(e) => challenge(d@) == Verdict::Failed(e),
        },
{
    let realm = match d.realm {
        Some(realm) => realm,
        None => {
            return Err(TurnError::MissingRealm);
        },
    };
    let nonce = match d.nonce {
        Some(nonce) => nonce,
        None => {
            return Err(TurnError::MissingNonce);
        },
    };
    Ok(TurnNonce { realm, nonce })
}

/// The data that the server passes on in a packet, and the peer that sent it.
pub open spec fn relayed(packet: Seq<u8>) -> Option<(Seq<u8>, SocketAddr)> {
    match stun::stun_decoded(packet) {
        Ok(d) => if d.class == StunClass::Indication && d.method == StunMethod::Data {
            match (d.data, d.xor_peer_address) {
                (Some(data), Some(peer)) => Some((data, peer)),
                _ => None,
            }
        } else {
            None
        },
        Err(_) => None,
    }
}

/// The data that the server passes on in a packet, and the peer that sent it.
pub fn relayed_data(packet: &[u8]) -> (r: Option<(Vec<u8>, SocketAddr)>)
    ensures
        match r {
            Some((data, peer)) => relayed(packet@) == Some((data@, peer)),
            None => relayed(packet@) is None,
        },
{
    match StunMessage::decode(packet) {
        Ok(d) => {
            if d.class == StunClass::Indication && d.method == StunMethod::Data {
                match (d.data, d.xor_peer_address) {
                    (Some(data), Some(peer)) => Some((data, peer)),
                    _ => None,
                }
            } else {
                None
            }
        },
        Err(_) => None,
    }
}

} // verus!
