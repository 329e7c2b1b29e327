//! Key derivation and record protection (RFC 5246, RFC 5288).
use vstd::prelude::*;
use vstd::string::*;

use crate::crypto;
use crate::transports::dtls::error::{DtlsError, DtlsResult};
use crate::transports::dtls::record::{ContentType, ProtocolVersion};
use crate::wire;

verus! {

/// The keys of an established connection, with what exported keys are derived from.
#[derive(Clone, Debug)]
pub struct SessionKeys {
    pub client_write_key: Vec<u8>,
    pub server_write_key: Vec<u8>,
    pub client_write_iv: Vec<u8>,
    pub server_write_iv: Vec<u8>,
    pub master_secret: Vec<u8>,
    pub client_random: Vec<u8>,
    pub server_random: Vec<u8>,
}

/// What the keys are.
#[verifier::ext_equal]
pub struct KeysView {
    pub client_write_key: Seq<u8>,
    pub server_write_key: Seq<u8>,
    pub client_write_iv: Seq<u8>,
    pub server_write_iv: Seq<u8>,
    pub master_secret: Seq<u8>,
    pub client_random: Seq<u8>,
    pub server_random: Seq<u8>,
}

impl View for SessionKeys {
    type V = KeysView;

    open spec fn view(&self) -> KeysView {
        KeysView {
            client_write_key: self.client_write_key@,
            server_write_key: self.server_write_key@,
            client_write_iv: self.client_write_iv@,
            server_write_iv: self.server_write_iv@,
            master_secret: self.master_secret@,
            client_random: self.client_random@,
            server_random: self.server_random@,
        }
    }
}

impl KeysView {
    /// Whether the keys have the lengths that AES-128-GCM asks for.
    pub open spec fn wf(self) -> bool {
        &&& self.client_write_key.len() == 16
        &&& self.server_write_key.len() == 16
        &&& self.client_write_iv.len() == 4
        &&& self.server_write_iv.len() == 4
    }

    /// The key that this side writes with.
    pub open spec fn write_key(self, is_client: bool) -> Seq<u8> {
        if is_client {
            self.client_write_key
        } else {
            self.server_write_key
        }
    }

    /// The fixed part of the nonces that this side writes with.
    pub open spec fn write_iv(self, is_client: bool) -> Seq<u8> {
        if is_client {
            self.client_write_iv
        } else {
            self.server_write_iv
        }
    }
}

impl SessionKeys {
    /// The key and the fixed part of the nonces that this side writes with.
    pub fn writing(&self, is_client: bool) -> (r: (&Vec<u8>, &Vec<u8>))
        ensures
            r.0@ == self@.write_key(is_client),
            r.1@ == self@.write_iv(is_client),
    {
        if is_client {
            (&self.client_write_key, &self.client_write_iv)
        } else {
            (&self.server_write_key, &self.server_write_iv)
        }
    }

    /// A copy of the keys.
    pub fn copy(&self) -> (r: Self)
        ensures
            r@ == self@,
    {
        let r = SessionKeys {
            client_write_key: copy_all(&self.client_write_key),
            server_write_key: copy_all(&self.server_write_key),
            client_write_iv: copy_all(&self.client_write_iv),
            server_write_iv: copy_all(&self.server_write_iv),
            master_secret: copy_all(&self.master_secret),
            client_random: copy_all(&self.client_random),
            server_random: copy_all(&self.server_random),
        };
        r
    }
}

/// A copy of a buffer.
pub fn copy_all(v: &Vec<u8>) -> (r: Vec<u8>)
    ensures
        r@ == v@,
{
    let r = wire::copy_range(v.as_slice(), 0, v.len());
    assert(r@ =~= v@);
    r
}

/// `a` followed by `b`.
pub fn concat(a: &[u8], b: &[u8]) -> (r: Vec<u8>)
    ensures
        r@ == a@ + b@,
{
    let mut r: Vec<u8> = Vec::new();
    wire::put_bytes(&mut r, a);
    wire::put_bytes(&mut r, b);
    assert(r@ =~= a@ + b@);
    r
}

/// The chain of codes that the pseudorandom function starts its blocks from.
pub open spec fn prf_chain(secret: Seq<u8>, seed: Seq<u8>, i: nat) -> Seq<u8>
    decreases i,
{
    if i == 0 {
        seed
    } else {
        crypto::hmac_sha256(secret, prf_chain(secret, seed, (i - 1) as nat))
    }
}

/// The first `i` blocks of the pseudorandom function.
pub open spec fn prf_blocks(secret: Seq<u8>, seed: Seq<u8>, i: nat) -> Seq<u8>
    decreases i,
{
    if i == 0 {
        seq![]
    } else {
        prf_blocks(secret, seed, (i - 1) as nat) + crypto::hmac_sha256(
            secret,
            prf_chain(secret, seed, i) + seed,
        )
    }
}

/// The pseudorandom function of TLS 1.2: the first `len` bytes of as many blocks as they take.
pub open spec fn prf(secret: Seq<u8>, label: Seq<u8>, seed: Seq<u8>, len: nat) -> Seq<u8> {
    prf_blocks(secret, label + seed, (len + 31) / 32).subrange(0, len as int)
}

/// Computes the pseudorandom function of TLS 1.2.
pub fn prf_sha256(secret: &[u8], label: &[u8], seed: &[u8], output_length: usize) -> (out: Vec<u8>)
    ensures
        out@ == prf(secret@, label@, seed@, output_length as nat),
        out@.len() == output_length,
{
    let real_seed = concat(label, seed);
    let mut a = copy_all(&real_seed);
    let mut output: Vec<u8> = Vec::new();
    let ghost mut i: nat = 0;
    let ghost blocks = (output_length as nat + 31) / 32;
    assert(prf_blocks(secret@, real_seed@, 0).subrange(0, 0) =~= output@);
    while output.len() < output_length
        invariant
            real_seed@ == label@ + seed@,
            a@ == prf_chain(secret@, real_seed@, i),
            blocks == (output_length as nat + 31) / 32,
            prf_blocks(secret@, real_seed@, i).len() == 32 * i,
            output@.len() == (if 32 * i < output_length {
                (32 * i) as nat
            } else {
                output_length as nat
            }),
            i <= blocks,
            output@ == prf_blocks(secret@, real_seed@, i).subrange(0, output@.len() as int),
        decreases blocks - i,
    {
        a = crypto::hmac_sha256_of(secret, a.as_slice());
        let input = concat(a.as_slice(), real_seed.as_slice());
        let block = crypto::hmac_sha256_of(secret, input.as_slice());
        let rest: usize = output_length - output.len();
        let len: usize = if rest < 32 {
            rest
        } else {
            32
        };
        let part = wire::copy_range(block.as_slice(), 0, len);
        let ghost before = output@;
        wire::put_bytes(&mut output, part.as_slice());
        proof {
            let old_blocks = prf_blocks(secret@, real_seed@, i);
            i = i + 1;
            let new_blocks = prf_blocks(secret@, real_seed@, i);
            assert(new_blocks == old_blocks + block@);
            assert(before =~= old_blocks);
            assert(output@ =~= new_blocks.subrange(0, output@.len() as int));
        }
    }
    assert(i == blocks);
    output
}

/// The key block: 40 bytes of key material.
pub open spec fn key_block(master: Seq<u8>, client_random: Seq<u8>, server_random: Seq<u8>) -> Seq<
    u8,
> {
    prf(master, "key expansion".spec_bytes(), server_random + client_random, 40)
}

/// The keys that a master secret expands to.
pub open spec fn expanded_keys(
    master: Seq<u8>,
    client_random: Seq<u8>,
    server_random: Seq<u8>,
) -> KeysView {
    let block = key_block(master, client_random, server_random);
    KeysView {
        client_write_key: block.subrange(0, 16),
        server_write_key: block.subrange(16, 32),
        client_write_iv: block.subrange(32, 36),
        server_write_iv: block.subrange(36, 40),
        master_secret: master,
        client_random,
        server_random,
    }
}

/// Expands a master secret to the keys of the connection.
pub fn expand_keys(master_secret: &[u8], client_random: &[u8], server_random: &[u8]) -> (r:
    SessionKeys)
    ensures
        r@ == expanded_keys(master_secret@, client_random@, server_random@),
        r@.wf(),
{
    let seed = concat(server_random, client_random);
    let block = prf_sha256(master_secret, "key expansion".as_bytes(), seed.as_slice(), 40);
    let master = wire::copy_range(master_secret, 0, master_secret.len());
    let client = wire::copy_range(client_random, 0, client_random.len());
    let server = wire::copy_range(server_random, 0, server_random.len());
    assert(master@ =~= master_secret@);
    assert(client@ =~= client_random@);
    assert(server@ =~= server_random@);
    SessionKeys {
        client_write_key: wire::copy_range(block.as_slice(), 0, 16),
        server_write_key: wire::copy_range(block.as_slice(), 16, 32),
        client_write_iv: wire::copy_range(block.as_slice(), 32, 36),
        server_write_iv: wire::copy_range(block.as_slice(), 36, 40),
        master_secret: master,
        client_random: client,
        server_random: server,
    }
}

/// The master secret of a key exchange.
pub open spec fn master_secret_of(
    pre_master: Seq<u8>,
    client_random: Seq<u8>,
    server_random: Seq<u8>,
) -> Seq<u8> {
    prf(pre_master, "master secret".spec_bytes(), client_random + server_random, 48)
}

/// The keys that a key exchange leads to: none where the peer's public key is no key.
pub open spec fn exchanged_keys(
    secret: Seq<u8>,
    peer: Seq<u8>,
    client_random: Seq<u8>,
    server_random: Seq<u8>,
) -> Option<KeysView> {
    match crypto::p256_shared(secret, peer) {
        Some(pre_master) => Some(
            expanded_keys(
                master_secret_of(pre_master, client_random, server_random),
                client_random,
                server_random,
            ),
        ),
        None => None,
    }
}

/// What the keys of an exchange are, if there are any.
pub open spec fn keys_view(r: Option<SessionKeys>) -> Option<KeysView> {
    match r {
        Some(keys) => Some(keys@),
        None => None,
    }
}

/// Derives the keys of the connection from the secret key of this side and the public key of the
/// other. The other side derives the same keys.
pub fn exchange_keys(
    secret: &[u8],
    peer: &[u8],
    client_random: &[u8],
    server_random: &[u8],
) -> (r: Option<SessionKeys>)
    ensures
        keys_view(r) == exchanged_keys(secret@, peer@, client_random@, server_random@),
        r is Some ==> r->0@.wf(),
        forall|other: Seq<u8>|
            crypto::p256_public(other) == Some(peer@) && crypto::p256_public(secret@) is Some
                ==> r is Some && #[trigger] exchanged_keys(
                other,
                crypto::p256_public(secret@)->0,
                client_random@,
                server_random@,
            ) == keys_view(r),
{
    let pre_master = match crypto::p256_shared_secret(secret, peer) {
        Some(pre_master) => pre_master,
        None => {
            return None;
        },
    };
    let seed = concat(client_random, server_random);
    let master = prf_sha256(
        pre_master.as_slice(),
        "master secret".as_bytes(),
        seed.as_slice(),
        48,
    );
    Some(expand_keys(master.as_slice(), client_random, server_random))
}

/// What a `Finished` message holds: twelve bytes that depend on all messages before it.
pub open spec fn verify_data(master: Seq<u8>, label: Seq<u8>, transcript: Seq<u8>) -> Seq<u8> {
    prf(master, label, crypto::sha256(transcript), 12)
}

/// Computes what a `Finished` message holds.
pub fn calculate_verify_data(master_secret: &[u8], label: &[u8], handshake_messages: &[u8]) -> (r:
    Vec<u8>)
    ensures
        r@ == verify_data(master_secret@, label@, handshake_messages@),
        r@.len() == 12,
{
    let hash = crypto::sha256_of(handshake_messages);
    prf_sha256(master_secret, label, hash.as_slice(), 12)
}

/// The data that the protection of a record authenticates besides its payload.
pub open spec fn record_aad(
    seq: u64,
    content_type: ContentType,
    version: ProtocolVersion,
    length: nat,
) -> Seq<u8> {
    wire::enc64(seq) + seq![content_type.code(), version.major, version.minor] + wire::enc16(
        (length % 0x1_0000) as u16,
    )
}

/// Builds the data that the protection of a record authenticates besides its payload.
pub fn make_aad(seq: u64, content_type: ContentType, version: ProtocolVersion, length: usize) -> (r:
    Vec<u8>)
    ensures
        r@ == record_aad(seq, content_type, version, length as nat),
{
    let mut aad: Vec<u8> = Vec::new();
    wire::put_u64(&mut aad, seq);
    aad.push(content_type.to_u8());
    aad.push(version.major);
    aad.push(version.minor);
    wire::put_u16(&mut aad, (length % 0x1_0000) as u16);
    assert(aad@ =~= record_aad(seq, content_type, version, length as nat));
    aad
}

/// What a protected payload is turned back into.
pub open spec fn record_opened(
    content_type: ContentType,
    version: ProtocolVersion,
    seq: u64,
    payload: Seq<u8>,
    key: Seq<u8>,
    iv: Seq<u8>,
) -> Result<Seq<u8>, DtlsError> {
    if payload.len() < 8 {
        Err(DtlsError::RecordTooShort)
    } else if payload.len() < 24 {
        Err(DtlsError::CiphertextTooShort)
    } else if key.len() != 16 {
        Err(DtlsError::InvalidKeyLength)
    } else {
        match crypto::gcm_opened(
            key,
            iv + payload.subrange(0, 8),
            record_aad(seq, content_type, version, (payload.len() - 24) as nat),
            payload.subrange(8, payload.len() as int),
        ) {
            Some(plain) => Ok(plain),
            None => Err(DtlsError::DecryptionFailed),
        }
    }
}

/// What a payload is protected to: the explicit part of the nonce, then the sealed payload.
pub open spec fn record_sealed(
    content_type: ContentType,
    version: ProtocolVersion,
    seq: u64,
    payload: Seq<u8>,
    key: Seq<u8>,
    iv: Seq<u8>,
) -> Result<Seq<u8>, DtlsError> {
    if key.len() != 16 {
        Err(DtlsError::InvalidKeyLength)
    } else {
        match crypto::gcm_sealed(
            key,
            iv + wire::enc64(seq),
            record_aad(seq, content_type, version, payload.len()),
            payload,
        ) {
            Some(sealed) => Ok(wire::enc64(seq) + sealed),
            None => Err(DtlsError::EncryptionFailed),
        }
    }
}

/// Whether the result of a transform is the result that `s` says.
pub open spec fn gives(r: DtlsResult<Vec<u8>>, s: Result<Seq<u8>, DtlsError>) -> bool {
    match r {
        Ok(v) => s == Ok::<Seq<u8>, DtlsError>(v@),
        Err(e) => s == Err::<Seq<u8>, DtlsError>(e),
    }
}

/// Checks and decrypts the payload of a protected record.
pub fn decrypt_record(
    content_type: ContentType,
    version: ProtocolVersion,
    seq: u64,
    payload: &[u8],
    key: &[u8],
    iv: &[u8],
) -> (r: DtlsResult<Vec<u8>>)
    requires
        iv@.len() == 4,
    ensures
        gives(r, record_opened(content_type, version, seq, payload@, key@, iv@)),
        r matches Ok(plain) ==> payload@.len() == plain@.len() + 24,
{
    let n: usize = payload.len();
    if n < 8 {
        return Err(DtlsError::RecordTooShort);
    }
    if n < 24 {
        return Err(DtlsError::CiphertextTooShort);
    }
    if key.len() != 16 {
        return Err(DtlsError::InvalidKeyLength);
    }
    let explicit = wire::copy_range(payload, 0, 8);
    let nonce = concat(iv, explicit.as_slice());
    let aad = make_aad(seq, content_type, version, n - 24);
    let sealed = wire::copy_range(payload, 8, n);
    match crypto::aes128_gcm_open(key, nonce.as_slice(), aad.as_slice(), sealed.as_slice()) {
        Some(plain) => Ok(plain),
        None => Err(DtlsError::DecryptionFailed),
    }
}

/// Encrypts and protects the payload of a record. It fails only where the payload is longer
/// than 2^36 bytes or the key has another length than 16. What it gives is turned back into the
/// payload under the same parameters.
pub fn encrypt_record(
    content_type: ContentType,
    version: ProtocolVersion,
    seq: u64,
    payload: &[u8],
    key: &[u8],
    iv: &[u8],
) -> (r: DtlsResult<Vec<u8>>)
    requires
        iv@.len() == 4,
    ensures
        gives(r, record_sealed(content_type, version, seq, payload@, key@, iv@)),
        r is Ok <==> key@.len() == 16 && payload@.len() <= 0x10_0000_0000,
        r matches Ok(out) ==> out@.len() == payload@.len() + 24,
        r matches Ok(out) ==> record_opened(content_type, version, seq, out@, key@, iv@) == Ok::<
            Seq<u8>,
            DtlsError,
        >(payload@),
{
    if key.len() != 16 {
        return Err(DtlsError::InvalidKeyLength);
    }
    let mut out: Vec<u8> = Vec::new();
    wire::put_u64(&mut out, seq);
    assert(out@ =~= wire::enc64(seq));
    let nonce = concat(iv, out.as_slice());
    let aad = make_aad(seq, content_type, version, payload.len());
    match crypto::aes128_gcm_seal(key, nonce.as_slice(), aad.as_slice(), payload) {
        Some(sealed) => {
            wire::put_bytes(&mut out, sealed.as_slice());
            proof {
                assert(out@.subrange(0, 8) =~= wire::enc64(seq));
                assert(out@.subrange(8, out@.len() as int) =~= sealed@);
            }
            Ok(out)
        },
        None => Err(DtlsError::EncryptionFailed),
    }
}

} // verus!
