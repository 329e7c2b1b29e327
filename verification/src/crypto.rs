//! The cryptographic primitives, from the crates that provide them.
use aes_gcm::aead::{Aead, KeyInit, Payload};
use ctr::cipher::{KeyIvInit, StreamCipher};
use hmac::Mac;
use p256::ecdsa::signature::Signer;
use p256::elliptic_curve::sec1::ToEncodedPoint;
use p256::pkcs8::DecodePrivateKey;
use rand_core::RngCore;
use sha2::Digest;
use vstd::prelude::*;

use crate::wire;

verus! {

/// Byte `i` of the key stream of AES-128 in counter mode.
pub uninterp spec fn ctr_keystream(key: Seq<u8>, iv: Seq<u8>, i: nat) -> u8;

/// `StreamCipher::apply_keystream` of `ctr::Ctr128BE<aes::Aes128>`, on a copy of the data. It
/// combines each byte with the byte of the key stream at its place by exclusive or.
#[verifier::external_body]
pub(crate) fn aes128_ctr(key: &[u8], iv: &[u8], data: &[u8]) -> (out: Vec<u8>)
    requires
        key@.len() == 16,
        iv@.len() == 16,
    ensures
        out@ == Seq::new(data@.len(), |i: int| data@[i] ^ ctr_keystream(key@, iv@, i as nat)),
{
    let mut out = data.to_vec();
    let mut cipher = ctr::Ctr128BE::<aes::Aes128>::new(key.into(), iv.into());
    cipher.apply_keystream(&mut out);
    out
}

/// The bytes of an optional buffer.
pub open spec fn bytes_of(r: Option<Vec<u8>>) -> Option<Seq<u8>> {
    match r {
        Some(v) => Some(v@),
        None => None,
    }
}

/// What AES-128 in Galois/counter mode seals a message to, with associated data.
pub uninterp spec fn gcm_sealed(
    key: Seq<u8>,
    nonce: Seq<u8>,
    aad: Seq<u8>,
    msg: Seq<u8>,
) -> Option<Seq<u8>>;

/// What AES-128 in Galois/counter mode opens a sealed message to, if it is authentic.
pub uninterp spec fn gcm_opened(
    key: Seq<u8>,
    nonce: Seq<u8>,
    aad: Seq<u8>,
    sealed: Seq<u8>,
) -> Option<Seq<u8>>;

/// Whether neither the associated data nor the message is longer than 2^36 bytes.
pub open spec fn gcm_fits(aad: Seq<u8>, msg: Seq<u8>) -> bool {
    aad.len() <= 0x10_0000_0000 && msg.len() <= 0x10_0000_0000
}

/// `Aead::encrypt` of `aes_gcm::Aes128Gcm`. It fails only where the message or the associated
/// data is longer than 2^36 bytes. The result is 16 bytes longer than the message, and opens to
/// the message again under the same key, nonce and associated data.
#[verifier::external_body]
pub(crate) fn aes128_gcm_seal(
    key: &[u8],
    nonce: &[u8],
    aad: &[u8],
    msg: &[u8],
) -> (r: Option<Vec<u8>>)
    requires
        key@.len() == 16,
        nonce@.len() == 12,
    ensures
        bytes_of(r) == gcm_sealed(key@, nonce@, aad@, msg@),
        r is Some <==> gcm_fits(aad@, msg@),
        r is Some ==> r->0@.len() == msg@.len() + 16,
        r is Some ==> gcm_opened(key@, nonce@, aad@, r->0@) == Some(msg@),
{
    let cipher = aes_gcm::Aes128Gcm::new_from_slice(key).ok()?;
    cipher.encrypt(nonce.into(), Payload { msg, aad }).ok()
}

/// `Aead::decrypt` of `aes_gcm::Aes128Gcm`. What it opens is 16 bytes longer than the message.
#[verifier::external_body]
pub(crate) fn aes128_gcm_open(
    key: &[u8],
    nonce: &[u8],
    aad: &[u8],
    sealed: &[u8],
) -> (r: Option<Vec<u8>>)
    requires
        key@.len() == 16,
        nonce@.len() == 12,
    ensures
        bytes_of(r) == gcm_opened(key@, nonce@, aad@, sealed@),
        r is Some ==> sealed@.len() == r->0@.len() + 16,
{
    let cipher = aes_gcm::Aes128Gcm::new_from_slice(key).ok()?;
    cipher.decrypt(nonce.into(), Payload { msg: sealed, aad }).ok()
}

/// The hash MD5.
pub uninterp spec fn md5_hash(data: Seq<u8>) -> Seq<u8>;

/// `Digest::digest` of `md5::Md5`: 16 bytes.
#[verifier::external_body]
pub(crate) fn md5_digest(data: &[u8]) -> (out: Vec<u8>)
    ensures
        out@ == md5_hash(data@),
        out@.len() == 16,
{
    md5::Md5::digest(data).to_vec()
}

/// The message authentication code HMAC-SHA1.
pub uninterp spec fn hmac_sha1(key: Seq<u8>, data: Seq<u8>) -> Seq<u8>;

/// `Mac::finalize` of `hmac::Hmac<sha1::Sha1>` after one update: 20 bytes. A key of any length is
/// accepted.
#[verifier::external_body]
pub(crate) fn hmac_sha1_of(key: &[u8], data: &[u8]) -> (out: Vec<u8>)
    ensures
        out@ == hmac_sha1(key@, data@),
        out@.len() == 20,
{
    let mut mac = <hmac::Hmac<sha1::Sha1> as Mac>::new_from_slice(key).unwrap();
    mac.update(data);
    mac.finalize().into_bytes().to_vec()
}

/// The message authentication code HMAC-SHA256.
pub uninterp spec fn hmac_sha256(key: Seq<u8>, data: Seq<u8>) -> Seq<u8>;

/// `Mac::finalize` of `hmac::Hmac<sha2::Sha256>` after one update: 32 bytes. A key of any length
/// is accepted.
#[verifier::external_body]
pub(crate) fn hmac_sha256_of(key: &[u8], data: &[u8]) -> (out: Vec<u8>)
    ensures
        out@ == hmac_sha256(key@, data@),
        out@.len() == 32,
{
    let mut mac = <hmac::Hmac<sha2::Sha256> as Mac>::new_from_slice(key).unwrap();
    mac.update(data);
    mac.finalize().into_bytes().to_vec()
}

/// The hash SHA-256.
pub uninterp spec fn sha256(data: Seq<u8>) -> Seq<u8>;

/// `Digest::digest` of `sha2::Sha256`: 32 bytes.
#[verifier::external_body]
pub(crate) fn sha256_of(data: &[u8]) -> (out: Vec<u8>)
    ensures
        out@ == sha256(data@),
        out@.len() == 32,
{
    sha2::Sha256::digest(data).to_vec()
}

/// The public key of a P-256 secret key, as an uncompressed point. None for bytes that are no
/// secret key.
pub uninterp spec fn p256_public(secret: Seq<u8>) -> Option<Seq<u8>>;

/// The secret that a P-256 secret key shares with the owner of a public key. None where either
/// is no key.
pub uninterp spec fn p256_shared(secret: Seq<u8>, peer: Seq<u8>) -> Option<Seq<u8>>;

/// `SecretKey::random` of `p256`, from the random numbers of the operating system. What it gives
/// is a secret key.
#[verifier::external_body]
pub(crate) fn p256_random_secret() -> (out: Vec<u8>)
    ensures
        p256_public(out@) is Some,
{
    p256::SecretKey::random(&mut rand_core::OsRng).to_bytes().to_vec()
}

/// `SecretKey::public_key` of `p256`. An uncompressed point has 65 bytes.
#[verifier::external_body]
pub(crate) fn p256_public_key(secret: &[u8]) -> (r: Option<Vec<u8>>)
    ensures
        bytes_of(r) == p256_public(secret@),
        r is Some ==> r->0@.len() == 65,
{
    let secret = p256::SecretKey::from_slice(secret).ok()?;
    Some(secret.public_key().to_encoded_point(false).as_bytes().to_vec())
}

/// `p256::ecdh::diffie_hellman` of a secret key and an encoded public key. It gives 32 bytes for
/// the public key of any secret key, and the owner of that secret key gets the same bytes.
#[verifier::external_body]
pub(crate) fn p256_shared_secret(secret: &[u8], peer: &[u8]) -> (r: Option<Vec<u8>>)
    ensures
        bytes_of(r) == p256_shared(secret@, peer@),
        r is Some ==> r->0@.len() == 32,
        r is None ==> p256_public(secret@) is None || forall|other: Seq<u8>| #[trigger]
            p256_public(other) != Some(peer@),
        forall|other: Seq<u8>|
            p256_public(other) == Some(peer@) && p256_public(secret@) is Some ==> #[trigger]
            p256_shared(other, p256_public(secret@)->0) == bytes_of(r),
{
    let secret = p256::SecretKey::from_slice(secret).ok()?;
    let peer = p256::PublicKey::from_sec1_bytes(peer).ok()?;
    let shared = p256::ecdh::diffie_hellman(secret.to_nonzero_scalar(), peer.as_affine());
    Some(shared.raw_secret_bytes().to_vec())
}

/// The ECDSA signature with SHA-256 of a message under a private key in PEM, in DER. None where
/// the text is no private key.
pub uninterp spec fn ecdsa_signature(private_key: Seq<char>, msg: Seq<u8>) -> Option<Seq<u8>>;

/// `Signer::sign` of `p256::ecdsa::SigningKey`, which derives its nonce from the key and the
/// message (RFC 6979), so that equal messages have equal signatures.
#[verifier::external_body]
pub(crate) fn ecdsa_sign(private_key: &str, msg: &[u8]) -> (r: Option<Vec<u8>>)
    ensures
        bytes_of(r) == ecdsa_signature(private_key@, msg@),
{
    let key = p256::ecdsa::SigningKey::from_pkcs8_pem(private_key).ok()?;
    let signature: p256::ecdsa::Signature = key.sign(msg);
    Some(signature.to_der().as_bytes().to_vec())
}

/// `rcgen::generate_simple_self_signed` for one name: a fresh key with a certificate for it, the
/// certificate in DER and the key in PEM. It is called for one name only. Nothing is promised of
/// what it gives, or that it gives anything.
#[verifier::external_body]
pub(crate) fn self_signed_certificate(name: &str) -> (r: Option<(Vec<u8>, String)>)
    requires
        name@ == "localhost"@,
{
    let made = rcgen::generate_simple_self_signed(vec![name.to_string()]).ok()?;
    Some((made.cert.der().to_vec(), made.signing_key.serialize_pem()))
}

/// `RngCore::fill_bytes` of `rand_core::OsRng`, on `count` bytes. Nothing is promised of what they
/// are: any bytes can come.
#[verifier::external_body]
pub(crate) fn random_bytes(count: usize) -> (out: Vec<u8>)
    ensures
        out@.len() == count,
{
    let mut out = vec![0u8; count];
    rand_core::OsRng.fill_bytes(&mut out);
    out
}

/// A random number: the one that eight random bytes stand for, as `wire::get_u64` reads them. Any
/// number can come, so nothing is promised of it.
pub fn random_u64() -> u64 {
    let octets = random_bytes(8);
    wire::get_u64(octets.as_slice(), 0)
}

/// The CRC-32C checksum.
pub uninterp spec fn crc32c(data: Seq<u8>) -> u32;

/// `crc32c::crc32c` of some bytes.
#[verifier::external_body]
pub(crate) fn crc32c_of(data: &[u8]) -> (r: u32)
    ensures
        r == crc32c(data@),
{
    crc32c::crc32c(data)
}

} // verus!
