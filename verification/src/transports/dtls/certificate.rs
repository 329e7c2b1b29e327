//! The certificate of an endpoint and its fingerprint.
use vstd::prelude::*;
use vstd::string::*;

use crate::crypto;
use crate::transports::dtls::error::{DtlsError, DtlsResult};

verus! {

/// A certificate chain with the private key of its first certificate, in PEM.
#[derive(Clone, Debug)]
pub struct Certificate {
    pub certificate: Vec<Vec<u8>>,
    pub private_key: String,
}

/// What is made of a generated certificate and key.
pub open spec fn certificate_of(made: Option<(Vec<u8>, String)>, r: DtlsResult<Certificate>) -> bool {
    match (made, r) {
        (Some((der, pem)), Ok(c)) => c.certificate@.len() == 1 && c.certificate@[0]@ == der@
            && c.private_key@ == pem@,
        (None, Err(e)) => e == DtlsError::Certificate,
        _ => false,
    }
}

/// The certificate that a generated certificate and key make up.
pub fn certificate_from(made: Option<(Vec<u8>, String)>) -> (r: DtlsResult<Certificate>)
    ensures
        certificate_of(made, r),
{
    match made {
        Some((der, private_key)) => {
            let mut certificate: Vec<Vec<u8>> = Vec::new();
            certificate.push(der);
            Ok(Certificate { certificate, private_key })
        },
        None => Err(DtlsError::Certificate),
    }
}

/// The name that certificates are for.
pub const CERTIFICATE_NAME: &'static str = "localhost";

/// A fresh self-signed certificate for [`CERTIFICATE_NAME`].
pub fn generate_certificate() -> (r: DtlsResult<Certificate>)
    ensures
        r matches Ok(c) ==> c.certificate@.len() == 1,
        r matches Err(e) ==> e == DtlsError::Certificate,
{
    certificate_from(crypto::self_signed_certificate(CERTIFICATE_NAME))
}

/// The upper case hexadecimal digit `d`.
pub open spec fn upper_hex_char(d: nat) -> char {
    if d < 10 {
        (48 + d) as u8 as char
    } else {
        (55 + d) as u8 as char
    }
}

/// The bytes as pairs of upper case hexadecimal digits, with colons between the pairs.
pub open spec fn colon_hex(bytes: Seq<u8>) -> Seq<char>
    decreases bytes.len(),
{
    if bytes.len() == 0 {
        seq![]
    } else {
        let head = colon_hex(bytes.drop_last());
        let joint = if bytes.len() == 1 {
            head
        } else {
            head.push(':')
        };
        joint.push(upper_hex_char((bytes.last() / 16) as nat)).push(
            upper_hex_char((bytes.last() % 16) as nat),
        )
    }
}

fn upper_hex_digit(d: u8) -> (c: char)
    requires
        d < 16,
    ensures
        c == upper_hex_char(d as nat),
{
    if d < 10 {
        (48 + d) as char
    } else {
        (55 + d) as char
    }
}

/// Writes bytes as pairs of upper case hexadecimal digits, with colons between the pairs.
pub fn to_colon_hex(octets: &[u8]) -> (r: String)
    ensures
        r@ == colon_hex(octets@),
{
    let n: usize = octets.len();
    let mut out = String::new();
    let mut i: usize = 0;
    assert(out@ =~= colon_hex(octets@.subrange(0, 0)));
    while i < n
        invariant
            n == octets@.len(),
            i <= n,
            out@ == colon_hex(octets@.subrange(0, i as int)),
        decreases n - i,
    {
        let b: u8 = octets[i];
        if i > 0 {
            out.push(':');
        }
        out.push(upper_hex_digit(b / 16));
        out.push(upper_hex_digit(b % 16));
        i += 1;
        assert(octets@.subrange(0, i as int).drop_last() =~= octets@.subrange(0, i - 1));
    }
    assert(octets@.subrange(0, n as int) =~= octets@);
    out
}

/// The fingerprint of the first certificate: its SHA-256 hash in upper case hexadecimal digits.
pub fn fingerprint(cert: &Certificate) -> (r: String)
    requires
        cert.certificate@.len() > 0,
    ensures
        r@ == colon_hex(crypto::sha256(cert.certificate@[0]@)),
{
    let hash = crypto::sha256_of(cert.certificate[0].as_slice());
    to_colon_hex(hash.as_slice())
}

} // verus!
