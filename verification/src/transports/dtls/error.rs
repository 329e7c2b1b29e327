//! The failures of the DTLS layer.
use vstd::prelude::*;
use vstd::string::*;

use crate::text;

verus! {

/// Result of the DTLS operations.
pub type DtlsResult<T> = Result<T, DtlsError>;

/// A failure of the DTLS layer.
#[derive(Debug, Clone, PartialEq, Eq)]
pub enum DtlsError {
    InvalidContentType(u8),
    InvalidHandshakeType(u8),
    Malformed(&'static str),
    RecordTooShort,
    CiphertextTooShort,
    InvalidKeyLength,
    DecryptionFailed,
    EncryptionFailed,
    PrivateKey,
    Certificate,
    FinishedVerificationFailed,
    SessionKeysNotDerived,
    NotConnected,
}

impl DtlsError {
    /// The text of the failure.
    pub open spec fn text(&self) -> Seq<char> {
        match self {
            DtlsError::InvalidContentType(v) => "Invalid ContentType: "@ + text::decimal(*v as nat),
            DtlsError::InvalidHandshakeType(v) => "Invalid HandshakeType: "@ + text::decimal(
                *v as nat,
            ),
            DtlsError::Malformed(s) => "Malformed message: "@ + s@,
            DtlsError::RecordTooShort => "Record too short for explicit nonce"@,
            DtlsError::CiphertextTooShort => "Ciphertext too short for tag"@,
            DtlsError::InvalidKeyLength => "Invalid key length"@,
            DtlsError::DecryptionFailed => "Decryption failed"@,
            DtlsError::EncryptionFailed => "Encryption failed"@,
            DtlsError::PrivateKey => "Failed to parse private key"@,
            DtlsError::Certificate => "Failed to generate certificate"@,
            DtlsError::FinishedVerificationFailed => "Finished verification failed"@,
            DtlsError::SessionKeysNotDerived => "Session keys not derived"@,
            DtlsError::NotConnected => "DTLS not connected"@,
        }
    }

    /// The text of the failure.
    pub fn message(&self) -> (r: String)
        ensures
            r@ == self.text(),
    {
        match self {
            DtlsError::InvalidContentType(v) => {
                let mut out = String::from_str("Invalid ContentType: ");
                text::push_decimal(&mut out, *v as u64);
                out
            },
            DtlsError::InvalidHandshakeType(v) => {
                let mut out = String::from_str("Invalid HandshakeType: ");
                text::push_decimal(&mut out, *v as u64);
                out
            },
            DtlsError::Malformed(s) => text::joined("Malformed message: ", s),
            DtlsError::RecordTooShort => String::from_str("Record too short for explicit nonce"),
            DtlsError::CiphertextTooShort => String::from_str("Ciphertext too short for tag"),
            DtlsError::InvalidKeyLength => String::from_str("Invalid key length"),
            DtlsError::DecryptionFailed => String::from_str("Decryption failed"),
            DtlsError::EncryptionFailed => String::from_str("Encryption failed"),
            DtlsError::PrivateKey => String::from_str("Failed to parse private key"),
            DtlsError::Certificate => String::from_str("Failed to generate certificate"),
            DtlsError::FinishedVerificationFailed => String::from_str(
                "Finished verification failed",
            ),
            DtlsError::SessionKeysNotDerived => String::from_str("Session keys not derived"),
            DtlsError::NotConnected => String::from_str("DTLS not connected"),
        }
    }
}

} // verus!
