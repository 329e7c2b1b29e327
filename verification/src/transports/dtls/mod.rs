//! DTLS 1.2 (RFC 6347) with ECDHE-ECDSA on P-256 and AES-128-GCM.
pub mod certificate;
pub mod data_laws;
pub mod error;
pub mod flight_laws;
pub mod format_laws;
pub mod handshake;
pub mod key_laws;
pub mod keys;
pub mod laws;
pub mod record;
pub mod session;

pub use certificate::{fingerprint, generate_certificate, Certificate};
pub use error::DtlsError;
pub use keys::SessionKeys;
pub use session::{DtlsAction, DtlsState, DtlsTransport};
