//! The transports below the media: connectivity, DTLS, SCTP and RTP.
pub mod dtls;
pub mod ice;
pub mod rtp;
pub mod rtp_laws;
pub mod sctp;
pub mod sctp_laws;
