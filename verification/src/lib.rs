//! The protocol logic of a WebRTC stack: media packets and their protection, the DTLS and SCTP
//! transports, connectivity establishment, and the session state around them.
pub mod buffer;
pub mod config;
pub mod crypto;
pub mod encoding_laws;
pub mod errors;
pub mod media;
pub mod peer_connection;
pub mod rtp;
pub mod sdp;
pub mod srtp;
pub mod srtp_laws;
pub mod stats;
pub mod text;
pub mod transports;
pub mod wire;

pub use config::{IceCredentialType, IceServer, RtcConfiguration, TransportMode};
pub use errors::{RtcError, RtcResult, SdpError, SdpResult};
pub use peer_connection::{
    PeerConnection, PeerConnectionState, RtpCodecParameters, RtpTransceiver, SignalingState,
    TransceiverDirection,
};
pub use sdp::{
    Attribute, Direction, MediaKind, MediaSection, Origin, SdpType, SessionDescription,
    SessionSection,
};
pub use srtp::{SrtpContext, SrtpDirection, SrtpKeyingMaterial, SrtpProfile, SrtpSession};
pub use stats::{StatsEntry, StatsId, StatsKind, StatsReport};
pub use transports::ice::{
    IceCandidate, IceCandidatePair, IceCandidateType, IceGathererState, IceRole, IceTransport,
    IceTransportState,
};
