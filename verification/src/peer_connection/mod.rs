//! A connection to a peer: its negotiation state and what it negotiates.
pub mod capabilities;
pub mod connection;
pub mod connection_laws;
pub mod laws;
pub mod offer_laws;
pub mod remote;
pub mod transceiver;

pub use connection::{
    IceConnectionState, IceGatheringState, PeerConnection, PeerConnectionState, SignalingState,
};
pub use transceiver::{
    RtpCodecParameters, RtpReceiver, RtpSender, RtpTransceiver, TransceiverDirection,
};
