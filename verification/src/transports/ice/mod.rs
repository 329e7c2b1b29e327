//! Interactive Connectivity Establishment (RFC 8445), with STUN (RFC 8489) and TURN (RFC 8656).
pub mod address;
pub mod address_laws;
pub mod builder;
pub mod candidate;
pub mod check_laws;
pub mod conn;
pub mod gatherer;
pub mod gathering_laws;
pub mod relay_laws;
pub mod stun;
pub mod stun_laws;
pub mod transport;
pub mod turn;
pub mod uri;

pub use address::{IpAddr, SocketAddr};
pub use builder::IceTransportBuilder;
pub use candidate::{
    IceCandidate, IceCandidatePair, IceCandidateType, IceGathererState, IceParameters, IceRole,
    IceTransportState,
};
pub use transport::IceTransport;
pub use turn::TurnClient;
pub use uri::{IceServerUri, IceTransportProtocol, IceUriKind};
