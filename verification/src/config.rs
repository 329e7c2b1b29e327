//! What a connection is made with.
use vstd::prelude::*;
use vstd::string::*;

verus! {

/// How a credential for a server is to be used.
#[derive(Debug, Clone, Copy, PartialEq, Eq, Structural)]
pub enum IceCredentialType {
    Password,
    Oauth,
}

/// A STUN or TURN server.
#[derive(Debug, Clone, PartialEq, Eq)]
pub struct IceServer {
    pub urls: Vec<String>,
    pub username: Option<String>,
    pub credential: Option<String>,
    pub credential_type: IceCredentialType,
}

impl IceServer {
    /// A server at these addresses that asks for no credential.
    pub fn new(urls: Vec<String>) -> (r: Self)
        ensures
            r == (IceServer {
                urls,
                username: None,
                credential: None,
                credential_type: IceCredentialType::Password,
            }),
    {
        IceServer {
            urls,
            username: None,
            credential: None,
            credential_type: IceCredentialType::Password,
        }
    }

    /// The same server, reached as `username` with the password `credential`.
    pub fn with_credential(self, username: String, credential: String) -> (r: Self)
        ensures
            r == (IceServer {
                urls: self.urls,
                username: Some(username),
                credential: Some(credential),
                credential_type: IceCredentialType::Password,
            }),
    {
        IceServer {
            urls: self.urls,
            username: Some(username),
            credential: Some(credential),
            credential_type: IceCredentialType::Password,
        }
    }
}

/// What media goes over.
#[derive(Debug, Clone, Copy, PartialEq, Eq, Structural)]
pub enum TransportMode {
    /// ICE, DTLS and SRTP.
    WebRtc,
    /// DTLS and SRTP between known addresses.
    Srtp,
    /// Plain RTP between known addresses.
    Rtp,
}

/// An audio format that is offered.
#[derive(Debug, Clone, PartialEq, Eq)]
pub struct AudioCapability {
    pub payload_type: u8,
    pub codec_name: String,
    pub clock_rate: u32,
    pub channels: u8,
    pub fmtp: Option<String>,
}

/// A video format that is offered.
#[derive(Debug, Clone, PartialEq, Eq)]
pub struct VideoCapability {
    pub payload_type: u8,
    pub codec_name: String,
    pub clock_rate: u32,
    pub rtcp_fbs: Vec<String>,
}

/// How data channels are offered.
#[derive(Debug, Clone, Copy, PartialEq, Eq, Structural)]
pub struct ApplicationCapability {
    pub sctp_port: u16,
}

/// The formats that are offered.
#[derive(Debug, Clone, PartialEq, Eq)]
pub struct MediaCapabilities {
    pub audio: Vec<AudioCapability>,
    pub video: Vec<VideoCapability>,
    pub application: Option<ApplicationCapability>,
}

/// What a connection is made with.
#[derive(Debug, Clone, PartialEq, Eq)]
pub struct RtcConfiguration {
    pub ice_servers: Vec<IceServer>,
    pub transport_mode: TransportMode,
    pub disable_ipv6: bool,
    pub media_capabilities: Option<MediaCapabilities>,
}

impl Default for RtcConfiguration {
    fn default() -> (r: Self)
        ensures
            r.ice_servers@.len() == 0,
            r.transport_mode == TransportMode::WebRtc,
            !r.disable_ipv6,
            r.media_capabilities is None,
    {
        RtcConfiguration {
            ice_servers: Vec::new(),
            transport_mode: TransportMode::WebRtc,
            disable_ipv6: false,
            media_capabilities: None,
        }
    }
}

} // verus!
