//! RTP packets (RFC 3550) and the RTCP packets that WebRTC exchanges.
pub mod format_laws;
pub mod nack;
pub mod packet;
pub mod rtcp;
pub mod rtcp_laws;

pub use nack::pack_nack_pairs;
pub use packet::{RtpHeader, RtpHeaderExtension, RtpPacket};
pub use rtcp::{
    is_rtcp, marshal_rtcp_packets, parse_rtcp_packets, FirRequest, FullIntraRequest, GenericNack,
    PictureLossIndication, ReceiverReport, RemoteBitrateEstimate, ReportBlock, RtcpPacket,
    SenderReport, TransportWideCc, RTCP_PSFB, RTCP_PSFB_APP, RTCP_PSFB_FIR, RTCP_PSFB_PLI, RTCP_RR,
    RTCP_RTPFB, RTCP_RTPFB_NACK, RTCP_RTPFB_TWCC, RTCP_SR,
};
