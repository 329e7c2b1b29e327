//! Error types shared by the protocol modules.
use vstd::prelude::*;
use vstd::string::*;

use crate::text;

verus! {

/// Result of the session level operations.
pub type RtcResult<T> = Result<T, RtcError>;

/// Result of the session description operations.
pub type SdpResult<T> = Result<T, SdpError>;

/// Result of the RTP and RTCP codecs.
pub type RtpResult<T> = Result<T, RtpError>;

/// Result of the SRTP transforms.
pub type SrtpResult<T> = Result<T, SrtpError>;

/// Failures of the session level operations.
#[derive(Debug)]
pub enum RtcError {
    InvalidConfiguration(String),
    InvalidState(String),
    NotImplemented(&'static str),
    Internal(String),
}

/// Failures of session description handling.
#[derive(Debug, Clone, PartialEq, Eq)]
pub enum SdpError {
    MissingLine(&'static str),
    Unsupported(String),
    Parse(String),
}

/// Failures of the RTP and RTCP codecs.
#[derive(Debug, Clone, PartialEq, Eq)]
pub enum RtpError {
    PacketTooShort,
    UnsupportedVersion(u8),
    InvalidHeader(&'static str),
    InvalidRtcp(&'static str),
    LengthMismatch,
}

/// Failures of the SRTP transforms.
#[derive(Debug, Clone, PartialEq, Eq)]
pub enum SrtpError {
    UnsupportedProfile,
    PacketTooShort,
    AuthenticationFailed,
    Internal(String),
}

/// What a failure of the session level operations says.
#[verifier::ext_equal]
pub enum RtcErrorView {
    InvalidConfiguration(Seq<char>),
    InvalidState(Seq<char>),
    NotImplemented(Seq<char>),
    Internal(Seq<char>),
}

impl View for RtcError {
    type V = RtcErrorView;

    open spec fn view(&self) -> RtcErrorView {
        match self {
            RtcError::InvalidConfiguration(s) => RtcErrorView::InvalidConfiguration(s@),
            RtcError::InvalidState(s) => RtcErrorView::InvalidState(s@),
            RtcError::NotImplemented(s) => RtcErrorView::NotImplemented(s@),
            RtcError::Internal(s) => RtcErrorView::Internal(s@),
        }
    }
}

impl RtcError {
    /// The text of the failure.
    pub open spec fn text(&self) -> Seq<char> {
        match self {
            RtcError::InvalidConfiguration(s) => "invalid configuration: "@ + s@,
            RtcError::InvalidState(s) => "invalid state: "@ + s@,
            RtcError::NotImplemented(s) => "not implemented: "@ + s@,
            RtcError::Internal(s) => "internal error: "@ + s@,
        }
    }

    /// The text of the failure.
    pub fn message(&self) -> (r: String)
        ensures
            r@ == self.text(),
    {
        match self {
            RtcError::InvalidConfiguration(s) => text::joined("invalid configuration: ", s.as_str()),
            RtcError::InvalidState(s) => text::joined("invalid state: ", s.as_str()),
            RtcError::NotImplemented(s) => text::joined("not implemented: ", s),
            RtcError::Internal(s) => text::joined("internal error: ", s.as_str()),
        }
    }
}

impl SdpError {
    /// The text of the failure.
    pub open spec fn text(&self) -> Seq<char> {
        match self {
            SdpError::MissingLine(s) => "missing required line: "@ + s@,
            SdpError::Unsupported(s) => "unsupported value: "@ + s@,
            SdpError::Parse(s) => "failed to parse SDP: "@ + s@,
        }
    }

    /// The text of the failure.
    pub fn message(&self) -> (r: String)
        ensures
            r@ == self.text(),
    {
        match self {
            SdpError::MissingLine(s) => text::joined("missing required line: ", s),
            SdpError::Unsupported(s) => text::joined("unsupported value: ", s.as_str()),
            SdpError::Parse(s) => text::joined("failed to parse SDP: ", s.as_str()),
        }
    }
}

impl RtpError {
    /// The text of the failure.
    pub open spec fn text(&self) -> Seq<char> {
        match self {
            RtpError::PacketTooShort => "RTP packet too short"@,
            RtpError::UnsupportedVersion(v) => "unsupported RTP version "@ + text::decimal(
                *v as nat,
            ),
            RtpError::InvalidHeader(s) => "invalid RTP header: "@ + s@,
            RtpError::InvalidRtcp(s) => "invalid RTCP packet: "@ + s@,
            RtpError::LengthMismatch => "buffer length mismatch"@,
        }
    }

    /// The text of the failure.
    pub fn message(&self) -> (r: String)
        ensures
            r@ == self.text(),
    {
        match self {
            RtpError::PacketTooShort => String::from_str("RTP packet too short"),
            RtpError::UnsupportedVersion(v) => {
                let mut out = String::from_str("unsupported RTP version ");
                text::push_decimal(&mut out, *v as u64);
                out
            },
            RtpError::InvalidHeader(s) => text::joined("invalid RTP header: ", s),
            RtpError::InvalidRtcp(s) => text::joined("invalid RTCP packet: ", s),
            RtpError::LengthMismatch => String::from_str("buffer length mismatch"),
        }
    }
}

/// What an SRTP failure says.
#[verifier::ext_equal]
pub enum SrtpErrorView {
    UnsupportedProfile,
    PacketTooShort,
    AuthenticationFailed,
    Internal(Seq<char>),
}

impl View for SrtpError {
    type V = SrtpErrorView;

    open spec fn view(&self) -> SrtpErrorView {
        match self {
            SrtpError::UnsupportedProfile => SrtpErrorView::UnsupportedProfile,
            SrtpError::PacketTooShort => SrtpErrorView::PacketTooShort,
            SrtpError::AuthenticationFailed => SrtpErrorView::AuthenticationFailed,
            SrtpError::Internal(s) => SrtpErrorView::Internal(s@),
        }
    }
}

impl SrtpError {
    /// The SRTP failure that a failure of the RTP codec amounts to.
    pub fn from_rtp(value: RtpError) -> (r: Self)
        ensures
            r@ == SrtpErrorView::Internal(value.text()),
    {
        SrtpError::Internal(value.message())
    }

    /// The text of the failure.
    pub open spec fn text(&self) -> Seq<char> {
        match self {
            SrtpError::UnsupportedProfile => "unsupported SRTP profile"@,
            SrtpError::PacketTooShort => "SRTP packet too short"@,
            SrtpError::AuthenticationFailed => "SRTP authentication failed"@,
            SrtpError::Internal(s) => "SRTP internal error: "@ + s@,
        }
    }

    /// The text of the failure.
    pub fn message(&self) -> (r: String)
        ensures
            r@ == self.text(),
    {
        match self {
            SrtpError::UnsupportedProfile => String::from_str("unsupported SRTP profile"),
            SrtpError::PacketTooShort => String::from_str("SRTP packet too short"),
            SrtpError::AuthenticationFailed => String::from_str("SRTP authentication failed"),
            SrtpError::Internal(s) => text::joined("SRTP internal error: ", s.as_str()),
        }
    }
}

} // verus!
