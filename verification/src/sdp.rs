//! Session descriptions: what the two ends offer and answer.
use vstd::prelude::*;
use vstd::string::*;

use crate::text;

verus! {

#[derive(Debug, Clone, Copy, PartialEq, Eq, Structural)]
pub enum SdpType {
    Offer,
    Answer,
    Pranswer,
    Rollback,
}

/// What a media section is about.
#[derive(Debug, Clone, Copy, PartialEq, Eq, Structural)]
pub enum MediaKind {
    Audio,
    Video,
    Application,
}

/// Which way media flows.
#[derive(Debug, Clone, Copy, PartialEq, Eq, Structural)]
pub enum Direction {
    SendRecv,
    SendOnly,
    RecvOnly,
    Inactive,
}

/// A property of a media section.
#[derive(Debug, Clone, PartialEq, Eq)]
pub struct Attribute {
    pub key: String,
    pub value: Option<String>,
}

/// A property of a media section.
#[verifier::ext_equal]
pub struct AttributeView {
    pub key: Seq<char>,
    pub value: Option<Seq<char>>,
}

/// The characters of optional text.
pub open spec fn optional(s: Option<String>) -> Option<Seq<char>> {
    match s {
        Some(x) => Some(x@),
        None => None,
    }
}

impl View for Attribute {
    type V = AttributeView;

    open spec fn view(&self) -> AttributeView {
        AttributeView { key: self.key@, value: optional(self.value) }
    }
}

/// A property with a value.
pub open spec fn valued(key: Seq<char>, value: Seq<char>) -> AttributeView {
    AttributeView { key, value: Some(value) }
}

/// A property without a value.
pub open spec fn flag(key: Seq<char>) -> AttributeView {
    AttributeView { key, value: None }
}

impl Attribute {
    pub fn new(key: &str, value: Option<String>) -> (r: Self)
        ensures
            r@ == (AttributeView { key: key@, value: optional(value) }),
    {
        Attribute { key: String::from_str(key), value }
    }
}

/// A media section of a session description.
#[derive(Debug, Clone, PartialEq, Eq)]
pub struct MediaSection {
    pub kind: MediaKind,
    pub mid: String,
    pub port: u16,
    pub protocol: String,
    pub formats: Vec<String>,
    pub direction: Direction,
    pub attributes: Vec<Attribute>,
    pub connection: Option<String>,
}

/// A media section of a session description.
#[verifier::ext_equal]
pub struct SectionView {
    pub kind: MediaKind,
    pub mid: Seq<char>,
    pub port: u16,
    pub protocol: Seq<char>,
    pub formats: Seq<Seq<char>>,
    pub direction: Direction,
    pub attributes: Seq<AttributeView>,
    pub connection: Option<Seq<char>>,
}

/// The views of some properties.
pub open spec fn attribute_views(attrs: Seq<Attribute>) -> Seq<AttributeView> {
    attrs.map_values(|a: Attribute| a@)
}

impl View for MediaSection {
    type V = SectionView;

    open spec fn view(&self) -> SectionView {
        SectionView {
            kind: self.kind,
            mid: self.mid@,
            port: self.port,
            protocol: self.protocol@,
            formats: text::string_views(self.formats@),
            direction: self.direction,
            attributes: attribute_views(self.attributes@),
            connection: optional(self.connection),
        }
    }
}

/// A section that says nothing yet: media over DTLS and SRTP, both ways, at the port that stands
/// for none.
pub open spec fn new_section(kind: MediaKind, mid: Seq<char>) -> SectionView {
    SectionView {
        kind,
        mid,
        port: 9,
        protocol: "UDP/TLS/RTP/SAVPF"@,
        formats: seq![],
        direction: Direction::SendRecv,
        attributes: seq![],
        connection: None,
    }
}

impl MediaSection {
    pub fn new(kind: MediaKind, mid: String) -> (r: Self)
        ensures
            r@ == new_section(kind, mid@),
    {
        let r = MediaSection {
            kind,
            mid,
            port: 9,
            protocol: String::from_str("UDP/TLS/RTP/SAVPF"),
            formats: Vec::new(),
            direction: Direction::SendRecv,
            attributes: Vec::new(),
            connection: None,
        };
        assert(text::string_views(r.formats@) =~= seq![]);
        assert(attribute_views(r.attributes@) =~= seq![]);
        r
    }

    /// Adds a property.
    pub fn push_attribute(&mut self, key: &str, value: Option<String>)
        ensures
            final(self)@ == (SectionView {
                attributes: old(self)@.attributes.push(
                    AttributeView { key: key@, value: optional(value) },
                ),
                ..old(self)@
            }),
    {
        let a = Attribute::new(key, value);
        let ghost before = self.attributes@;
        let ghost view = a@;
        self.attributes.push(a);
        assert(attribute_views(self.attributes@) =~= attribute_views(before).push(view));
    }

    /// Adds a property with a value.
    pub fn push_valued(&mut self, key: &str, value: String)
        ensures
            final(self)@ == (SectionView {
                attributes: old(self)@.attributes.push(valued(key@, value@)),
                ..old(self)@
            }),
    {
        self.push_attribute(key, Some(value));
    }

    /// Adds a property without a value.
    pub fn push_flag(&mut self, key: &str)
        ensures
            final(self)@ == (SectionView {
                attributes: old(self)@.attributes.push(flag(key@)),
                ..old(self)@
            }),
    {
        self.push_attribute(key, None);
    }
}

/// Who made a description, and its version.
#[derive(Debug, Clone, Copy, PartialEq, Eq, Structural)]
pub struct Origin {
    pub session_id: u64,
    pub session_version: u64,
}

/// The part of a description that is about all of the session.
#[derive(Debug, Clone, Copy, PartialEq, Eq, Structural)]
pub struct SessionSection {
    pub origin: Origin,
}

/// A session description.
#[derive(Debug, Clone, PartialEq, Eq)]
pub struct SessionDescription {
    pub sdp_type: SdpType,
    pub session: SessionSection,
    pub media_sections: Vec<MediaSection>,
}

/// A session description.
#[verifier::ext_equal]
pub struct DescriptionView {
    pub sdp_type: SdpType,
    pub session: SessionSection,
    pub media_sections: Seq<SectionView>,
}

/// The views of some media sections.
pub open spec fn section_views(sections: Seq<MediaSection>) -> Seq<SectionView> {
    sections.map_values(|s: MediaSection| s@)
}

impl View for SessionDescription {
    type V = DescriptionView;

    open spec fn view(&self) -> DescriptionView {
        DescriptionView {
            sdp_type: self.sdp_type,
            session: self.session,
            media_sections: section_views(self.media_sections@),
        }
    }
}

/// The view of a description, if there is one.
pub open spec fn description_view(d: Option<SessionDescription>) -> Option<DescriptionView> {
    match d {
        Some(d) => Some(d@),
        None => None,
    }
}

impl SessionDescription {
    /// A description without media sections.
    pub fn new(sdp_type: SdpType) -> (r: Self)
        ensures
            r@ == (DescriptionView {
                sdp_type,
                session: SessionSection { origin: Origin { session_id: 0, session_version: 0 } },
                media_sections: seq![],
            }),
    {
        let r = SessionDescription {
            sdp_type,
            session: SessionSection { origin: Origin { session_id: 0, session_version: 0 } },
            media_sections: Vec::new(),
        };
        assert(section_views(r.media_sections@) =~= seq![]);
        r
    }
}

} // verus!
