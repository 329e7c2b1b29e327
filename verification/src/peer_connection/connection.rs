//! The state of a connection: what was offered and answered, its media, and when to start DTLS.
use vstd::prelude::*;
use vstd::string::*;

use crate::config::{RtcConfiguration, TransportMode};
use crate::crypto;
use crate::errors::{RtcError, RtcErrorView, RtcResult};
use crate::media::frame;
use crate::peer_connection::capabilities;
use crate::peer_connection::remote;
use crate::peer_connection::remote::RemotePlan;
use crate::peer_connection::transceiver;
use crate::peer_connection::transceiver::{
    RtpReceiver, RtpSender, RtpTransceiver, TransceiverDirection, TransceiverView,
};
use crate::sdp;
use crate::sdp::{
    AttributeView, DescriptionView, Direction, MediaKind, MediaSection, Origin, SdpType,
    SectionView, SessionDescription, SessionSection,
};
use crate::text;
use crate::transports::dtls::certificate;
use crate::transports::dtls::{Certificate, DtlsError};
use crate::transports::ice::address::SocketAddr;
use crate::transports::ice::candidate;
use crate::transports::ice::candidate::{
    CandidateView, IceCandidate, IceGathererState, IceParameters, IceRole, IceTransportState,
    ParametersView,
};
use crate::transports::ice::transport::{IceTransport, IceView};
use crate::transports::sctp;
use crate::transports::sctp::{ChunkView, DataChannelState, SctpTransport};

verus! {

#[derive(Debug, Clone, Copy, PartialEq, Eq, Structural)]
pub enum PeerConnectionState {
    New,
    Connecting,
    Connected,
    Disconnected,
    Failed,
    Closed,
}

#[derive(Debug, Clone, Copy, PartialEq, Eq, Structural)]
pub enum SignalingState {
    Stable,
    HaveLocalOffer,
    HaveRemoteOffer,
    Closed,
}

#[derive(Debug, Clone, Copy, PartialEq, Eq, Structural)]
pub enum IceConnectionState {
    New,
    Checking,
    Connected,
    Completed,
    Failed,
    Disconnected,
    Closed,
}

#[derive(Debug, Clone, Copy, PartialEq, Eq, Structural)]
pub enum IceGatheringState {
    New,
    Gathering,
    Complete,
}

impl SignalingState {
    /// The name of the state.
    pub open spec fn name(self) -> Seq<char> {
        match self {
            SignalingState::Stable => "Stable"@,
            SignalingState::HaveLocalOffer => "HaveLocalOffer"@,
            SignalingState::HaveRemoteOffer => "HaveRemoteOffer"@,
            SignalingState::Closed => "Closed"@,
        }
    }

    fn as_str(&self) -> (r: &'static str)
        ensures
            r@ == self.name(),
    {
        match self {
            SignalingState::Stable => "Stable",
            SignalingState::HaveLocalOffer => "HaveLocalOffer",
            SignalingState::HaveRemoteOffer => "HaveRemoteOffer",
            SignalingState::Closed => "Closed",
        }
    }
}

/// The state after this end described itself, or why it cannot.
pub open spec fn local_transition(state: SignalingState, t: SdpType) -> Result<
    SignalingState,
    RtcErrorView,
> {
    match t {
        SdpType::Offer => if state == SignalingState::Stable {
            Ok(SignalingState::HaveLocalOffer)
        } else {
            Err(
                RtcErrorView::InvalidState(
                    "set_local_description(offer) requires stable signaling state"@,
                ),
            )
        },
        SdpType::Answer => if state == SignalingState::HaveRemoteOffer {
            Ok(SignalingState::Stable)
        } else {
            Err(
                RtcErrorView::InvalidState("set_local_description(answer) requires remote offer"@),
            )
        },
        _ => Err(RtcErrorView::NotImplemented("pranswer/rollback"@)),
    }
}

/// The state after the other end described itself, or why it cannot.
pub open spec fn remote_transition(state: SignalingState, t: SdpType) -> Result<
    SignalingState,
    RtcErrorView,
> {
    match t {
        SdpType::Offer => if state == SignalingState::Stable {
            Ok(SignalingState::HaveRemoteOffer)
        } else {
            Err(
                RtcErrorView::InvalidState(
                    "set_remote_description(offer) requires stable signaling state"@,
                ),
            )
        },
        SdpType::Answer => if state == SignalingState::HaveLocalOffer {
            Ok(SignalingState::Stable)
        } else {
            Err(
                RtcErrorView::InvalidState("set_remote_description(answer) requires local offer"@),
            )
        },
        _ => Err(RtcErrorView::NotImplemented("pranswer/rollback"@)),
    }
}

/// An offer of either end and the answer of the other lead back to the stable state.
pub proof fn law_negotiation_is_a_round()
    ensures
        local_transition(SignalingState::Stable, SdpType::Offer) matches Ok(s)
            && remote_transition(s, SdpType::Answer) == Ok::<SignalingState, RtcErrorView>(
            SignalingState::Stable,
        ),
        remote_transition(SignalingState::Stable, SdpType::Offer) matches Ok(s)
            && local_transition(s, SdpType::Answer) == Ok::<SignalingState, RtcErrorView>(
            SignalingState::Stable,
        ),
{
}

/// While one offer is open there is no second one, an answer comes from the end that did not
/// offer, and a connection that was closed takes no description.
pub proof fn law_negotiation_is_in_turn(state: SignalingState, t: SdpType)
    ensures
        state != SignalingState::Stable ==> local_transition(state, SdpType::Offer) is Err
            && remote_transition(state, SdpType::Offer) is Err,
        state == SignalingState::HaveLocalOffer ==> local_transition(state, t) is Err,
        state == SignalingState::HaveRemoteOffer ==> remote_transition(state, t) is Err,
        state == SignalingState::Closed ==> local_transition(state, t) is Err && remote_transition(
            state,
            t,
        ) is Err,
{
}

/// The state of a connection.
pub struct PeerConnection {
    config: RtcConfiguration,
    certificate: Certificate,
    dtls_fingerprint: String,
    signaling_state: SignalingState,
    peer_state: PeerConnectionState,
    ice_connection_state: IceConnectionState,
    ice_gathering_state: IceGatheringState,
    local_description: Option<SessionDescription>,
    remote_description: Option<SessionDescription>,
    transceivers: Vec<RtpTransceiver>,
    next_mid: u16,
    dtls_role: Option<bool>,
    sctp_connected: bool,
}

/// The state of a connection. `dtls_role` is whether this end starts the handshake, once that is
/// known.
#[verifier::ext_equal]
pub struct PeerView {
    pub config: RtcConfiguration,
    pub certificate: Certificate,
    pub dtls_fingerprint: Seq<char>,
    pub signaling_state: SignalingState,
    pub peer_state: PeerConnectionState,
    pub ice_connection_state: IceConnectionState,
    pub ice_gathering_state: IceGatheringState,
    pub local_description: Option<DescriptionView>,
    pub remote_description: Option<DescriptionView>,
    pub transceivers: Seq<TransceiverView>,
    pub next_mid: u16,
    pub dtls_role: Option<bool>,
    pub sctp_connected: bool,
}

impl View for PeerConnection {
    type V = PeerView;

    closed spec fn view(&self) -> PeerView {
        PeerView {
            config: self.config,
            certificate: self.certificate,
            dtls_fingerprint: self.dtls_fingerprint@,
            signaling_state: self.signaling_state,
            peer_state: self.peer_state,
            ice_connection_state: self.ice_connection_state,
            ice_gathering_state: self.ice_gathering_state,
            local_description: sdp::description_view(self.local_description),
            remote_description: sdp::description_view(self.remote_description),
            transceivers: transceiver::transceiver_views(self.transceivers@),
            next_mid: self.next_mid,
            dtls_role: self.dtls_role,
            sctp_connected: self.sctp_connected,
        }
    }
}

/// A new connection.
pub open spec fn new_connection(
    config: RtcConfiguration,
    certificate: Certificate,
    dtls_fingerprint: Seq<char>,
) -> PeerView {
    PeerView {
        config,
        certificate,
        dtls_fingerprint,
        signaling_state: SignalingState::Stable,
        peer_state: PeerConnectionState::New,
        ice_connection_state: IceConnectionState::New,
        ice_gathering_state: IceGatheringState::New,
        local_description: None,
        remote_description: None,
        transceivers: seq![],
        next_mid: 0,
        dtls_role: None,
        sctp_connected: false,
    }
}

/// What to do about DTLS.
#[derive(Debug, Clone, Copy, PartialEq, Eq, Structural)]
pub enum Supervision {
    /// Start it, as the client or the server.
    Start(bool),
    /// Wait for another state or a role.
    Wait,
    /// It will never start.
    Stop,
}

/// What to do about DTLS, by the state of ICE and the role of this end: once packets can flow and
/// the role is known, it starts.
pub open spec fn supervision(ice: IceTransportState, role: Option<bool>) -> Supervision {
    match ice {
        IceTransportState::Connected => match role {
            Some(is_client) => Supervision::Start(is_client),
            None => Supervision::Wait,
        },
        IceTransportState::Failed => Supervision::Stop,
        IceTransportState::Closed => Supervision::Stop,
        _ => Supervision::Wait,
    }
}

/// What to do about DTLS, by the state of ICE and the role of this end.
pub fn supervise(ice: IceTransportState, role: Option<bool>) -> (r: Supervision)
    ensures
        r == supervision(ice, role),
{
    match ice {
        IceTransportState::Connected => match role {
            Some(is_client) => Supervision::Start(is_client),
            None => Supervision::Wait,
        },
        IceTransportState::Failed => Supervision::Stop,
        IceTransportState::Closed => Supervision::Stop,
        _ => Supervision::Wait,
    }
}

/// How DTLS starts: where packets go, and whether there is a handshake at all.
#[derive(Debug, Clone, Copy, PartialEq, Eq, Structural)]
pub struct DtlsPlan {
    pub remote: SocketAddr,
    pub handshake: bool,
}

/// How DTLS starts, or why it cannot.
pub open spec fn dtls_plan(v: PeerView, ice: IceView, has_socket: bool) -> Result<
    DtlsPlan,
    RtcErrorView,
> {
    match ice.selected_pair {
        None => Err(RtcErrorView::Internal("No selected pair"@)),
        Some(p) => if !has_socket {
            Err(RtcErrorView::Internal("No selected socket"@))
        } else {
            Ok(
                DtlsPlan {
                    remote: p.remote.address,
                    handshake: v.config.transport_mode != TransportMode::Rtp,
                },
            )
        },
    }
}

/// The media of a connection, each with a name; those that had none are numbered from `next` on.
/// Also the next number after that.
pub open spec fn named(ts: Seq<TransceiverView>, next: u16) -> (Seq<TransceiverView>, u16)
    decreases ts.len(),
{
    if ts.len() == 0 {
        (seq![], next)
    } else {
        let (first, n) = named(ts.drop_last(), next);
        match ts.last().mid {
            Some(_) => (first.push(ts.last()), n),
            None => (
                first.push(
                    TransceiverView { mid: Some(text::decimal(n as nat)), ..ts.last() },
                ),
                ((n + 1) % 0x1_0000) as u16,
            ),
        }
    }
}

/// Naming keeps every medium in its place, leaves a name that is there as it is, and gives one to
/// each that has none.
pub proof fn law_names_are_kept(ts: Seq<TransceiverView>, next: u16, i: int)
    requires
        0 <= i < ts.len(),
    ensures
        named(ts, next).0.len() == ts.len(),
        named(ts, next).0[i].mid is Some,
        ts[i].mid is Some ==> named(ts, next).0[i] == ts[i],
        named(ts, next).0[i] == (TransceiverView { mid: named(ts, next).0[i].mid, ..ts[i] }),
    decreases ts.len(),
{
    lemma_named_len(ts.drop_last(), next);
    if i < ts.len() - 1 {
        law_names_are_kept(ts.drop_last(), next, i);
    }
}

proof fn lemma_named_len(ts: Seq<TransceiverView>, next: u16)
    ensures
        named(ts, next).0.len() == ts.len(),
    decreases ts.len(),
{
    if ts.len() > 0 {
        lemma_named_len(ts.drop_last(), next);
    }
}

/// The properties of a section that ICE needs.
pub open spec fn ice_properties(
    params: ParametersView,
    candidates: Seq<CandidateView>,
    complete: bool,
) -> Seq<AttributeView> {
    seq![
        sdp::valued("ice-ufrag"@, params.username_fragment),
        sdp::valued("ice-pwd"@, params.password),
        sdp::valued("ice-options"@, "trickle"@),
    ] + candidates.map_values(
        |c: CandidateView|
            sdp::valued("candidate"@, text::spaced(candidate::candidate_words(c))),
    ) + if complete {
        seq![sdp::flag("end-of-candidates"@)]
    } else {
        seq![]
    }
}

/// The direction of a medium in a description of this type.
pub open spec fn direction_in(d: TransceiverDirection, t: SdpType) -> Direction {
    (if t == SdpType::Answer {
        d.answered()
    } else {
        d
    }).described()
}

/// The section of a medium, before what it offers: where and how packets flow.
pub open spec fn reachable(
    kind: MediaKind,
    mid: Seq<char>,
    direction: Direction,
    mode: TransportMode,
    ice: IceView,
) -> SectionView {
    let s = SectionView { direction, ..sdp::new_section(kind, mid) };
    match mode {
        TransportMode::WebRtc => SectionView {
            attributes: ice_properties(
                ice.local_parameters,
                ice.gatherer.candidates,
                ice.gatherer.state == IceGathererState::Complete,
            ),
            ..s
        },
        _ => {
            let p = if mode == TransportMode::Rtp {
                SectionView { protocol: "RTP/AVPF"@, ..s }
            } else {
                s
            };
            if ice.gatherer.candidates.len() > 0 {
                let first = ice.gatherer.candidates[0].address;
                SectionView {
                    port: first.port,
                    connection: Some("IN IP4 "@ + first.ip.text()),
                    ..p
                }
            } else {
                p
            }
        },
    }
}

/// The section of a medium in a description.
pub open spec fn section_of(v: PeerView, t: TransceiverView, sdp_type: SdpType, ice: IceView) -> SectionView {
    capabilities::populated(
        reachable(
            t.kind,
            t.mid->0,
            direction_in(t.direction, sdp_type),
            v.config.transport_mode,
            ice,
        ),
        t.kind,
        sdp_type,
        v.config,
        v.dtls_fingerprint,
    )
}

/// The description of this end at the time `now`.
pub open spec fn described(v: PeerView, sdp_type: SdpType, ice: IceView, now: u64) -> DescriptionView {
    DescriptionView {
        sdp_type,
        session: SessionSection {
            origin: Origin { session_id: now, session_version: (now + 1) as u64 },
        },
        media_sections: named(v.transceivers, v.next_mid).0.map_values(
            |t: TransceiverView| section_of(v, t, sdp_type, ice),
        ),
    }
}

/// The connection after it was described: all media have names.
pub open spec fn all_named(v: PeerView) -> PeerView {
    let (transceivers, next_mid) = named(v.transceivers, v.next_mid);
    PeerView { transceivers, next_mid, ..v }
}

/// Why no offer can be made, if so.
pub open spec fn offer_error(v: PeerView) -> Option<RtcErrorView> {
    if v.signaling_state != SignalingState::Stable {
        Some(
            RtcErrorView::InvalidState(
                "cannot create offer while in state "@ + v.signaling_state.name(),
            ),
        )
    } else {
        None
    }
}

/// Why no answer can be made, if so.
pub open spec fn answer_error(v: PeerView) -> Option<RtcErrorView> {
    if v.signaling_state != SignalingState::HaveRemoteOffer {
        Some(RtcErrorView::InvalidState("create_answer requires remote offer"@))
    } else {
        None
    }
}

/// Why there is nothing to describe, if so.
pub open spec fn empty_error(v: PeerView) -> Option<RtcErrorView> {
    if v.transceivers.len() == 0 {
        Some(RtcErrorView::InvalidState("cannot build SDP with no transceivers"@))
    } else {
        None
    }
}

/// The failure of a result, if it is one.
pub open spec fn error_of<T>(r: RtcResult<T>) -> Option<RtcErrorView> {
    match r {
        Ok(_) => None,
        Err(e) => Some(e@),
    }
}

/// One failure, or else another.
pub open spec fn first_error(a: Option<RtcErrorView>, b: Option<RtcErrorView>) -> Option<RtcErrorView> {
    match a {
        Some(e) => Some(e),
        None => b,
    }
}

/// Whether a medium has this name.
pub open spec fn has_mid(ts: Seq<TransceiverView>, mid: Seq<char>) -> bool {
    exists|i: int| 0 <= i < ts.len() && (#[trigger] ts[i]).mid == Some(mid)
}

/// The medium that is added for a section of an offer.
pub open spec fn received_medium(id: u64, s: SectionView, count: nat) -> TransceiverView {
    TransceiverView {
        id,
        kind: s.kind,
        direction: TransceiverDirection::RecvOnly,
        mid: Some(s.mid),
        sender: None,
        receiver: Some(
            transceiver::new_receiver(s.kind, ((2000 + count) % 0x1_0000_0000) as u32),
        ),
    }
}

/// The media after the sections of an offer: one is added for each name that is new, numbered
/// from `id` on.
pub open spec fn with_sections(
    ts: Seq<TransceiverView>,
    sections: Seq<SectionView>,
    id: u64,
) -> Seq<TransceiverView>
    decreases sections.len(),
{
    if sections.len() == 0 {
        ts
    } else {
        let before = with_sections(ts, sections.drop_last(), id);
        let s = sections.last();
        if has_mid(before, s.mid) {
            before
        } else {
            before.push(
                received_medium(
                    ((id + (before.len() - ts.len())) % 0x1_0000_0000_0000_0000) as u64,
                    s,
                    before.len(),
                ),
            )
        }
    }
}

/// After the sections of an offer the media that were there are there, and each section has one
/// with its name.
pub proof fn law_sections_have_media(
    ts: Seq<TransceiverView>,
    sections: Seq<SectionView>,
    id: u64,
    i: int,
)
    requires
        0 <= i < sections.len(),
    ensures
        with_sections(ts, sections, id).len() >= ts.len(),
        with_sections(ts, sections, id).subrange(0, ts.len() as int) == ts,
        has_mid(with_sections(ts, sections, id), sections[i].mid),
    decreases sections.len(),
{
    let init = sections.drop_last();
    let before = with_sections(ts, init, id);
    let after = with_sections(ts, sections, id);
    if init.len() > 0 {
        law_sections_have_media(ts, init, id, if i < init.len() { i } else { 0 });
    } else {
        assert(before.subrange(0, ts.len() as int) =~= ts);
    }
    assert(after.subrange(0, ts.len() as int) =~= before.subrange(0, ts.len() as int));
    if i < init.len() {
        let k = choose|k: int| 0 <= k < before.len() && (#[trigger] before[k]).mid == Some(
            sections[i].mid,
        );
        assert(after[k].mid == Some(sections[i].mid));
    } else if !has_mid(before, sections.last().mid) {
        assert(after[before.len() as int].mid == Some(sections[i].mid));
    }
}

fn invalid_state(s: &str) -> (r: RtcError)
    ensures
        r@ == RtcErrorView::InvalidState(s@),
{
    RtcError::InvalidState(String::from_str(s))
}

/// Puts into a section how ICE reaches this end.
fn push_ice(
    section: &mut MediaSection,
    params: &IceParameters,
    candidates: &Vec<IceCandidate>,
    complete: bool,
)
    ensures
        final(section)@ == (SectionView {
            attributes: old(section)@.attributes + ice_properties(
                params@,
                candidate::candidate_views(candidates@),
                complete,
            ),
            ..old(section)@
        }),
{
    let ghost start = section@.attributes;
    section.push_valued("ice-ufrag", params.username_fragment.clone());
    section.push_valued("ice-pwd", params.password.clone());
    section.push_valued("ice-options", String::from_str("trickle"));
    let ghost first = section@;
    let ghost views = candidate::candidate_views(candidates@);
    let ghost lines = views.map_values(
        |c: CandidateView|
            sdp::valued("candidate"@, text::spaced(candidate::candidate_words(c))),
    );
    let n: usize = candidates.len();
    let mut i: usize = 0;
    assert(first.attributes =~= first.attributes + lines.subrange(0, 0));
    while i < n
        invariant
            n == candidates@.len(),
            views == candidate::candidate_views(candidates@),
            lines == views.map_values(
                |c: CandidateView|
                    sdp::valued("candidate"@, text::spaced(candidate::candidate_words(c))),
            ),
            i <= n,
            section@ == (SectionView {
                attributes: first.attributes + lines.subrange(0, i as int),
                ..first
            }),
        decreases n - i,
    {
        assert(views[i as int] == candidates@[i as int]@);
        section.push_valued("candidate", candidates[i].to_sdp());
        i += 1;
        assert(section@.attributes =~= first.attributes + lines.subrange(0, i as int));
    }
    assert(lines.subrange(0, n as int) =~= lines);
    if complete {
        section.push_flag("end-of-candidates");
    }
    assert(section@.attributes =~= start + ice_properties(params@, views, complete));
}

/// The section of a medium, before what it offers.
fn reachable_section(
    kind: MediaKind,
    mid: String,
    direction: Direction,
    mode: TransportMode,
    ice: &IceTransport,
) -> (section: MediaSection)
    ensures
        section@ == reachable(kind, mid@, direction, mode, ice@),
{
    let mut section = MediaSection::new(kind, mid);
    section.direction = direction;
    if mode == TransportMode::Rtp {
        section.protocol = String::from_str("RTP/AVPF");
    }
    let candidates = ice.local_candidates();
    assert(candidate::candidate_views(candidates@).len() == candidates@.len());
    if mode == TransportMode::WebRtc {
        let params = ice.local_parameters();
        let complete = ice.gather_state() == IceGathererState::Complete;
        push_ice(&mut section, &params, &candidates, complete);
        assert(section@.attributes =~= reachable(kind, mid@, direction, mode, ice@).attributes);
    } else if candidates.len() > 0 {
        assert(candidate::candidate_views(candidates@)[0] == candidates@[0]@);
        let first = candidates[0].address;
        section.port = first.port;
        let mut connection = String::from_str("IN IP4 ");
        connection.append(first.ip.to_text().as_str());
        section.connection = Some(connection);
    }
    section
}

impl PeerConnection {
    /// A connection with the given certificate.
    pub fn with_certificate(config: RtcConfiguration, certificate: Certificate) -> (r: Self)
        requires
            certificate.certificate@.len() > 0,
        ensures
            r@ == new_connection(
                config,
                certificate,
                certificate::colon_hex(crypto::sha256(certificate.certificate@[0]@)),
            ),
    {
        let dtls_fingerprint = certificate::fingerprint(&certificate);
        let r = PeerConnection {
            config,
            certificate,
            dtls_fingerprint,
            signaling_state: SignalingState::Stable,
            peer_state: PeerConnectionState::New,
            ice_connection_state: IceConnectionState::New,
            ice_gathering_state: IceGatheringState::New,
            local_description: None,
            remote_description: None,
            transceivers: Vec::new(),
            next_mid: 0,
            dtls_role: None,
            sctp_connected: false,
        };
        assert(transceiver::transceiver_views(r.transceivers@) =~= seq![]);
        r
    }

    /// A connection with a fresh certificate.
    pub fn new(config: RtcConfiguration) -> (r: Result<Self, DtlsError>)
        ensures
            match r {
                Ok(pc) => pc@.certificate.certificate@.len() == 1 && pc@ == new_connection(
                    config,
                    pc@.certificate,
                    certificate::colon_hex(crypto::sha256(pc@.certificate.certificate@[0]@)),
                ),
                Err(e) => e == DtlsError::Certificate,
            },
    {
        match certificate::generate_certificate() {
            Ok(certificate) => Ok(PeerConnection::with_certificate(config, certificate)),
            Err(e) => Err(e),
        }
    }

    pub fn config(&self) -> (r: &RtcConfiguration)
        ensures
            *r == self@.config,
    {
        &self.config
    }

    /// The certificate of this end.
    pub fn certificate(&self) -> (r: &Certificate)
        ensures
            *r == self@.certificate,
    {
        &self.certificate
    }

    pub fn signaling_state(&self) -> (r: SignalingState)
        ensures
            r == self@.signaling_state,
    {
        self.signaling_state
    }

    pub fn peer_state(&self) -> (r: PeerConnectionState)
        ensures
            r == self@.peer_state,
    {
        self.peer_state
    }

    pub fn ice_connection_state(&self) -> (r: IceConnectionState)
        ensures
            r == self@.ice_connection_state,
    {
        self.ice_connection_state
    }

    pub fn ice_gathering_state(&self) -> (r: IceGatheringState)
        ensures
            r == self@.ice_gathering_state,
    {
        self.ice_gathering_state
    }

    /// Whether this end starts the handshake, once that is known.
    pub fn dtls_role(&self) -> (r: Option<bool>)
        ensures
            r == self@.dtls_role,
    {
        self.dtls_role
    }

    pub fn local_description(&self) -> (r: &Option<SessionDescription>)
        ensures
            sdp::description_view(*r) == self@.local_description,
    {
        &self.local_description
    }

    pub fn remote_description(&self) -> (r: &Option<SessionDescription>)
        ensures
            sdp::description_view(*r) == self@.remote_description,
    {
        &self.remote_description
    }

    pub fn get_transceivers(&self) -> (r: &Vec<RtpTransceiver>)
        ensures
            transceiver::transceiver_views(r@) == self@.transceivers,
    {
        &self.transceivers
    }

    /// Adds a medium, known as `id`. Gives its place.
    pub fn add_transceiver(
        &mut self,
        kind: MediaKind,
        direction: TransceiverDirection,
        id: u64,
    ) -> (index: usize)
        ensures
            index == old(self)@.transceivers.len(),
            final(self)@ == (PeerView {
                transceivers: old(self)@.transceivers.push(
                    TransceiverView {
                        id,
                        kind,
                        direction,
                        mid: None,
                        sender: None,
                        receiver: Some(transceiver::new_receiver(kind, 67890)),
                    },
                ),
                ..old(self)@
            }),
    {
        let index: usize = self.transceivers.len();
        let mut t = RtpTransceiver::new(id, kind, direction);
        t.receiver = Some(RtpReceiver::new(kind, 67890));
        let ghost before = self.transceivers@;
        let ghost view = t@;
        self.transceivers.push(t);
        assert(transceiver::transceiver_views(self.transceivers@)
            =~= transceiver::transceiver_views(before).push(view));
        index
    }

    /// Adds a medium that sends a track and receives, known as `id`. Gives its place.
    pub fn add_track(&mut self, kind: frame::MediaKind, id: u64) -> (index: usize)
        ensures
            index == old(self)@.transceivers.len(),
            final(self)@ == (PeerView {
                transceivers: old(self)@.transceivers.push(
                    TransceiverView {
                        id,
                        kind: match kind {
                            frame::MediaKind::Audio => MediaKind::Audio,
                            frame::MediaKind::Video => MediaKind::Video,
                        },
                        direction: TransceiverDirection::SendRecv,
                        mid: None,
                        sender: Some(
                            RtpSender {
                                ssrc: 12345,
                                params: transceiver::parameters_for(kind),
                                sequence_number: 0,
                                last_timestamp: None,
                            },
                        ),
                        receiver: Some(
                            transceiver::new_receiver(
                                match kind {
                                    frame::MediaKind::Audio => MediaKind::Audio,
                                    frame::MediaKind::Video => MediaKind::Video,
                                },
                                67890,
                            ),
                        ),
                    },
                ),
                ..old(self)@
            }),
    {
        let media = match kind {
            frame::MediaKind::Audio => MediaKind::Audio,
            frame::MediaKind::Video => MediaKind::Video,
        };
        let index: usize = self.transceivers.len();
        let mut t = RtpTransceiver::new(id, media, TransceiverDirection::SendRecv);
        t.receiver = Some(RtpReceiver::new(media, 67890));
        t.sender = Some(RtpSender::new(kind, 12345));
        let ghost before = self.transceivers@;
        let ghost view = t@;
        self.transceivers.push(t);
        assert(transceiver::transceiver_views(self.transceivers@)
            =~= transceiver::transceiver_views(before).push(view));
        index
    }

    /// Changes the direction of the medium at this place.
    pub fn set_direction(&mut self, index: usize, direction: TransceiverDirection)
        requires
            index < old(self)@.transceivers.len(),
        ensures
            final(self)@ == (PeerView {
                transceivers: old(self)@.transceivers.update(
                    index as int,
                    TransceiverView { direction, ..old(self)@.transceivers[index as int] },
                ),
                ..old(self)@
            }),
    {
        let ghost before = self.transceivers@;
        self.transceivers[index].set_direction(direction);
        assert(transceiver::transceiver_views(self.transceivers@)
            =~= transceiver::transceiver_views(before).update(
            index as int,
            TransceiverView { direction, ..before[index as int]@ },
        ));
    }

    /// Starts an offer: this end controls ICE. Candidates are gathered next.
    pub fn start_offer(&self, ice: &mut IceTransport) -> (r: RtcResult<()>)
        ensures
            error_of(r) == first_error(offer_error(self@), empty_error(self@)),
            final(ice)@ == if offer_error(self@) is Some {
                old(ice)@
            } else {
                IceView { role: IceRole::Controlling, ..old(ice)@ }
            },
    {
        if self.signaling_state != SignalingState::Stable {
            return Err(self.no_offer());
        }
        ice.set_role(IceRole::Controlling);
        self.check_media()
    }

    /// Starts an answer: the other end controls ICE. Candidates are gathered next.
    pub fn start_answer(&self, ice: &mut IceTransport) -> (r: RtcResult<()>)
        ensures
            error_of(r) == first_error(answer_error(self@), empty_error(self@)),
            final(ice)@ == if answer_error(self@) is Some {
                old(ice)@
            } else {
                IceView { role: IceRole::Controlled, ..old(ice)@ }
            },
    {
        if self.signaling_state != SignalingState::HaveRemoteOffer {
            return Err(invalid_state("create_answer requires remote offer"));
        }
        ice.set_role(IceRole::Controlled);
        self.check_media()
    }

    fn no_offer(&self) -> (r: RtcError)
        ensures
            r@ == RtcErrorView::InvalidState(
                "cannot create offer while in state "@ + self@.signaling_state.name(),
            ),
    {
        RtcError::InvalidState(
            text::joined("cannot create offer while in state ", self.signaling_state.as_str()),
        )
    }

    fn check_media(&self) -> (r: RtcResult<()>)
        ensures
            error_of(r) == empty_error(self@),
    {
        assert(self@.transceivers.len() == self.transceivers@.len());
        if self.transceivers.len() == 0 {
            return Err(invalid_state("cannot build SDP with no transceivers"));
        }
        Ok(())
    }

    /// The offer of this end at the time `now`, in seconds, with the candidates that were found.
    pub fn create_offer(&mut self, ice: &IceTransport, now: u64) -> (r: RtcResult<
        SessionDescription,
    >)
        requires
            now < u64::MAX,
        ensures
            error_of(r) == first_error(offer_error(old(self)@), empty_error(old(self)@)),
            r matches Ok(d) ==> d@ == described(old(self)@, SdpType::Offer, ice@, now),
            final(self)@ == if r is Ok {
                all_named(old(self)@)
            } else {
                old(self)@
            },
    {
        if self.signaling_state != SignalingState::Stable {
            return Err(self.no_offer());
        }
        match self.check_media() {
            Err(e) => Err(e),
            Ok(_) => Ok(self.build_description(SdpType::Offer, ice, now)),
        }
    }

    /// The answer of this end at the time `now`, in seconds, with the candidates that were found.
    pub fn create_answer(&mut self, ice: &IceTransport, now: u64) -> (r: RtcResult<
        SessionDescription,
    >)
        requires
            now < u64::MAX,
        ensures
            error_of(r) == first_error(answer_error(old(self)@), empty_error(old(self)@)),
            r matches Ok(d) ==> d@ == described(old(self)@, SdpType::Answer, ice@, now),
            final(self)@ == if r is Ok {
                all_named(old(self)@)
            } else {
                old(self)@
            },
    {
        if self.signaling_state != SignalingState::HaveRemoteOffer {
            return Err(invalid_state("create_answer requires remote offer"));
        }
        match self.check_media() {
            Err(e) => Err(e),
            Ok(_) => Ok(self.build_description(SdpType::Answer, ice, now)),
        }
    }

    /// The name of the next medium without one.
    pub fn allocate_mid(&mut self) -> (r: String)
        ensures
            r@ == text::decimal(old(self)@.next_mid as nat),
            final(self)@ == (PeerView {
                next_mid: ((old(self)@.next_mid + 1) % 0x1_0000) as u16,
                ..old(self)@
            }),
    {
        let mid: u16 = self.next_mid;
        self.next_mid = mid.wrapping_add(1);
        text::decimal_string(mid as u64)
    }

    /// Names the medium at a place, if it has no name. Gives its name.
    fn ensure_mid(&mut self, i: usize) -> (r: String)
        requires
            i < old(self)@.transceivers.len(),
        ensures
            match old(self)@.transceivers[i as int].mid {
                Some(m) => r@ == m && final(self)@ == old(self)@,
                None => {
                    &&& r@ == text::decimal(old(self)@.next_mid as nat)
                    &&& final(self)@ == (PeerView {
                        next_mid: ((old(self)@.next_mid + 1) % 0x1_0000) as u16,
                        transceivers: old(self)@.transceivers.update(
                            i as int,
                            TransceiverView {
                                mid: Some(r@),
                                ..old(self)@.transceivers[i as int]
                            },
                        ),
                        ..old(self)@
                    })
                },
            },
    {
        assert(self@.transceivers.len() == self.transceivers@.len());
        assert(self@.transceivers[i as int] == self.transceivers@[i as int]@);
        if let Some(mid) = self.transceivers[i].mid() {
            return mid;
        }
        let mid = self.allocate_mid();
        let ghost before = self@.transceivers;
        assert(self@.transceivers.len() == self.transceivers@.len());
        assert(self@.transceivers[i as int] == self.transceivers@[i as int]@);
        self.transceivers[i].set_mid(mid.clone());
        assert(self@.transceivers =~= before.update(
            i as int,
            TransceiverView { mid: Some(mid@), ..before[i as int] },
        ));
        mid
    }

    fn build_description(&mut self, sdp_type: SdpType, ice: &IceTransport, now: u64) -> (desc:
        SessionDescription)
        requires
            now < u64::MAX,
            sdp_type == SdpType::Offer || sdp_type == SdpType::Answer,
        ensures
            desc@ == described(old(self)@, sdp_type, ice@, now),
            final(self)@ == all_named(old(self)@),
    {
        let ghost v = self@;
        let ghost ts = self@.transceivers;
        let mut desc = SessionDescription::new(sdp_type);
        desc.session.origin.session_id = now;
        desc.session.origin.session_version = now;
        desc.session.origin.session_version = desc.session.origin.session_version + 1;
        let mode = self.config.transport_mode;
        let n: usize = self.transceivers.len();
        let mut i: usize = 0;
        assert(ts.len() == n);
        proof {
            assert(named(ts.subrange(0, 0), v.next_mid).0 + ts.subrange(0, n as int) =~= ts);
            assert(sdp::section_views(desc.media_sections@) =~= named(
                ts.subrange(0, 0),
                v.next_mid,
            ).0.map_values(|t: TransceiverView| section_of(v, t, sdp_type, ice@)));
        }
        while i < n
            invariant
                n == ts.len(),
                v == old(self)@,
                ts == v.transceivers,
                mode == v.config.transport_mode,
                i <= n,
                self@ == (PeerView {
                    transceivers: named(ts.subrange(0, i as int), v.next_mid).0 + ts.subrange(
                        i as int,
                        n as int,
                    ),
                    next_mid: named(ts.subrange(0, i as int), v.next_mid).1,
                    ..v
                }),
                desc.sdp_type == sdp_type,
                desc.session == (SessionSection {
                    origin: Origin { session_id: now, session_version: (now + 1) as u64 },
                }),
                sdp::section_views(desc.media_sections@) == named(
                    ts.subrange(0, i as int),
                    v.next_mid,
                ).0.map_values(|t: TransceiverView| section_of(v, t, sdp_type, ice@)),
                sdp_type == SdpType::Offer || sdp_type == SdpType::Answer,
            decreases n - i,
        {
            let ghost head = named(ts.subrange(0, i as int), v.next_mid);
            let ghost here = ts[i as int];
            proof {
                lemma_named_len(ts.subrange(0, i as int), v.next_mid);
                assert(self@.transceivers[i as int] == here);
                assert(ts.subrange(0, i + 1).drop_last() =~= ts.subrange(0, i as int));
                assert(ts.subrange(0, i + 1).last() == here);
            }
            let mid = self.ensure_mid(i);
            let ghost next = named(ts.subrange(0, i + 1), v.next_mid);
            let ghost medium = next.0[i as int];
            proof {
                lemma_named_len(ts.subrange(0, i + 1), v.next_mid);
                assert(self@.transceivers =~= next.0 + ts.subrange(i + 1, n as int));
                assert(self@.transceivers[i as int] == medium);
                assert(self@.transceivers[i as int] == self.transceivers@[i as int]@);
            }
            let kind = self.transceivers[i].kind();
            let wanted = self.transceivers[i].direction();
            let direction = if sdp_type == SdpType::Answer {
                Direction::from(wanted.answer_direction())
            } else {
                Direction::from(wanted)
            };
            let mut section = reachable_section(kind, mid, direction, mode, ice);
            capabilities::populate_media_capabilities(
                &mut section,
                kind,
                sdp_type,
                &self.config,
                self.dtls_fingerprint.as_str(),
            );
            proof {
                assert(section@ == section_of(v, medium, sdp_type, ice@));
                let before = desc.media_sections@;
                assert(sdp::section_views(before.push(section)) =~= sdp::section_views(before).push(
                    section@,
                ));
                assert(next.0 =~= head.0.push(medium));
                assert(next.0.map_values(|t: TransceiverView| section_of(v, t, sdp_type, ice@))
                    =~= head.0.map_values(
                    |t: TransceiverView| section_of(v, t, sdp_type, ice@),
                ).push(section@));
            }
            desc.media_sections.push(section);
            i += 1;
        }
        proof {
            assert(ts.subrange(0, n as int) =~= ts);
            assert(named(ts, v.next_mid).0 + ts.subrange(n as int, n as int) =~= named(
                ts,
                v.next_mid,
            ).0);
        }
        desc
    }

    /// Takes the description of this end.
    pub fn set_local_description(&mut self, desc: SessionDescription) -> (r: RtcResult<()>)
        ensures
            match local_transition(old(self)@.signaling_state, desc.sdp_type) {
                Ok(signaling_state) => r is Ok && final(self)@ == (PeerView {
                    signaling_state,
                    local_description: Some(desc@),
                    ..old(self)@
                }),
                Err(e) => r matches Err(x) && x@ == e && final(self)@ == old(self)@,
            },
    {
        match desc.sdp_type {
            SdpType::Offer => {
                if self.signaling_state != SignalingState::Stable {
                    return Err(
                        invalid_state(
                            "set_local_description(offer) requires stable signaling state",
                        ),
                    );
                }
                self.signaling_state = SignalingState::HaveLocalOffer;
            },
            SdpType::Answer => {
                if self.signaling_state != SignalingState::HaveRemoteOffer {
                    return Err(
                        invalid_state("set_local_description(answer) requires remote offer"),
                    );
                }
                self.signaling_state = SignalingState::Stable;
            },
            _ => {
                return Err(RtcError::NotImplemented("pranswer/rollback"));
            },
        }
        self.local_description = Some(desc);
        Ok(())
    }

    /// Takes note of the description of the other end: the state changes, and the role of this
    /// end is settled unless it was before. Gives how to reach the other end; once that was
    /// started, the description is complete.
    pub fn set_remote_description(&mut self, desc: &SessionDescription) -> (r: RtcResult<
        RemotePlan,
    >)
        ensures
            match remote_transition(old(self)@.signaling_state, desc.sdp_type) {
                Ok(signaling_state) => {
                    &&& r matches Ok(plan) && plan@ == remote::plan_for(
                        old(self)@.config.transport_mode,
                        desc@.media_sections,
                    )
                    &&& final(self)@ == (PeerView {
                        signaling_state,
                        dtls_role: match old(self)@.dtls_role {
                            Some(role) => Some(role),
                            None => remote::role_from(
                                old(self)@.config.transport_mode,
                                desc@.media_sections,
                            ),
                        },
                        ..old(self)@
                    })
                },
                Err(e) => r matches Err(x) && x@ == e && final(self)@ == old(self)@,
            },
    {
        match desc.sdp_type {
            SdpType::Offer => {
                if self.signaling_state != SignalingState::Stable {
                    return Err(
                        invalid_state(
                            "set_remote_description(offer) requires stable signaling state",
                        ),
                    );
                }
                self.signaling_state = SignalingState::HaveRemoteOffer;
            },
            SdpType::Answer => {
                if self.signaling_state != SignalingState::HaveLocalOffer {
                    return Err(
                        invalid_state("set_remote_description(answer) requires local offer"),
                    );
                }
                self.signaling_state = SignalingState::Stable;
            },
            _ => {
                return Err(RtcError::NotImplemented("pranswer/rollback"));
            },
        }
        let mode = self.config.transport_mode;
        if self.dtls_role.is_none() {
            self.dtls_role = remote::read_role(mode, &desc.media_sections);
        }
        Ok(remote::read_plan(mode, &desc.media_sections))
    }

    /// Completes the description of the other end: media are added for the sections of an offer
    /// that have none, known as `id` and the following numbers. Gives how many were added.
    pub fn complete_remote_description(&mut self, desc: SessionDescription, id: u64) -> (added:
        usize)
        ensures
            final(self)@ == (PeerView {
                transceivers: if desc.sdp_type == SdpType::Offer {
                    with_sections(old(self)@.transceivers, desc@.media_sections, id)
                } else {
                    old(self)@.transceivers
                },
                remote_description: Some(desc@),
                ..old(self)@
            }),
            added == final(self)@.transceivers.len() - old(self)@.transceivers.len(),
    {
        let ghost v = self@;
        let ghost sections = desc@.media_sections;
        let ghost start = v.transceivers;
        let mut added: usize = 0;
        if desc.sdp_type == SdpType::Offer {
            let n: usize = desc.media_sections.len();
            let mut i: usize = 0;
            assert(self.transceivers@.len() == start.len());
            while i < n
                invariant
                    n == desc.media_sections@.len(),
                    sections == sdp::section_views(desc.media_sections@),
                    v == old(self)@,
                    start == v.transceivers,
                    i <= n,
                    added <= i,
                    self@ == (PeerView {
                        transceivers: with_sections(start, sections.subrange(0, i as int), id),
                        ..v
                    }),
                    added == self@.transceivers.len() - start.len(),
                decreases n - i,
            {
                let section = &desc.media_sections[i];
                let ghost before = self@.transceivers;
                proof {
                    let head = sections.subrange(0, i + 1);
                    assert(head.drop_last() =~= sections.subrange(0, i as int));
                    assert(head.last() == section@);
                    assert(before.len() == self.transceivers@.len());
                }
                if !self.has_medium(section.mid.as_str()) {
                    self.add_received(section, id.wrapping_add(added as u64));
                    added += 1;
                }
                i += 1;
            }
            assert(sections.subrange(0, n as int) =~= sections);
        }
        self.remote_description = Some(desc);
        added
    }

    /// Adds the medium for a section of an offer.
    fn add_received(&mut self, section: &MediaSection, number: u64)
        ensures
            final(self)@ == (PeerView {
                transceivers: old(self)@.transceivers.push(
                    received_medium(number, section@, old(self)@.transceivers.len()),
                ),
                ..old(self)@
            }),
    {
        let ghost list = self.transceivers@;
        assert(self@.transceivers.len() == list.len());
        let ssrc: u64 = (self.transceivers.len() as u64 % 0x1_0000_0000 + 2000) % 0x1_0000_0000;
        let mut t = RtpTransceiver::new(number, section.kind, TransceiverDirection::RecvOnly);
        t.set_mid(section.mid.clone());
        t.receiver = Some(RtpReceiver::new(section.kind, ssrc as u32));
        let ghost view = t@;
        self.transceivers.push(t);
        assert(transceiver::transceiver_views(self.transceivers@)
            =~= transceiver::transceiver_views(list).push(view));
    }

    /// Whether a medium has this name.
    fn has_medium(&self, mid: &str) -> (r: bool)
        ensures
            r == has_mid(self@.transceivers, mid@),
    {
        let n: usize = self.transceivers.len();
        let mut i: usize = 0;
        assert(self@.transceivers.len() == n);
        while i < n
            invariant
                n == self.transceivers@.len(),
                self@.transceivers == transceiver::transceiver_views(self.transceivers@),
                i <= n,
                forall|k: int| 0 <= k < i ==> (#[trigger] self@.transceivers[k]).mid != Some(mid@),
            decreases n - i,
        {
            assert(self@.transceivers[i as int] == self.transceivers@[i as int]@);
            if let Some(m) = &self.transceivers[i].mid {
                if text::str_eq(m.as_str(), mid) {
                    assert(self@.transceivers[i as int].mid == Some(mid@));
                    return true;
                }
            }
            i += 1;
        }
        false
    }

    /// How DTLS starts.
    pub fn start_dtls(&self, ice: &IceTransport, has_socket: bool) -> (r: RtcResult<DtlsPlan>)
        ensures
            match dtls_plan(self@, ice@, has_socket) {
                Ok(plan) => r matches Ok(x) && x == plan,
                Err(e) => r matches Err(x) && x@ == e,
            },
    {
        match ice.get_selected_pair() {
            None => Err(RtcError::Internal(String::from_str("No selected pair"))),
            Some(pair) => {
                if !has_socket {
                    return Err(RtcError::Internal(String::from_str("No selected socket")));
                }
                Ok(
                    DtlsPlan {
                        remote: pair.remote.address,
                        handshake: self.config.transport_mode != TransportMode::Rtp,
                    },
                )
            },
        }
    }

    /// The handshake is over: data channels can be used.
    pub fn sctp_started(&mut self)
        ensures
            final(self)@ == (PeerView { sctp_connected: true, ..old(self)@ }),
    {
        self.sctp_connected = true;
    }

    /// DTLS was started, or could not be.
    pub fn dtls_started(&mut self, ok: bool)
        ensures
            final(self)@ == (PeerView {
                peer_state: if ok {
                    PeerConnectionState::Connected
                } else {
                    PeerConnectionState::Failed
                },
                ..old(self)@
            }),
    {
        self.peer_state = if ok {
            PeerConnectionState::Connected
        } else {
            PeerConnectionState::Failed
        };
    }

    /// The state of ICE has changed: where no packets can flow any more, the connection is over.
    pub fn ice_state_changed(&mut self, state: IceTransportState)
        ensures
            final(self)@ == (PeerView {
                peer_state: match state {
                    IceTransportState::Failed => PeerConnectionState::Failed,
                    IceTransportState::Closed => PeerConnectionState::Closed,
                    _ => old(self)@.peer_state,
                },
                ..old(self)@
            }),
    {
        match state {
            IceTransportState::Failed => {
                self.peer_state = PeerConnectionState::Failed;
            },
            IceTransportState::Closed => {
                self.peer_state = PeerConnectionState::Closed;
            },
            _ => {},
        }
    }

    /// Ends the connection.
    pub fn close(&mut self, ice: &mut IceTransport)
        ensures
            final(self)@ == (PeerView {
                signaling_state: SignalingState::Closed,
                peer_state: PeerConnectionState::Closed,
                ice_connection_state: IceConnectionState::Closed,
                ice_gathering_state: IceGatheringState::Complete,
                ..old(self)@
            }),
            final(ice)@ == (IceView { state: IceTransportState::Closed, ..old(ice)@ }),
    {
        self.signaling_state = SignalingState::Closed;
        self.peer_state = PeerConnectionState::Closed;
        self.ice_connection_state = IceConnectionState::Closed;
        self.ice_gathering_state = IceGatheringState::Complete;
        ice.stop();
    }

    /// Adds a data channel, and a medium for it, known as `id`, unless there is one. Gives the
    /// place of the channel.
    pub fn create_data_channel(&mut self, sctp: &mut SctpTransport, label: &str, id: u64) -> (index:
        usize)
        ensures
            final(self)@ == if exists|i: int|
                0 <= i < old(self)@.transceivers.len() && (
                #[trigger] old(self)@.transceivers[i]).kind == MediaKind::Application {
                old(self)@
            } else {
                PeerView {
                    transceivers: old(self)@.transceivers.push(
                        TransceiverView {
                            id,
                            kind: MediaKind::Application,
                            direction: TransceiverDirection::SendRecv,
                            mid: None,
                            sender: None,
                            receiver: Some(
                                transceiver::new_receiver(MediaKind::Application, 67890),
                            ),
                        },
                    ),
                    ..old(self)@
                }
            },
            index == old(sctp).channels@.len(),
            final(sctp).channels@.len() == index + 1,
            final(sctp).channels@.drop_last() == old(sctp).channels@,
            final(sctp).channels@.last().id == index as nat % 0x1_0000,
            final(sctp).channels@.last().label@ == label@,
            final(sctp).channels@.last().state == DataChannelState::Connecting,
            final(sctp).state == old(sctp).state,
            final(sctp).local_port == old(sctp).local_port,
            final(sctp).remote_port == old(sctp).remote_port,
            final(sctp).verification_tag == old(sctp).verification_tag,
            final(sctp).remote_verification_tag == old(sctp).remote_verification_tag,
    {
        let n: usize = self.transceivers.len();
        let mut i: usize = 0;
        let mut found = false;
        assert(self@.transceivers.len() == n);
        while i < n
            invariant
                n == self.transceivers@.len(),
                *self == *old(self),
                self@.transceivers == transceiver::transceiver_views(self.transceivers@),
                i <= n,
                found == exists|k: int|
                    0 <= k < i && (#[trigger] self@.transceivers[k]).kind == MediaKind::Application,
            decreases n - i,
        {
            assert(self@.transceivers[i as int] == self.transceivers@[i as int]@);
            if self.transceivers[i].kind == MediaKind::Application {
                found = true;
            }
            i += 1;
        }
        if !found {
            self.add_transceiver(MediaKind::Application, TransceiverDirection::SendRecv, id);
        }
        let channel: u16 = (sctp.channels.len() % 0x1_0000) as u16;
        sctp.create_data_channel(label, channel)
    }

    /// The packet that carries data of a channel, once channels can be used.
    pub fn send_data(&self, sctp: &SctpTransport, channel_id: u16, data: &[u8]) -> (r: RtcResult<
        Vec<u8>,
    >)
        ensures
            match r {
                Ok(packet) => self@.sctp_connected && packet@ == sctp::packet_bytes(
                    sctp.local_port,
                    sctp.remote_port,
                    sctp.remote_verification_tag,
                    ChunkView {
                        chunk_type: sctp::CT_DATA,
                        flags: 3,
                        value: sctp::data_value(data@),
                    },
                ),
                Err(e) => !self@.sctp_connected && e@ == RtcErrorView::InvalidState(
                    "SCTP not connected"@,
                ),
            },
    {
        if self.sctp_connected {
            Ok(sctp.send_data(channel_id, data))
        } else {
            Err(invalid_state("SCTP not connected"))
        }
    }
}

} // verus!
