//! How a negotiation goes, and what follows from the description of the other end.
use vstd::prelude::*;
use vstd::string::*;

use crate::config::{RtcConfiguration, TransportMode};
use crate::errors::RtcErrorView;
use crate::peer_connection::connection;
use crate::peer_connection::connection::{
    IceConnectionState, IceGatheringState, PeerConnectionState, PeerView, SignalingState,
    Supervision,
};
use crate::peer_connection::remote;
use crate::peer_connection::remote::PlanView;
use crate::peer_connection::transceiver::{TransceiverDirection, TransceiverView};
use crate::sdp::{AttributeView, SdpType, SectionView};
use crate::text;
use crate::transports::dtls::Certificate;
use crate::transports::ice::address;
use crate::transports::ice::address::{IpAddr, SocketAddr};
use crate::transports::ice::candidate::{IceRole, IceTransportState, ParametersView};
use crate::transports::ice::transport;
use crate::transports::ice::transport::IceView;

verus! {

/// An offer opens a negotiation where none is open, and the state says whose offer it is; the
/// answer of the other end closes it; nothing else is taken.
pub proof fn law_signaling(state: SignalingState)
    ensures
        connection::local_transition(state, SdpType::Offer) matches Ok(s) ==> state
            == SignalingState::Stable && s == SignalingState::HaveLocalOffer,
        connection::remote_transition(state, SdpType::Offer) matches Ok(s) ==> state
            == SignalingState::Stable && s == SignalingState::HaveRemoteOffer,
        connection::local_transition(state, SdpType::Answer) matches Ok(s) ==> state
            == SignalingState::HaveRemoteOffer && s == SignalingState::Stable,
        connection::remote_transition(state, SdpType::Answer) matches Ok(s) ==> state
            == SignalingState::HaveLocalOffer && s == SignalingState::Stable,
        state == SignalingState::Stable ==> connection::local_transition(state, SdpType::Offer)
            is Ok && connection::remote_transition(state, SdpType::Offer) is Ok,
        state == SignalingState::HaveRemoteOffer ==> connection::local_transition(
            state,
            SdpType::Answer,
        ) is Ok,
        state == SignalingState::HaveLocalOffer ==> connection::remote_transition(
            state,
            SdpType::Answer,
        ) is Ok,
        connection::local_transition(state, SdpType::Pranswer) matches Err(
            RtcErrorView::NotImplemented(_),
        ),
        connection::remote_transition(state, SdpType::Rollback) matches Err(
            RtcErrorView::NotImplemented(_),
        ),
{
}

/// An offer can be made where none is open, an answer where the other end offered, and either only
/// where there are media to describe.
pub proof fn law_when_to_describe(v: PeerView)
    ensures
        connection::offer_error(v) is None <==> v.signaling_state == SignalingState::Stable,
        connection::answer_error(v) is None <==> v.signaling_state
            == SignalingState::HaveRemoteOffer,
        connection::empty_error(v) is None <==> v.transceivers.len() > 0,
        connection::offer_error(v) is Some ==> connection::first_error(
            connection::offer_error(v),
            connection::empty_error(v),
        ) == connection::offer_error(v),
        connection::offer_error(v) is None ==> connection::first_error(
            connection::offer_error(v),
            connection::empty_error(v),
        ) == connection::empty_error(v),
{
}

/// The handshake starts when packets can flow and the role of this end is known, in that role; it
/// never starts once ICE has failed or was closed; until then it waits.
pub proof fn law_supervision(ice: IceTransportState, role: Option<bool>, is_client: bool)
    ensures
        connection::supervision(ice, role) == Supervision::Start(is_client) <==> (ice
            == IceTransportState::Connected && role == Some(is_client)),
        connection::supervision(ice, role) == Supervision::Stop <==> (ice
            == IceTransportState::Failed || ice == IceTransportState::Closed),
{
}

/// DTLS goes to the other end of the selected pair, and has a handshake unless media travel as
/// bare RTP. Without a pair or a socket there is none.
pub proof fn law_dtls_plan(v: PeerView, ice: IceView, has_socket: bool)
    ensures
        connection::dtls_plan(v, ice, has_socket) is Ok <==> ice.selected_pair is Some
            && has_socket,
        connection::dtls_plan(v, ice, has_socket) matches Ok(plan) ==> {
            &&& plan.remote == ice.selected_pair->0.remote.address
            &&& plan.handshake <==> v.config.transport_mode != TransportMode::Rtp
        },
{
}

/// A section of an offer with a name that no medium has adds one medium, after the others, that
/// receives what the section is about from a source of its own.
pub proof fn law_section_adds_medium(ts: Seq<TransceiverView>, s: SectionView, id: u64)
    requires
        forall|i: int| 0 <= i < ts.len() ==> (#[trigger] ts[i]).mid != Some(s.mid),
        ts.len() < 1000000,
    ensures
        ({
            let after = connection::with_sections(ts, seq![s], id);
            let t = after[ts.len() as int];
            &&& after.len() == ts.len() + 1
            &&& t.id == id
            &&& t.kind == s.kind
            &&& t.mid == Some(s.mid)
            &&& t.direction == TransceiverDirection::RecvOnly
            &&& t.sender is None
            &&& t.receiver matches Some(r) && r.ssrc == 2000 + ts.len()
        }),
{
    let one = seq![s];
    assert(one.drop_last() =~= seq![]);
    reveal_with_fuel(connection::with_sections, 2);
    assert(one.last() == s);
}

/// A section whose name a medium has adds none.
pub proof fn law_section_finds_medium(ts: Seq<TransceiverView>, s: SectionView, id: u64, i: int)
    requires
        0 <= i < ts.len(),
        ts[i].mid == Some(s.mid),
    ensures
        connection::with_sections(ts, seq![s], id) == ts,
{
    let one = seq![s];
    assert(one.drop_last() =~= seq![]);
    reveal_with_fuel(connection::with_sections, 2);
    assert(one.last() == s);
}

/// The media for the sections of an offer are those for the sections before the last one, and then
/// the one for the last, with the next number.
pub proof fn law_sections_in_turn(
    ts: Seq<TransceiverView>,
    sections: Seq<SectionView>,
    s: SectionView,
    id: u64,
)
    requires
        id + sections.len() < 0x1_0000_0000_0000_0000,
    ensures
        ({
            let before = connection::with_sections(ts, sections, id);
            connection::with_sections(ts, sections.push(s), id) == connection::with_sections(
                before,
                seq![s],
                (id + before.len() - ts.len()) as u64,
            )
        }),
{
    let all = sections.push(s);
    let one = seq![s];
    assert(all.drop_last() =~= sections);
    assert(one.drop_last() =~= seq![]);
    assert(one.last() == s);
    reveal_with_fuel(connection::with_sections, 2);
    lemma_sections_bound(ts, sections, id);
}

proof fn lemma_sections_bound(ts: Seq<TransceiverView>, sections: Seq<SectionView>, id: u64)
    ensures
        ts.len() <= connection::with_sections(ts, sections, id).len() <= ts.len() + sections.len(),
    decreases sections.len(),
{
    if sections.len() > 0 {
        lemma_sections_bound(ts, sections.drop_last(), id);
    }
}

/// The first `setup` property with a value decides: this end starts the handshake unless the other
/// end is active.
pub proof fn law_setup(before: Seq<AttributeView>, value: Seq<char>, after: Seq<AttributeView>)
    requires
        forall|i: int| 0 <= i < before.len() ==> (#[trigger] before[i]).key != "setup"@,
    ensures
        ({
            let all = before + seq![AttributeView { key: "setup"@, value: Some(value) }] + after;
            remote::setup_in(all) == Some(value != "active"@)
        }),
        remote::setup_in(before) is None,
    decreases before.len(),
{
    let all = before + seq![AttributeView { key: "setup"@, value: Some(value) }] + after;
    if before.len() > 0 {
        let rest = before.drop_first();
        law_setup(rest, value, after);
        assert(all.drop_first() =~= rest + seq![
            AttributeView { key: "setup"@, value: Some(value) },
        ] + after);
        assert(all[0] == before[0]);
    } else {
        assert(all[0].key == "setup"@);
    }
}

/// The first section that says who starts the handshake decides; bare RTP needs no such word.
pub proof fn law_role(
    mode: TransportMode,
    first: SectionView,
    rest: Seq<SectionView>,
)
    ensures
        mode == TransportMode::Rtp ==> remote::role_from(mode, seq![first] + rest) == Some(true),
        mode != TransportMode::Rtp ==> {
            &&& remote::setup_in(first.attributes) matches Some(r) ==> remote::role_from(
                mode,
                seq![first] + rest,
            ) == Some(r)
            &&& remote::setup_in(first.attributes) is None ==> remote::role_from(
                mode,
                seq![first] + rest,
            ) == remote::role_from(mode, rest)
            &&& remote::role_from(mode, seq![]) is None
        },
{
    let all = seq![first] + rest;
    assert(all.drop_first() =~= rest);
    assert(all[0] == first);
}

/// The last value of a property counts.
pub proof fn law_last_value(
    first: Seq<AttributeView>,
    key: Seq<char>,
    value: Seq<char>,
    after: Seq<AttributeView>,
    known: Option<Seq<char>>,
)
    requires
        forall|i: int| 0 <= i < after.len() ==> (#[trigger] after[i]).key != key,
    ensures
        remote::last_value(
            first + seq![AttributeView { key, value: Some(value) }] + after,
            key,
            known,
        ) == Some(value),
        remote::last_value(after, key, known) == known,
    decreases after.len(),
{
    let all = first + seq![AttributeView { key, value: Some(value) }] + after;
    if after.len() > 0 {
        let rest = after.drop_last();
        law_last_value(first, key, value, rest, known);
        assert(all.drop_last() =~= first + seq![AttributeView { key, value: Some(value) }] + rest);
        assert(all.last() == after.last());
    } else {
        assert(all.last() == AttributeView { key, value: Some(value) });
    }
}

/// With ICE the other end is reached by its name, its password and its candidates, and not at all
/// where it does not give its name or password.
pub proof fn law_plan_with_ice(sections: Seq<SectionView>)
    ensures
        remote::plan_for(TransportMode::WebRtc, sections) matches PlanView::Ice(p, cs) ==> {
            &&& remote::last_in(sections, "ice-ufrag"@) == Some(p.username_fragment)
            &&& remote::last_in(sections, "ice-pwd"@) == Some(p.password)
            &&& cs == remote::candidates_of(sections)
        },
        remote::plan_for(TransportMode::WebRtc, sections) is Ice <==> remote::last_in(
            sections,
            "ice-ufrag"@,
        ) is Some && remote::last_in(sections, "ice-pwd"@) is Some,
        !(remote::plan_for(TransportMode::WebRtc, sections) is Direct),
{
}

/// Without ICE the other end is reached at the port of the last section that names an address, at
/// that address.
pub proof fn law_plan_without_ice(
    mode: TransportMode,
    first: Seq<SectionView>,
    s: SectionView,
    ip: IpAddr,
)
    requires
        mode != TransportMode::WebRtc,
        s.connection matches Some(c) && text::words(c).len() >= 3 && text::words(c)[0] == "IN"@
            && text::words(c)[1] == "IP4"@ && address::bare_parsed(text::words(c)[2]) == Some(ip),
    ensures
        remote::plan_for(mode, first.push(s)) == PlanView::Direct(
            SocketAddr { ip, port: s.port, scope_id: 0 },
        ),
{
    let all = first.push(s);
    assert(all.last() == s);
}

/// Where the last section names no address, the sections before it decide.
pub proof fn law_plan_of_earlier_sections(
    mode: TransportMode,
    first: Seq<SectionView>,
    s: SectionView,
)
    requires
        mode != TransportMode::WebRtc,
        s.connection is None,
    ensures
        remote::plan_for(mode, first.push(s)) == remote::plan_for(mode, first),
        remote::plan_for(mode, seq![]) == PlanView::Nothing,
{
    let all = first.push(s);
    assert(all.last() == s);
    assert(all.drop_last() =~= first);
}

/// A new connection has negotiated nothing: it is stable, without media and descriptions, and does
/// not know its role.
pub proof fn law_new_connection(
    config: RtcConfiguration,
    certificate: Certificate,
    fingerprint: Seq<char>,
)
    ensures
        ({
            let v = connection::new_connection(config, certificate, fingerprint);
            &&& connection::offer_error(v) is None
            &&& connection::answer_error(v) is Some
            &&& connection::empty_error(v) is Some
            &&& v.config == config && v.certificate == certificate
            &&& v.dtls_fingerprint == fingerprint
            &&& v.peer_state == PeerConnectionState::New
            &&& v.ice_connection_state == IceConnectionState::New
            &&& v.ice_gathering_state == IceGatheringState::New
            &&& v.local_description is None && v.remote_description is None
            &&& v.dtls_role is None
            &&& !v.sctp_connected
            &&& v.next_mid == 0
        }),
{
}

/// A new transport has nothing to check and no one to check with, and does not control.
pub proof fn law_new_transport(config: RtcConfiguration, parameters: ParametersView)
    ensures
        ({
            let v = transport::new_transport(config, parameters);
            &&& v.state == IceTransportState::New
            &&& v.role == IceRole::Controlled
            &&& v.selected_pair is None
            &&& v.local_candidates.len() == 0 && v.remote_candidates.len() == 0
            &&& v.remote_parameters is None
            &&& v.local_parameters == parameters
            &&& v.config == config
            &&& forall|tx: Seq<u8>| !v.pending.contains(tx)
        }),
{
}

} // verus!
