//! What the description of the other end says about how to reach it.
use vstd::prelude::*;
use vstd::string::*;

use crate::config::TransportMode;
use crate::sdp;
use crate::sdp::{Attribute, AttributeView, MediaSection, SectionView};
use crate::text;
use crate::transports::ice::address;
use crate::transports::ice::address::SocketAddr;
use crate::transports::ice::candidate;
use crate::transports::ice::candidate::{
    CandidateView, IceCandidate, IceParameters, ParametersView,
};

verus! {

/// Whether this end starts the handshake, by the first `setup` property that has a value: unless
/// the other end does.
pub open spec fn setup_in(attrs: Seq<AttributeView>) -> Option<bool>
    decreases attrs.len(),
{
    if attrs.len() == 0 {
        None
    } else if attrs[0].key == "setup"@ && attrs[0].value is Some {
        Some(attrs[0].value->0 != "active"@)
    } else {
        setup_in(attrs.drop_first())
    }
}

/// Whether this end starts the handshake, by the first section that says so.
pub open spec fn setup_of(sections: Seq<SectionView>) -> Option<bool>
    decreases sections.len(),
{
    if sections.len() == 0 {
        None
    } else {
        match setup_in(sections[0].attributes) {
            Some(r) => Some(r),
            None => setup_of(sections.drop_first()),
        }
    }
}

/// Whether this end is the client, as far as the description says.
pub open spec fn role_from(mode: TransportMode, sections: Seq<SectionView>) -> Option<bool> {
    if mode == TransportMode::Rtp {
        Some(true)
    } else {
        setup_of(sections)
    }
}

/// The value of the last property `key`, or what was known before.
pub open spec fn last_value(
    attrs: Seq<AttributeView>,
    key: Seq<char>,
    before: Option<Seq<char>>,
) -> Option<Seq<char>>
    decreases attrs.len(),
{
    if attrs.len() == 0 {
        before
    } else if attrs.last().key == key {
        attrs.last().value
    } else {
        last_value(attrs.drop_last(), key, before)
    }
}

/// The value of the last property `key` in all sections.
pub open spec fn last_in(sections: Seq<SectionView>, key: Seq<char>) -> Option<Seq<char>>
    decreases sections.len(),
{
    if sections.len() == 0 {
        None
    } else {
        last_value(sections.last().attributes, key, last_in(sections.drop_last(), key))
    }
}

/// The candidate that a property holds.
pub open spec fn candidate_in(a: AttributeView) -> Option<CandidateView> {
    if a.key == "candidate"@ && a.value is Some {
        match candidate::candidate_parsed(a.value->0) {
            Ok(c) => Some(c),
            Err(_) => None,
        }
    } else {
        None
    }
}

/// The candidates that properties hold, in order.
pub open spec fn candidates_in(attrs: Seq<AttributeView>) -> Seq<CandidateView>
    decreases attrs.len(),
{
    if attrs.len() == 0 {
        seq![]
    } else {
        let first = candidates_in(attrs.drop_last());
        match candidate_in(attrs.last()) {
            Some(c) => first.push(c),
            None => first,
        }
    }
}

/// The candidates in all sections, in order.
pub open spec fn candidates_of(sections: Seq<SectionView>) -> Seq<CandidateView>
    decreases sections.len(),
{
    if sections.len() == 0 {
        seq![]
    } else {
        candidates_of(sections.drop_last()) + candidates_in(sections.last().attributes)
    }
}

/// The address that a section names for its media.
pub open spec fn address_of(s: SectionView) -> Option<SocketAddr> {
    match s.connection {
        Some(c) => {
            let ws = text::words(c);
            if ws.len() >= 3 && ws[0] == "IN"@ && ws[1] == "IP4"@ {
                match address::bare_parsed(ws[2]) {
                    Some(ip) => Some(SocketAddr { ip, port: s.port, scope_id: 0 }),
                    None => None,
                }
            } else {
                None
            }
        },
        None => None,
    }
}

/// The address that the last section with one names.
pub open spec fn remote_address(sections: Seq<SectionView>) -> Option<SocketAddr>
    decreases sections.len(),
{
    if sections.len() == 0 {
        None
    } else {
        match address_of(sections.last()) {
            Some(a) => Some(a),
            None => remote_address(sections.drop_last()),
        }
    }
}

/// How to reach the other end.
#[derive(Debug, Clone)]
pub enum RemotePlan {
    /// The description does not say.
    Nothing,
    /// By checking these candidates.
    Ice(IceParameters, Vec<IceCandidate>),
    /// At this address.
    Direct(SocketAddr),
}

/// How to reach the other end.
#[verifier::ext_equal]
pub enum PlanView {
    Nothing,
    Ice(ParametersView, Seq<CandidateView>),
    Direct(SocketAddr),
}

impl View for RemotePlan {
    type V = PlanView;

    open spec fn view(&self) -> PlanView {
        match self {
            RemotePlan::Nothing => PlanView::Nothing,
            RemotePlan::Ice(p, cs) => PlanView::Ice(p@, candidate::candidate_views(cs@)),
            RemotePlan::Direct(a) => PlanView::Direct(*a),
        }
    }
}

/// How to reach the other end, by its description.
pub open spec fn plan_for(mode: TransportMode, sections: Seq<SectionView>) -> PlanView {
    if mode == TransportMode::WebRtc {
        match (last_in(sections, "ice-ufrag"@), last_in(sections, "ice-pwd"@)) {
            (Some(username_fragment), Some(password)) => PlanView::Ice(
                ParametersView { username_fragment, password, ice_lite: false, tie_breaker: 0 },
                candidates_of(sections),
            ),
            _ => PlanView::Nothing,
        }
    } else {
        match remote_address(sections) {
            Some(a) => PlanView::Direct(a),
            None => PlanView::Nothing,
        }
    }
}

fn find_setup(attrs: &Vec<Attribute>) -> (r: Option<bool>)
    ensures
        r == setup_in(sdp::attribute_views(attrs@)),
{
    let n: usize = attrs.len();
    let ghost all = sdp::attribute_views(attrs@);
    let mut i: usize = 0;
    assert(all.subrange(0, n as int) =~= all);
    while i < n
        invariant
            n == attrs@.len(),
            all == sdp::attribute_views(attrs@),
            i <= n,
            setup_in(all) == setup_in(all.subrange(i as int, n as int)),
        decreases n - i,
    {
        let ghost rest = all.subrange(i as int, n as int);
        assert(rest.drop_first() =~= all.subrange(i + 1, n as int));
        assert(rest[0] == attrs@[i as int]@);
        if text::str_eq(attrs[i].key.as_str(), "setup") {
            if let Some(v) = &attrs[i].value {
                return Some(!text::str_eq(v.as_str(), "active"));
            }
        }
        i += 1;
    }
    None
}

/// Whether this end is the client, as far as the description says.
pub fn read_role(mode: TransportMode, sections: &Vec<MediaSection>) -> (r: Option<bool>)
    ensures
        r == role_from(mode, sdp::section_views(sections@)),
{
    if mode == TransportMode::Rtp {
        return Some(true);
    }
    let n: usize = sections.len();
    let ghost all = sdp::section_views(sections@);
    let mut i: usize = 0;
    assert(all.subrange(0, n as int) =~= all);
    while i < n
        invariant
            mode != TransportMode::Rtp,
            n == sections@.len(),
            all == sdp::section_views(sections@),
            i <= n,
            setup_of(all) == setup_of(all.subrange(i as int, n as int)),
        decreases n - i,
    {
        let ghost rest = all.subrange(i as int, n as int);
        assert(rest.drop_first() =~= all.subrange(i + 1, n as int));
        assert(rest[0] == sections@[i as int]@);
        let found = find_setup(&sections[i].attributes);
        if found.is_some() {
            return found;
        }
        i += 1;
    }
    None
}

/// What was read of the sections so far.
struct Reading {
    ufrag: Option<String>,
    pwd: Option<String>,
    candidates: Vec<IceCandidate>,
    addr: Option<SocketAddr>,
}

/// A reading that holds what is to be read of `sections`; addresses are read where `direct`.
spec fn holds(r: Reading, sections: Seq<SectionView>, direct: bool) -> bool {
    &&& sdp::optional(r.ufrag) == last_in(sections, "ice-ufrag"@)
    &&& sdp::optional(r.pwd) == last_in(sections, "ice-pwd"@)
    &&& candidate::candidate_views(r.candidates@) == candidates_of(sections)
    &&& direct ==> r.addr == remote_address(sections)
}

/// A copy of optional text.
fn copy_text(s: &Option<String>) -> (r: Option<String>)
    ensures
        sdp::optional(r) == sdp::optional(*s),
{
    match s {
        Some(x) => Some(x.clone()),
        None => None,
    }
}

/// Reads the address that a section names for its media.
fn read_address(section: &MediaSection) -> (r: Option<SocketAddr>)
    ensures
        r == address_of(section@),
{
    match &section.connection {
        None => None,
        Some(c) => {
            let cs = text::chars_of(c.as_str());
            let parts = text::split_words(cs.as_slice());
            proof {
                assert(text::word_views(parts@).len() == parts@.len());
            }
            if parts.len() >= 3 {
                proof {
                    assert(text::word_views(parts@)[0] == parts@[0]@);
                    assert(text::word_views(parts@)[1] == parts@[1]@);
                    assert(text::word_views(parts@)[2] == parts@[2]@);
                }
                if text::chars_are(parts[0].as_slice(), "IN") && text::chars_are(
                    parts[1].as_slice(),
                    "IP4",
                ) {
                    if let Some(ip) = address::parse_bare(parts[2].as_slice()) {
                        return Some(SocketAddr::new(ip, section.port));
                    }
                }
            }
            None
        },
    }
}

/// Reads the properties of a section.
fn read_attributes(reading: &mut Reading, attrs: &Vec<Attribute>)
    ensures
        sdp::optional(final(reading).ufrag) == last_value(
            sdp::attribute_views(attrs@),
            "ice-ufrag"@,
            sdp::optional(old(reading).ufrag),
        ),
        sdp::optional(final(reading).pwd) == last_value(
            sdp::attribute_views(attrs@),
            "ice-pwd"@,
            sdp::optional(old(reading).pwd),
        ),
        candidate::candidate_views(final(reading).candidates@) == candidate::candidate_views(
            old(reading).candidates@,
        ) + candidates_in(sdp::attribute_views(attrs@)),
        final(reading).addr == old(reading).addr,
{
    let n: usize = attrs.len();
    let ghost all = sdp::attribute_views(attrs@);
    let ghost before = candidate::candidate_views(reading.candidates@);
    let ghost ufrag = sdp::optional(reading.ufrag);
    let ghost pwd = sdp::optional(reading.pwd);
    let mut i: usize = 0;
    proof {
        reveal_strlit("ice-ufrag");
        reveal_strlit("ice-pwd");
        reveal_strlit("candidate");
        assert("ice-ufrag"@.len() != "ice-pwd"@.len());
        assert("ice-ufrag"@[0] != "candidate"@[0]);
        assert("ice-pwd"@[0] != "candidate"@[0]);
        assert(before + candidates_in(all.subrange(0, 0)) =~= before);
    }
    while i < n
        invariant
            n == attrs@.len(),
            all == sdp::attribute_views(attrs@),
            "ice-ufrag"@ != "ice-pwd"@,
            "ice-ufrag"@ != "candidate"@,
            "ice-pwd"@ != "candidate"@,
            i <= n,
            reading.addr == old(reading).addr,
            sdp::optional(reading.ufrag) == last_value(
                all.subrange(0, i as int),
                "ice-ufrag"@,
                ufrag,
            ),
            sdp::optional(reading.pwd) == last_value(all.subrange(0, i as int), "ice-pwd"@, pwd),
            candidate::candidate_views(reading.candidates@) == before + candidates_in(
                all.subrange(0, i as int),
            ),
        decreases n - i,
    {
        let attr = &attrs[i];
        proof {
            let head = all.subrange(0, i + 1);
            assert(head.drop_last() =~= all.subrange(0, i as int));
            assert(head.last() == attrs@[i as int]@);
        }
        if text::str_eq(attr.key.as_str(), "ice-ufrag") {
            reading.ufrag = copy_text(&attr.value);
        } else if text::str_eq(attr.key.as_str(), "ice-pwd") {
            reading.pwd = copy_text(&attr.value);
        } else if text::str_eq(attr.key.as_str(), "candidate") {
            if let Some(v) = &attr.value {
                if let Ok(c) = IceCandidate::from_sdp(v.as_str()) {
                    proof {
                        let list = reading.candidates@;
                        let so_far = candidates_in(all.subrange(0, i as int));
                        assert(candidate::candidate_views(list.push(c))
                            =~= candidate::candidate_views(list).push(c@));
                        assert((before + so_far).push(c@) =~= before + so_far.push(c@));
                    }
                    reading.candidates.push(c);
                }
            }
        }
        i += 1;
    }
    assert(all.subrange(0, n as int) =~= all);
}

/// Reads how to reach the other end.
pub fn read_plan(mode: TransportMode, sections: &Vec<MediaSection>) -> (r: RemotePlan)
    ensures
        r@ == plan_for(mode, sdp::section_views(sections@)),
{
    let n: usize = sections.len();
    let ghost all = sdp::section_views(sections@);
    let direct = mode != TransportMode::WebRtc;
    let mut reading = Reading { ufrag: None, pwd: None, candidates: Vec::new(), addr: None };
    let mut i: usize = 0;
    proof {
        assert(candidate::candidate_views(reading.candidates@) =~= seq![]);
    }
    while i < n
        invariant
            n == sections@.len(),
            all == sdp::section_views(sections@),
            i <= n,
            holds(reading, all.subrange(0, i as int), direct),
        decreases n - i,
    {
        proof {
            let head = all.subrange(0, i + 1);
            assert(head.drop_last() =~= all.subrange(0, i as int));
            assert(head.last() == sections@[i as int]@);
        }
        if direct {
            if let Some(a) = read_address(&sections[i]) {
                reading.addr = Some(a);
            }
        }
        read_attributes(&mut reading, &sections[i].attributes);
        i += 1;
    }
    assert(all.subrange(0, n as int) =~= all);
    if direct {
        match reading.addr {
            Some(a) => RemotePlan::Direct(a),
            None => RemotePlan::Nothing,
        }
    } else {
        match (reading.ufrag, reading.pwd) {
            (Some(username_fragment), Some(password)) => RemotePlan::Ice(
                IceParameters { username_fragment, password, ice_lite: false, tie_breaker: 0 },
                reading.candidates,
            ),
            _ => RemotePlan::Nothing,
        }
    }
}

} // verus!
