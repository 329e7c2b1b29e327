//! What the other end understands of a description.
use vstd::prelude::*;
use vstd::string::*;

use crate::config::{AudioCapability, RtcConfiguration, TransportMode, VideoCapability};
use crate::peer_connection::capabilities;
use crate::peer_connection::connection;
use crate::peer_connection::connection::PeerView;
use crate::peer_connection::remote;
use crate::peer_connection::remote::PlanView;
use crate::peer_connection::transceiver::TransceiverView;
use crate::sdp;
use crate::sdp::{AttributeView, MediaKind, SdpType, SectionView};
use crate::text;
use crate::transports::ice::address;
use crate::transports::ice::address::IpAddr;
use crate::transports::ice::address_laws;
use crate::transports::ice::candidate;
use crate::transports::ice::candidate::{CandidateView, ParametersView};
use crate::transports::ice::transport::IceView;

verus! {

/// The keys of what a section offers, but for who starts the handshake.
spec fn offered_key(key: Seq<char>) -> bool {
    ||| key == "rtcp-mux"@
    ||| key == "rtpmap"@
    ||| key == "fmtp"@
    ||| key == "rtcp-fb"@
    ||| key == "sctp-port"@
    ||| key == "fingerprint"@
}

/// Whether all properties from a place on are of what a section offers.
spec fn offers_from(attrs: Seq<AttributeView>, from: int) -> bool {
    forall|i: int| from <= i < attrs.len() ==> offered_key((#[trigger] attrs[i]).key)
}

proof fn lemma_audio_keys(cs: Seq<AudioCapability>)
    ensures
        offers_from(capabilities::all_audio_properties(cs), 0),
    decreases cs.len(),
{
    if cs.len() > 0 {
        lemma_audio_keys(cs.drop_last());
        let first = capabilities::all_audio_properties(cs.drop_last());
        let last = capabilities::audio_properties(cs.last());
        let all = capabilities::all_audio_properties(cs);
        assert forall|i: int| 0 <= i < all.len() implies offered_key((#[trigger] all[i]).key) by {
            if i < first.len() {
                assert(all[i] == first[i]);
            } else {
                assert(all[i] == last[i - first.len()]);
            }
        }
    }
}

proof fn lemma_video_keys(cs: Seq<VideoCapability>)
    ensures
        offers_from(capabilities::all_video_properties(cs), 0),
    decreases cs.len(),
{
    if cs.len() > 0 {
        lemma_video_keys(cs.drop_last());
        let first = capabilities::all_video_properties(cs.drop_last());
        let last = capabilities::video_properties(cs.last());
        let all = capabilities::all_video_properties(cs);
        assert forall|i: int| 0 <= i < all.len() implies offered_key((#[trigger] all[i]).key) by {
            if i < first.len() {
                assert(all[i] == first[i]);
            } else {
                assert(all[i] == last[i - first.len()]);
            }
        }
    }
}

/// What a section offers stands after what it says of how to reach this end.
#[verifier::rlimit(40)]
proof fn lemma_offered(s: SectionView, kind: MediaKind, config: RtcConfiguration)
    ensures
        ({
            let r = match kind {
                MediaKind::Audio => capabilities::with_audio(s, config),
                MediaKind::Video => capabilities::with_video(s, config),
                MediaKind::Application => capabilities::with_application(s, config),
            };
            let n = s.attributes.len() as int;
            &&& r.attributes.len() >= n
            &&& r.attributes.subrange(0, n) == s.attributes
            &&& offers_from(r.attributes, n)
            &&& r.port == s.port
            &&& r.connection == s.connection
        }),
{
    let n = s.attributes.len() as int;
    match kind {
        MediaKind::Audio => {
            let cs = capabilities::audio_list(config);
            lemma_audio_keys(cs);
            let r = capabilities::with_audio(s, config);
            assert(r.attributes.subrange(0, n) =~= s.attributes);
            if cs.len() > 0 {
                let more = capabilities::all_audio_properties(cs);
                assert forall|i: int| n <= i < r.attributes.len() implies offered_key(
                    (#[trigger] r.attributes[i]).key,
                ) by {
                    if i > n {
                        assert(r.attributes[i] == more[i - n - 1]);
                    }
                }
            }
        },
        MediaKind::Video => {
            let cs = capabilities::video_list(config);
            lemma_video_keys(cs);
            let r = capabilities::with_video(s, config);
            assert(r.attributes.subrange(0, n) =~= s.attributes);
            if cs.len() > 0 {
                let more = capabilities::all_video_properties(cs);
                assert forall|i: int| n <= i < r.attributes.len() implies offered_key(
                    (#[trigger] r.attributes[i]).key,
                ) by {
                    if i > n {
                        assert(r.attributes[i] == more[i - n - 1]);
                    }
                }
            }
        },
        MediaKind::Application => {
            let r = capabilities::with_application(s, config);
            assert(r.attributes.subrange(0, n) =~= s.attributes);
        },
    }
}

/// A section with all that it offers: what it said before, what it offers, and at the end who
/// starts the handshake, unless media goes in the clear.
proof fn lemma_populated(
    s: SectionView,
    kind: MediaKind,
    t: SdpType,
    config: RtcConfiguration,
    fingerprint: Seq<char>,
)
    ensures
        ({
            let r = capabilities::populated(s, kind, t, config, fingerprint);
            let n = s.attributes.len() as int;
            let end = if config.transport_mode == TransportMode::Rtp {
                r.attributes.len() as int
            } else {
                r.attributes.len() - 1
            };
            &&& end >= n
            &&& r.attributes.subrange(0, n) == s.attributes
            &&& forall|i: int| n <= i < end ==> offered_key((#[trigger] r.attributes[i]).key)
            &&& config.transport_mode != TransportMode::Rtp ==> r.attributes[end] == sdp::valued(
                "setup"@,
                capabilities::setup_value(t),
            )
            &&& r.port == s.port
            &&& r.connection == s.connection
        }),
{
    lemma_offered(s, kind, config);
    let n = s.attributes.len() as int;
    let offered = match kind {
        MediaKind::Audio => capabilities::with_audio(s, config),
        MediaKind::Video => capabilities::with_video(s, config),
        MediaKind::Application => capabilities::with_application(s, config),
    };
    let r = capabilities::populated(s, kind, t, config, fingerprint);
    if config.transport_mode != TransportMode::Rtp {
        assert(r.attributes.subrange(0, n) =~= offered.attributes.subrange(0, n));
        assert forall|i: int| n <= i < r.attributes.len() - 1 implies offered_key(
            (#[trigger] r.attributes[i]).key,
        ) by {
            if i < offered.attributes.len() {
                assert(r.attributes[i] == offered.attributes[i]);
            }
        }
    }
}

proof fn lemma_last_value(
    attrs: Seq<AttributeView>,
    key: Seq<char>,
    before: Option<Seq<char>>,
    k: int,
)
    requires
        0 <= k < attrs.len(),
        attrs[k].key == key,
        forall|j: int| k < j < attrs.len() ==> (#[trigger] attrs[j]).key != key,
    ensures
        remote::last_value(attrs, key, before) == attrs[k].value,
    decreases attrs.len(),
{
    if k < attrs.len() - 1 {
        let init = attrs.drop_last();
        assert forall|j: int| k < j < init.len() implies (#[trigger] init[j]).key != key by {
            assert(init[j] == attrs[j]);
        }
        assert(attrs[attrs.len() - 1].key != key);
        lemma_last_value(init, key, before, k);
    }
}

proof fn lemma_setup_in(attrs: Seq<AttributeView>, k: int)
    requires
        0 <= k < attrs.len(),
        attrs[k].key == "setup"@,
        attrs[k].value is Some,
        forall|j: int| 0 <= j < k ==> (#[trigger] attrs[j]).key != "setup"@,
    ensures
        remote::setup_in(attrs) == Some(attrs[k].value->0 != "active"@),
    decreases k,
{
    if k > 0 {
        assert(attrs[0].key != "setup"@);
        let rest = attrs.drop_first();
        assert forall|j: int| 0 <= j < k - 1 implies (#[trigger] rest[j]).key != "setup"@ by {
            assert(rest[j] == attrs[j + 1]);
        }
        lemma_setup_in(rest, k - 1);
    }
}

/// The keys that are told apart.
#[verifier::rlimit(40)]
proof fn lemma_keys_differ()
    ensures
        !offered_key("ice-ufrag"@),
        !offered_key("ice-pwd"@),
        !offered_key("candidate"@),
        !offered_key("setup"@),
        "ice-ufrag"@ != "ice-pwd"@,
        "ice-ufrag"@ != "ice-options"@,
        "ice-pwd"@ != "ice-options"@,
        "ice-ufrag"@ != "candidate"@,
        "ice-pwd"@ != "candidate"@,
        "ice-ufrag"@ != "end-of-candidates"@,
        "ice-pwd"@ != "end-of-candidates"@,
        "ice-ufrag"@ != "setup"@,
        "ice-pwd"@ != "setup"@,
        "ice-options"@ != "setup"@,
        "candidate"@ != "setup"@,
        "end-of-candidates"@ != "setup"@,
        "actpass"@ != "active"@,
{
    reveal_strlit("rtcp-mux");
    reveal_strlit("rtpmap");
    reveal_strlit("fmtp");
    reveal_strlit("rtcp-fb");
    reveal_strlit("sctp-port");
    reveal_strlit("fingerprint");
    reveal_strlit("ice-ufrag");
    reveal_strlit("ice-pwd");
    reveal_strlit("ice-options");
    reveal_strlit("candidate");
    reveal_strlit("end-of-candidates");
    reveal_strlit("setup");
    reveal_strlit("actpass");
    reveal_strlit("active");
    assert("ice-ufrag"@[0] == 'i');
    assert("ice-pwd"@[0] == 'i');
    assert("ice-options"@[0] == 'i');
    assert("ice-ufrag"@[4] == 'u');
    assert("ice-pwd"@[4] == 'p');
    assert("ice-options"@[4] == 'o');
    assert("actpass"@[3] == 'p');
    assert("active"@[3] == 'i');
    assert("candidate"@[0] == 'c');
    assert("end-of-candidates"@[0] == 'e');
    assert("setup"@[0] == 's');
    assert("setup"@[1] == 'e');
    assert("sctp-port"@[1] == 'c');
    assert("rtcp-mux"@[0] == 'r');
    assert("rtpmap"@[0] == 'r');
    assert("fmtp"@[0] == 'f');
    assert("rtcp-fb"@[0] == 'r');
    assert("sctp-port"@[0] == 's');
    assert("fingerprint"@[0] == 'f');
}

/// The values that one section of a description says about ICE.
#[verifier::rlimit(40)]
proof fn lemma_section_ice(v: PeerView, t: TransceiverView, sdp_type: SdpType, ice: IceView, before: Option<Seq<char>>)
    requires
        v.config.transport_mode == TransportMode::WebRtc,
    ensures
        remote::last_value(
            connection::section_of(v, t, sdp_type, ice).attributes,
            "ice-ufrag"@,
            before,
        ) == Some(ice.local_parameters.username_fragment),
        remote::last_value(
            connection::section_of(v, t, sdp_type, ice).attributes,
            "ice-pwd"@,
            before,
        ) == Some(ice.local_parameters.password),
{
    let s = connection::reachable(
        t.kind,
        t.mid->0,
        connection::direction_in(t.direction, sdp_type),
        TransportMode::WebRtc,
        ice,
    );
    lemma_populated(s, t.kind, sdp_type, v.config, v.dtls_fingerprint);
    lemma_keys_differ();
    let r = connection::section_of(v, t, sdp_type, ice);
    let n = s.attributes.len() as int;
    assert forall|j: int| 0 <= j < n implies #[trigger] r.attributes[j] == s.attributes[j] by {
        assert(r.attributes.subrange(0, n)[j] == r.attributes[j]);
    }
    assert(r.attributes[0] == s.attributes[0]);
    assert(r.attributes[1] == s.attributes[1]);
    assert forall|j: int| 1 < j < r.attributes.len() implies (#[trigger] r.attributes[j]).key
        != "ice-ufrag"@ && r.attributes[j].key != "ice-pwd"@ by {
        if j < n {
            assert(r.attributes[j] == s.attributes[j]);
        }
    }
    lemma_last_value(r.attributes, "ice-ufrag"@, before, 0);
    lemma_last_value(r.attributes, "ice-pwd"@, before, 1);
}

/// An end that reads the description of another learns what that end checks packets with.
pub proof fn law_description_is_understood(v: PeerView, sdp_type: SdpType, ice: IceView, now: u64)
    requires
        v.config.transport_mode == TransportMode::WebRtc,
        v.transceivers.len() > 0,
    ensures
        remote::plan_for(
            TransportMode::WebRtc,
            connection::described(v, sdp_type, ice, now).media_sections,
        ) matches PlanView::Ice(p, _) && p == (ParametersView {
            username_fragment: ice.local_parameters.username_fragment,
            password: ice.local_parameters.password,
            ice_lite: false,
            tie_breaker: 0,
        }),
{
    let named = connection::named(v.transceivers, v.next_mid).0;
    connection::law_names_are_kept(v.transceivers, v.next_mid, 0);
    let sections = connection::described(v, sdp_type, ice, now).media_sections;
    assert(sections.last() == connection::section_of(v, named.last(), sdp_type, ice));
    let init = sections.drop_last();
    lemma_section_ice(v, named.last(), sdp_type, ice, remote::last_in(init, "ice-ufrag"@));
    lemma_section_ice(v, named.last(), sdp_type, ice, remote::last_in(init, "ice-pwd"@));
}

proof fn lemma_candidate_read(attrs: Seq<AttributeView>, i: int)
    requires
        0 <= i < attrs.len(),
        remote::candidate_in(attrs[i]) is Some,
    ensures
        remote::candidates_in(attrs).contains(remote::candidate_in(attrs[i])->0),
    decreases attrs.len(),
{
    let c = remote::candidate_in(attrs[i])->0;
    let init = attrs.drop_last();
    let first = remote::candidates_in(init);
    let all = remote::candidates_in(attrs);
    if i < init.len() {
        lemma_candidate_read(init, i);
        let k = choose|k: int| 0 <= k < first.len() && first[k] == c;
        assert(all[k] == c);
    } else {
        assert(all[first.len() as int] == c);
    }
}

proof fn lemma_candidate_found(sections: Seq<SectionView>, j: int, c: CandidateView)
    requires
        0 <= j < sections.len(),
        remote::candidates_in(sections[j].attributes).contains(c),
    ensures
        remote::candidates_of(sections).contains(c),
    decreases sections.len(),
{
    let init = sections.drop_last();
    let first = remote::candidates_of(init);
    let last = remote::candidates_in(sections.last().attributes);
    let all = remote::candidates_of(sections);
    if j < init.len() {
        lemma_candidate_found(init, j, c);
        let k = choose|k: int| 0 <= k < first.len() && first[k] == c;
        assert(all[k] == c);
    } else {
        let k = choose|k: int| 0 <= k < last.len() && last[k] == c;
        assert(all[first.len() + k] == c);
    }
}

proof fn lemma_candidate_written(
    v: PeerView,
    sdp_type: SdpType,
    ice: IceView,
    now: u64,
    k: int,
)
    requires
        v.config.transport_mode == TransportMode::WebRtc,
        v.transceivers.len() > 0,
        0 <= k < ice.gatherer.candidates.len(),
    ensures
        ({
            let sections = connection::described(v, sdp_type, ice, now).media_sections;
            &&& sections.len() > 0
            &&& 3 + k < sections[0].attributes.len()
            &&& sections[0].attributes[3 + k] == sdp::valued(
                "candidate"@,
                text::spaced(candidate::candidate_words(ice.gatherer.candidates[k])),
            )
        }),
{
    let c = ice.gatherer.candidates[k];
    let named = connection::named(v.transceivers, v.next_mid).0;
    connection::law_names_are_kept(v.transceivers, v.next_mid, 0);
    let sections = connection::described(v, sdp_type, ice, now).media_sections;
    let t = named[0];
    assert(sections[0] == connection::section_of(v, t, sdp_type, ice));
    let s = connection::reachable(
        t.kind,
        t.mid->0,
        connection::direction_in(t.direction, sdp_type),
        TransportMode::WebRtc,
        ice,
    );
    lemma_populated(s, t.kind, sdp_type, v.config, v.dtls_fingerprint);
    let r = sections[0];
    let n = s.attributes.len() as int;
    assert(r.attributes.subrange(0, n)[3 + k] == r.attributes[3 + k]);
    assert(s.attributes[3 + k] == sdp::valued(
        "candidate"@,
        text::spaced(candidate::candidate_words(c)),
    ));
}

proof fn lemma_candidate_of_text(c: CandidateView)
    requires
        c.address.ip is V4,
        c.address.wf(),
        text::is_word(c.foundation),
        text::is_word(c.transport),
        !text::starts_with(c.foundation, "candidate:"@),
    ensures
        remote::candidate_in(
            sdp::valued("candidate"@, text::spaced(candidate::candidate_words(c))),
        ) == Some(
            CandidateView { transport: text::lower(c.transport), related_address: None, ..c },
        ),
{
    candidate::law_parse_of_candidate(c);
}

/// An end that reads the description of another learns each candidate of that end whose text is
/// understood, without the related address. The text of an IPv6 address is not.
pub proof fn law_candidates_are_understood(
    v: PeerView,
    sdp_type: SdpType,
    ice: IceView,
    now: u64,
    k: int,
)
    requires
        v.config.transport_mode == TransportMode::WebRtc,
        v.transceivers.len() > 0,
        0 <= k < ice.gatherer.candidates.len(),
        ({
            let c = ice.gatherer.candidates[k];
            &&& c.address.ip is V4
            &&& c.address.wf()
            &&& text::is_word(c.foundation)
            &&& text::is_word(c.transport)
            &&& !text::starts_with(c.foundation, "candidate:"@)
        }),
    ensures
        remote::plan_for(
            TransportMode::WebRtc,
            connection::described(v, sdp_type, ice, now).media_sections,
        ) matches PlanView::Ice(_, cs) && cs.contains(
            CandidateView {
                transport: text::lower(ice.gatherer.candidates[k].transport),
                related_address: None,
                ..ice.gatherer.candidates[k]
            },
        ),
{
    law_description_is_understood(v, sdp_type, ice, now);
    let c = ice.gatherer.candidates[k];
    let sections = connection::described(v, sdp_type, ice, now).media_sections;
    lemma_candidate_written(v, sdp_type, ice, now, k);
    lemma_candidate_of_text(c);
    lemma_candidate_read(sections[0].attributes, 3 + k);
    lemma_candidate_found(
        sections,
        0,
        CandidateView { transport: text::lower(c.transport), related_address: None, ..c },
    );
}

/// The two ends take opposite parts in the handshake: an end that reads an offer starts it, and
/// one that reads an answer waits for the other.
pub proof fn law_roles_are_opposite(v: PeerView, ice: IceView, now: u64, mode: TransportMode)
    requires
        v.config.transport_mode != TransportMode::Rtp,
        mode != TransportMode::Rtp,
        v.transceivers.len() > 0,
    ensures
        remote::role_from(
            mode,
            connection::described(v, SdpType::Offer, ice, now).media_sections,
        ) == Some(true),
        remote::role_from(
            mode,
            connection::described(v, SdpType::Answer, ice, now).media_sections,
        ) == Some(false),
{
    lemma_section_role(v, SdpType::Offer, ice, now);
    lemma_section_role(v, SdpType::Answer, ice, now);
    lemma_keys_differ();
}

#[verifier::rlimit(40)]
proof fn lemma_section_role(v: PeerView, sdp_type: SdpType, ice: IceView, now: u64)
    requires
        v.config.transport_mode != TransportMode::Rtp,
        v.transceivers.len() > 0,
    ensures
        remote::setup_of(connection::described(v, sdp_type, ice, now).media_sections) == Some(
            capabilities::setup_value(sdp_type) != "active"@,
        ),
{
    let named = connection::named(v.transceivers, v.next_mid).0;
    connection::law_names_are_kept(v.transceivers, v.next_mid, 0);
    let sections = connection::described(v, sdp_type, ice, now).media_sections;
    let t = named[0];
    assert(sections[0] == connection::section_of(v, t, sdp_type, ice));
    let s = connection::reachable(
        t.kind,
        t.mid->0,
        connection::direction_in(t.direction, sdp_type),
        v.config.transport_mode,
        ice,
    );
    lemma_populated(s, t.kind, sdp_type, v.config, v.dtls_fingerprint);
    lemma_keys_differ();
    let r = sections[0];
    let n = s.attributes.len() as int;
    let end = r.attributes.len() - 1;
    assert forall|j: int| 0 <= j < end implies (#[trigger] r.attributes[j]).key != "setup"@ by {
        if j < n {
            assert(r.attributes.subrange(0, n)[j] == r.attributes[j]);
        }
    }
    lemma_setup_in(r.attributes, end);
}

/// Where ICE is not used, an end that reads the description of another learns the address of its
/// first candidate.
pub proof fn law_address_is_understood(
    v: PeerView,
    sdp_type: SdpType,
    ice: IceView,
    now: u64,
    mode: TransportMode,
)
    requires
        v.config.transport_mode != TransportMode::WebRtc,
        mode != TransportMode::WebRtc,
        v.transceivers.len() > 0,
        ice.gatherer.candidates.len() > 0,
    ensures
        remote::plan_for(mode, connection::described(v, sdp_type, ice, now).media_sections)
            == PlanView::Direct(ice.gatherer.candidates[0].address.unscoped()),
{
    let named = connection::named(v.transceivers, v.next_mid).0;
    connection::law_names_are_kept(v.transceivers, v.next_mid, 0);
    let sections = connection::described(v, sdp_type, ice, now).media_sections;
    let t = named.last();
    assert(sections.last() == connection::section_of(v, t, sdp_type, ice));
    let s = connection::reachable(
        t.kind,
        t.mid->0,
        connection::direction_in(t.direction, sdp_type),
        v.config.transport_mode,
        ice,
    );
    lemma_populated(s, t.kind, sdp_type, v.config, v.dtls_fingerprint);
    lemma_connection_words(ice.gatherer.candidates[0].address.ip);
}

proof fn lemma_connection_words(ip: IpAddr)
    ensures
        text::words("IN IP4 "@ + ip.text()) == seq!["IN"@, "IP4"@, ip.text()],
        address::bare_parsed(ip.text()) == Some(ip),
{
    address_laws::law_ip_text(ip);
    reveal_strlit("IN");
    reveal_strlit("IP4");
    reveal_strlit("IN IP4 ");
    let ws = seq!["IN"@, "IP4"@, ip.text()];
    assert forall|i: int| 0 <= i < ws.len() implies text::is_word(#[trigger] ws[i]) by {
        if i == 0 {
            assert(text::is_word("IN"@));
        } else if i == 1 {
            assert(text::is_word("IP4"@));
        }
    }
    text::lemma_words_of_spaced(ws);
    let two = ws.drop_first();
    let one = two.drop_first();
    assert(one.len() == 1 && one[0] == ip.text());
    assert(text::spaced(one) == ip.text());
    assert(text::spaced(two) == two[0].push(' ') + text::spaced(one));
    assert(text::spaced(ws) == ws[0].push(' ') + text::spaced(two));
    assert(text::spaced(ws) =~= "IN IP4 "@ + ip.text());
}

} // verus!
