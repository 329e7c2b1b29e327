//! What the sections of a description offer, as the other end reads them.
use vstd::prelude::*;
use vstd::string::*;

use crate::config::{AudioCapability, RtcConfiguration, TransportMode, VideoCapability};
use crate::peer_connection::capabilities;
use crate::peer_connection::connection;
use crate::peer_connection::connection::PeerView;
use crate::peer_connection::transceiver;
use crate::peer_connection::transceiver::{
    RtpCodecParameters, TransceiverDirection, TransceiverView,
};
use crate::sdp;
use crate::sdp::{AttributeView, Direction, MediaKind, SdpType, SectionView};
use crate::text;
use crate::transports::ice::address;
use crate::transports::ice::candidate::IceGathererState;
use crate::transports::ice::transport::IceView;

verus! {

/// What a format is.
#[verifier::ext_equal]
pub struct FormatView {
    pub payload_type: Option<nat>,
    pub name: Seq<char>,
    pub clock_rate: Option<nat>,
    pub channels: Option<nat>,
}

/// The format that the value of an `rtpmap` property stands for (RFC 8866): the payload type, a
/// space, the name, a slash, the clock rate and, where there are channels, a slash and their
/// number.
pub open spec fn format_read(v: Seq<char>) -> FormatView {
    let a = text::first_at(v, 0, ' ');
    let b = text::first_at(v, a + 1, '/');
    let c = text::first_at(v, b + 1, '/');
    FormatView {
        payload_type: text::parsed_number(v.subrange(0, a), 127),
        name: v.subrange(a + 1, b),
        clock_rate: text::parsed_number(v.subrange(b + 1, c), 0xFFFF_FFFF),
        channels: if c < v.len() {
            text::parsed_number(v.skip(c + 1), 255)
        } else {
            None
        },
    }
}

proof fn lemma_not_digit(n: nat, c: char)
    requires
        !text::is_digit(c),
    ensures
        forall|i: int| 0 <= i < text::decimal(n).len() ==> #[trigger] text::decimal(n)[i] != c,
        text::decimal(n).len() > 0,
{
    text::lemma_decimal(n);
    assert forall|i: int| 0 <= i < text::decimal(n).len() implies #[trigger] text::decimal(n)[i]
        != c by {
        assert(text::is_digit(text::decimal(n)[i]));
    }
}

proof fn lemma_first_none(cs: Seq<char>, from: int, c: char)
    requires
        0 <= from <= cs.len(),
        forall|i: int| from <= i < cs.len() ==> cs[i] != c,
    ensures
        text::first_at(cs, from, c) == cs.len(),
    decreases cs.len() - from,
{
    if from < cs.len() {
        lemma_first_none(cs, from + 1, c);
    }
}

/// An audio format that is offered is read as it was configured.
#[verifier::rlimit(40)]
pub proof fn law_audio_format_is_read_back(c: AudioCapability)
    requires
        c.payload_type <= 127,
        !c.codec_name@.contains('/'),
    ensures
        format_read(capabilities::audio_map(c)) == (FormatView {
            payload_type: Some(c.payload_type as nat),
            name: c.codec_name@,
            clock_rate: Some(c.clock_rate as nat),
            channels: Some(c.channels as nat),
        }),
{
    let v = capabilities::audio_map(c);
    let p = text::decimal(c.payload_type as nat);
    let r = text::decimal(c.clock_rate as nat);
    let n = text::decimal(c.channels as nat);
    reveal_strlit(" ");
    reveal_strlit("/");
    lemma_not_digit(c.payload_type as nat, ' ');
    lemma_not_digit(c.clock_rate as nat, '/');
    let a = p.len() as int;
    let b = a + 1 + c.codec_name@.len();
    let d = b + 1 + r.len();
    assert(v =~= p + seq![' '] + c.codec_name@ + seq!['/'] + r + seq!['/'] + n);
    assert forall|i: int| 0 <= i < a implies v[i] != ' ' by {
        assert(v[i] == p[i]);
    }
    assert(v[a] == ' ');
    address::lemma_first_at(v, 0, a, ' ');
    assert forall|i: int| a + 1 <= i < b implies v[i] != '/' by {
        assert(v[i] == c.codec_name@[i - a - 1]);
        assert(c.codec_name@.contains(c.codec_name@[i - a - 1]));
    }
    assert(v[b] == '/');
    address::lemma_first_at(v, a + 1, b, '/');
    assert forall|i: int| b + 1 <= i < d implies v[i] != '/' by {
        assert(v[i] == r[i - b - 1]);
    }
    assert(v[d] == '/');
    address::lemma_first_at(v, b + 1, d, '/');
    assert(v.subrange(0, a) =~= p);
    assert(v.subrange(a + 1, b) =~= c.codec_name@);
    assert(v.subrange(b + 1, d) =~= r);
    assert(v.skip(d + 1) =~= n);
    text::lemma_parsed_decimal(c.payload_type as nat, 127);
    text::lemma_parsed_decimal(c.clock_rate as nat, 0xFFFF_FFFF);
    text::lemma_parsed_decimal(c.channels as nat, 255);
}

/// A video format that is offered is read as it was configured.
#[verifier::rlimit(40)]
pub proof fn law_video_format_is_read_back(c: VideoCapability)
    requires
        c.payload_type <= 127,
        !c.codec_name@.contains('/'),
    ensures
        format_read(capabilities::video_map(c)) == (FormatView {
            payload_type: Some(c.payload_type as nat),
            name: c.codec_name@,
            clock_rate: Some(c.clock_rate as nat),
            channels: None,
        }),
{
    let v = capabilities::video_map(c);
    let p = text::decimal(c.payload_type as nat);
    let r = text::decimal(c.clock_rate as nat);
    reveal_strlit(" ");
    reveal_strlit("/");
    lemma_not_digit(c.payload_type as nat, ' ');
    lemma_not_digit(c.clock_rate as nat, '/');
    let a = p.len() as int;
    let b = a + 1 + c.codec_name@.len();
    assert(v =~= p + seq![' '] + c.codec_name@ + seq!['/'] + r);
    assert forall|i: int| 0 <= i < a implies v[i] != ' ' by {
        assert(v[i] == p[i]);
    }
    assert(v[a] == ' ');
    address::lemma_first_at(v, 0, a, ' ');
    assert forall|i: int| a + 1 <= i < b implies v[i] != '/' by {
        assert(v[i] == c.codec_name@[i - a - 1]);
        assert(c.codec_name@.contains(c.codec_name@[i - a - 1]));
    }
    assert(v[b] == '/');
    address::lemma_first_at(v, a + 1, b, '/');
    assert forall|i: int| b + 1 <= i < v.len() implies v[i] != '/' by {
        assert(v[i] == r[i - b - 1]);
    }
    lemma_first_none(v, b + 1, '/');
    assert(v.subrange(0, a) =~= p);
    assert(v.subrange(a + 1, b) =~= c.codec_name@);
    assert(v.subrange(b + 1, v.len() as int) =~= r);
    text::lemma_parsed_decimal(c.payload_type as nat, 127);
    text::lemma_parsed_decimal(c.clock_rate as nat, 0xFFFF_FFFF);
}

/// Whether an audio format is Opus as it is usually offered: payload type 111, 48 kHz, two
/// channels.
pub open spec fn is_opus(c: AudioCapability) -> bool {
    &&& c.payload_type == 111
    &&& c.codec_name@ == "opus"@
    &&& c.clock_rate == 48000
    &&& c.channels == 2
    &&& c.fmtp matches Some(f) && f@ == "minptime=10;useinbandfec=1"@
}

/// Whether a video format is VP8 as it is usually offered: payload type 96, 90 kHz, with
/// negative acknowledgements and feedback for the transport.
pub open spec fn is_vp8(c: VideoCapability) -> bool {
    &&& c.payload_type == 96
    &&& c.codec_name@ == "VP8"@
    &&& c.clock_rate == 90000
    &&& c.rtcp_fbs@.len() == 2
    &&& c.rtcp_fbs@[0]@ == "nack pli"@
    &&& c.rtcp_fbs@[1]@ == "transport-cc"@
}

proof fn lemma_numbers()
    ensures
        text::decimal(111) == seq!['1', '1', '1'],
        text::decimal(96) == seq!['9', '6'],
        text::decimal(2) == seq!['2'],
        text::decimal(48000) == seq!['4', '8', '0', '0', '0'],
        text::decimal(90000) == seq!['9', '0', '0', '0', '0'],
        text::decimal(5000) == seq!['5', '0', '0', '0'],
{
    reveal_with_fuel(text::decimal, 6);
    assert(text::decimal(111) =~= seq!['1', '1', '1']);
    assert(text::decimal(96) =~= seq!['9', '6']);
    assert(text::decimal(2) =~= seq!['2']);
    assert(text::decimal(48000) =~= seq!['4', '8', '0', '0', '0']);
    assert(text::decimal(90000) =~= seq!['9', '0', '0', '0', '0']);
    assert(text::decimal(5000) =~= seq!['5', '0', '0', '0']);
}

/// Where no audio formats are configured, a section offers what it would offer if Opus were
/// configured, and nothing else. Media is sent with the same payload type, clock rate and
/// channels.
#[verifier::rlimit(40)]
pub proof fn law_audio_is_opus_by_default(
    s: SectionView,
    bare: RtcConfiguration,
    full: RtcConfiguration,
    opus: AudioCapability,
)
    requires
        capabilities::audio_list(bare).len() == 0,
        capabilities::audio_list(full) == seq![opus],
        is_opus(opus),
    ensures
        capabilities::with_audio(s, bare) == capabilities::with_audio(s, full),
        transceiver::audio_parameters() == (RtpCodecParameters {
            payload_type: opus.payload_type,
            clock_rate: opus.clock_rate,
            channels: opus.channels,
        }),
{
    let cs = seq![opus];
    lemma_numbers();
    reveal_strlit(" ");
    reveal_strlit("/");
    reveal_strlit("opus");
    reveal_strlit("111");
    reveal_strlit("111 opus/48000/2");
    reveal_strlit("minptime=10;useinbandfec=1");
    reveal_strlit("111 minptime=10;useinbandfec=1");
    assert(capabilities::audio_map(opus) =~= "111 opus/48000/2"@);
    assert(capabilities::typed(111, "minptime=10;useinbandfec=1"@)
        =~= "111 minptime=10;useinbandfec=1"@);
    assert(cs.drop_last() =~= seq![]);
    let none = capabilities::all_audio_properties(cs.drop_last());
    assert(none =~= seq![]);
    assert(capabilities::all_audio_properties(cs) =~= seq![
        sdp::valued("rtpmap"@, "111 opus/48000/2"@),
        sdp::valued("fmtp"@, "111 minptime=10;useinbandfec=1"@),
    ]);
    assert(text::decimal(111) =~= "111"@);
    assert(capabilities::audio_formats(cs) =~= seq!["111"@]);
    assert(capabilities::with_audio(s, bare).attributes =~= capabilities::with_audio(
        s,
        full,
    ).attributes);
}

/// Where no video formats are configured, a section offers what it would offer if VP8 were
/// configured, and nothing else. Media is sent with the same payload type and clock rate.
pub proof fn law_video_is_vp8_by_default(
    s: SectionView,
    bare: RtcConfiguration,
    full: RtcConfiguration,
    vp8: VideoCapability,
)
    requires
        capabilities::video_list(bare).len() == 0,
        capabilities::video_list(full) == seq![vp8],
        is_vp8(vp8),
    ensures
        capabilities::with_video(s, bare) == capabilities::with_video(s, full),
        transceiver::video_parameters().payload_type == vp8.payload_type,
        transceiver::video_parameters().clock_rate == vp8.clock_rate,
{
    let cs = seq![vp8];
    lemma_numbers();
    lemma_vp8_text(vp8);
    assert(cs.drop_last() =~= seq![]);
    let none = capabilities::all_video_properties(cs.drop_last());
    assert(none =~= seq![]);
    assert(capabilities::feedback_properties(96, vp8.rtcp_fbs@) =~= seq![
        sdp::valued("rtcp-fb"@, "96 nack pli"@),
        sdp::valued("rtcp-fb"@, "96 transport-cc"@),
    ]);
    assert(capabilities::all_video_properties(cs) =~= seq![
        sdp::valued("rtpmap"@, "96 VP8/90000"@),
        sdp::valued("rtcp-fb"@, "96 nack pli"@),
        sdp::valued("rtcp-fb"@, "96 transport-cc"@),
    ]);
    assert(capabilities::video_formats(cs) =~= seq!["96"@]);
    assert(capabilities::with_video(s, bare).attributes =~= capabilities::with_video(
        s,
        full,
    ).attributes);
}

proof fn lemma_vp8_text(vp8: VideoCapability)
    requires
        is_vp8(vp8),
    ensures
        capabilities::video_map(vp8) == "96 VP8/90000"@,
        capabilities::typed(96, "nack pli"@) == "96 nack pli"@,
        capabilities::typed(96, "transport-cc"@) == "96 transport-cc"@,
        text::decimal(96) == "96"@,
{
    lemma_numbers();
    reveal_strlit(" ");
    reveal_strlit("/");
    reveal_strlit("96");
    reveal_strlit("VP8");
    reveal_strlit("96 VP8/90000");
    reveal_strlit("nack pli");
    reveal_strlit("96 nack pli");
    reveal_strlit("transport-cc");
    reveal_strlit("96 transport-cc");
    assert(capabilities::video_map(vp8) =~= "96 VP8/90000"@);
    assert(capabilities::typed(96, "nack pli"@) =~= "96 nack pli"@);
    assert(capabilities::typed(96, "transport-cc"@) =~= "96 transport-cc"@);
    assert(text::decimal(96) =~= "96"@);
}

/// Where no audio formats are configured, the other end reads of an audio section Opus: payload
/// type 111, 48 kHz, two channels, with the parameters that it is sent with.
pub proof fn law_opus_is_read(s: SectionView, config: RtcConfiguration)
    requires
        capabilities::audio_list(config).len() == 0,
    ensures
        ({
            let r = capabilities::with_audio(s, config);
            let n = s.attributes.len() as int;
            let p = transceiver::audio_parameters();
            &&& r.attributes.len() == n + 3
            &&& r.attributes[n] == sdp::flag("rtcp-mux"@)
            &&& r.attributes[n + 1].key == "rtpmap"@
            &&& r.attributes[n + 1].value matches Some(v) && format_read(v) == (FormatView {
                payload_type: Some(111),
                name: "opus"@,
                clock_rate: Some(48000),
                channels: Some(2),
            })
            &&& r.attributes[n + 2] == sdp::valued("fmtp"@, "111 minptime=10;useinbandfec=1"@)
            &&& r.formats == seq![text::decimal(111)]
            &&& p.payload_type == 111 && p.clock_rate == 48000 && p.channels == 2
        }),
{
    let v = "111 opus/48000/2"@;
    reveal_strlit("111 opus/48000/2");
    reveal_strlit("111");
    reveal_strlit("opus");
    lemma_numbers();
    address::lemma_first_at(v, 0, 3, ' ');
    address::lemma_first_at(v, 4, 8, '/');
    address::lemma_first_at(v, 9, 14, '/');
    assert(v.subrange(0, 3) =~= text::decimal(111));
    assert(v.subrange(4, 8) =~= "opus"@);
    assert(v.subrange(9, 14) =~= text::decimal(48000));
    assert(v.skip(15) =~= text::decimal(2));
    text::lemma_parsed_decimal(111, 127);
    text::lemma_parsed_decimal(48000, 0xFFFF_FFFF);
    text::lemma_parsed_decimal(2, 255);
    assert("111"@ =~= text::decimal(111));
}

/// Where no video formats are configured, the other end reads of a video section VP8: payload
/// type 96, 90 kHz.
pub proof fn law_vp8_is_read(s: SectionView, config: RtcConfiguration)
    requires
        capabilities::video_list(config).len() == 0,
    ensures
        ({
            let r = capabilities::with_video(s, config);
            let n = s.attributes.len() as int;
            let p = transceiver::video_parameters();
            &&& r.attributes.len() == n + 4
            &&& r.attributes[n] == sdp::flag("rtcp-mux"@)
            &&& r.attributes[n + 1].key == "rtpmap"@
            &&& r.attributes[n + 1].value matches Some(v) && format_read(v) == (FormatView {
                payload_type: Some(96),
                name: "VP8"@,
                clock_rate: Some(90000),
                channels: None,
            })
            &&& r.attributes[n + 2] == sdp::valued("rtcp-fb"@, "96 nack pli"@)
            &&& r.attributes[n + 3] == sdp::valued("rtcp-fb"@, "96 transport-cc"@)
            &&& r.formats == seq![text::decimal(96)]
            &&& p.payload_type == 96 && p.clock_rate == 90000
        }),
{
    let v = "96 VP8/90000"@;
    reveal_strlit("96 VP8/90000");
    reveal_strlit("96");
    reveal_strlit("VP8");
    lemma_numbers();
    address::lemma_first_at(v, 0, 2, ' ');
    address::lemma_first_at(v, 3, 6, '/');
    lemma_first_none(v, 7, '/');
    assert(v.subrange(0, 2) =~= text::decimal(96));
    assert(v.subrange(3, 6) =~= "VP8"@);
    assert(v.subrange(7, 12) =~= text::decimal(90000));
    text::lemma_parsed_decimal(96, 127);
    text::lemma_parsed_decimal(90000, 0xFFFF_FFFF);
    assert("96"@ =~= text::decimal(96));
}

/// Every audio format that is configured is offered, with its parameters, where it has some: the
/// section lists its payload type, and says what it is.
pub proof fn law_configured_audio_is_offered(s: SectionView, config: RtcConfiguration, i: int)
    requires
        0 <= i < capabilities::audio_list(config).len(),
    ensures
        ({
            let r = capabilities::with_audio(s, config);
            let c = capabilities::audio_list(config)[i];
            &&& r.formats.len() == capabilities::audio_list(config).len()
            &&& r.formats[i] == text::decimal(c.payload_type as nat)
            &&& r.attributes.contains(sdp::flag("rtcp-mux"@))
            &&& r.attributes.contains(sdp::valued("rtpmap"@, capabilities::audio_map(c)))
            &&& c.fmtp matches Some(f) ==> r.attributes.contains(
                sdp::valued("fmtp"@, text::decimal(c.payload_type as nat) + " "@ + f@),
            )
        }),
{
    let cs = capabilities::audio_list(config);
    let c = cs[i];
    let r = capabilities::with_audio(s, config);
    let n = s.attributes.len() as int;
    let all = capabilities::all_audio_properties(cs);
    lemma_audio_in(cs, i);
    assert(r.attributes[n] == sdp::flag("rtcp-mux"@));
    let map = sdp::valued("rtpmap"@, capabilities::audio_map(c));
    let k = choose|k: int| 0 <= k < all.len() && all[k] == map;
    assert(r.attributes[n + 1 + k] == map);
    if let Some(f) = c.fmtp {
        let line = sdp::valued("fmtp"@, text::decimal(c.payload_type as nat) + " "@ + f@);
        let j = choose|j: int| 0 <= j < all.len() && all[j] == line;
        assert(r.attributes[n + 1 + j] == line);
    }
}

proof fn lemma_audio_in(cs: Seq<AudioCapability>, i: int)
    requires
        0 <= i < cs.len(),
    ensures
        ({
            let all = capabilities::all_audio_properties(cs);
            let c = cs[i];
            &&& all.contains(sdp::valued("rtpmap"@, capabilities::audio_map(c)))
            &&& c.fmtp matches Some(f) ==> all.contains(
                sdp::valued("fmtp"@, text::decimal(c.payload_type as nat) + " "@ + f@),
            )
        }),
    decreases cs.len(),
{
    let c = cs[i];
    let all = capabilities::all_audio_properties(cs);
    let first = capabilities::all_audio_properties(cs.drop_last());
    let map = sdp::valued("rtpmap"@, capabilities::audio_map(c));
    if i < cs.len() - 1 {
        lemma_audio_in(cs.drop_last(), i);
        let k = choose|k: int| 0 <= k < first.len() && first[k] == map;
        assert(all[k] == map);
        if let Some(f) = c.fmtp {
            let line = sdp::valued("fmtp"@, text::decimal(c.payload_type as nat) + " "@ + f@);
            let j = choose|j: int| 0 <= j < first.len() && first[j] == line;
            assert(all[j] == line);
        }
    } else {
        assert(all[first.len() as int] == map);
        if let Some(f) = c.fmtp {
            let line = sdp::valued("fmtp"@, text::decimal(c.payload_type as nat) + " "@ + f@);
            assert(all[first.len() as int + 1] == line);
        }
    }
}

/// Every video format that is configured is offered, with each kind of feedback.
pub proof fn law_configured_video_is_offered(
    s: SectionView,
    config: RtcConfiguration,
    i: int,
    j: int,
)
    requires
        0 <= i < capabilities::video_list(config).len(),
        0 <= j < capabilities::video_list(config)[i].rtcp_fbs@.len(),
    ensures
        ({
            let r = capabilities::with_video(s, config);
            let c = capabilities::video_list(config)[i];
            &&& r.formats.len() == capabilities::video_list(config).len()
            &&& r.formats[i] == text::decimal(c.payload_type as nat)
            &&& r.attributes.contains(sdp::flag("rtcp-mux"@))
            &&& r.attributes.contains(sdp::valued("rtpmap"@, capabilities::video_map(c)))
            &&& r.attributes.contains(
                sdp::valued(
                    "rtcp-fb"@,
                    text::decimal(c.payload_type as nat) + " "@ + c.rtcp_fbs@[j]@,
                ),
            )
        }),
{
    let cs = capabilities::video_list(config);
    let c = cs[i];
    let r = capabilities::with_video(s, config);
    let n = s.attributes.len() as int;
    let all = capabilities::all_video_properties(cs);
    lemma_video_in(cs, i, j);
    assert(r.attributes[n] == sdp::flag("rtcp-mux"@));
    let map = sdp::valued("rtpmap"@, capabilities::video_map(c));
    let k = choose|k: int| 0 <= k < all.len() && all[k] == map;
    assert(r.attributes[n + 1 + k] == map);
    let line = sdp::valued(
        "rtcp-fb"@,
        text::decimal(c.payload_type as nat) + " "@ + c.rtcp_fbs@[j]@,
    );
    let l = choose|l: int| 0 <= l < all.len() && all[l] == line;
    assert(r.attributes[n + 1 + l] == line);
}

proof fn lemma_video_in(cs: Seq<VideoCapability>, i: int, j: int)
    requires
        0 <= i < cs.len(),
        0 <= j < cs[i].rtcp_fbs@.len(),
    ensures
        ({
            let all = capabilities::all_video_properties(cs);
            let c = cs[i];
            &&& all.contains(sdp::valued("rtpmap"@, capabilities::video_map(c)))
            &&& all.contains(
                sdp::valued(
                    "rtcp-fb"@,
                    text::decimal(c.payload_type as nat) + " "@ + c.rtcp_fbs@[j]@,
                ),
            )
        }),
    decreases cs.len(),
{
    let c = cs[i];
    let all = capabilities::all_video_properties(cs);
    let first = capabilities::all_video_properties(cs.drop_last());
    let map = sdp::valued("rtpmap"@, capabilities::video_map(c));
    let line = sdp::valued(
        "rtcp-fb"@,
        text::decimal(c.payload_type as nat) + " "@ + c.rtcp_fbs@[j]@,
    );
    if i < cs.len() - 1 {
        lemma_video_in(cs.drop_last(), i, j);
        let k = choose|k: int| 0 <= k < first.len() && first[k] == map;
        assert(all[k] == map);
        let l = choose|l: int| 0 <= l < first.len() && first[l] == line;
        assert(all[l] == line);
    } else {
        assert(all[first.len() as int] == map);
        assert(all[first.len() + 1 + j] == line);
    }
}

/// A section for data channels names the protocol and the port: the one that is configured, or
/// 5000.
pub proof fn law_data_channels_are_offered(s: SectionView, config: RtcConfiguration)
    ensures
        ({
            let r = capabilities::with_application(s, config);
            let n = s.attributes.len() as int;
            let port = match config.media_capabilities {
                Some(caps) => match caps.application {
                    Some(app) => app.sctp_port,
                    None => 5000,
                },
                None => 5000,
            };
            &&& r.protocol == "UDP/DTLS/SCTP"@
            &&& r.formats == seq!["webrtc-datachannel"@]
            &&& r.attributes.len() == n + 1
            &&& r.attributes[n].key == "sctp-port"@
            &&& r.attributes[n].value matches Some(v) && text::parsed_number(v, 65535) == Some(
                port as nat,
            )
            &&& r == (SectionView {
                protocol: r.protocol,
                formats: r.formats,
                attributes: r.attributes,
                ..s
            })
        }),
{
    text::lemma_parsed_decimal(capabilities::sctp_port(config) as nat, 65535);
}

/// A section ends with the fingerprint of this end and who starts the handshake: an answer says
/// that its end does, an offer leaves it open. Where media goes in the clear there is neither.
pub proof fn law_fingerprint_is_described(
    s: SectionView,
    kind: MediaKind,
    t: SdpType,
    config: RtcConfiguration,
    fingerprint: Seq<char>,
)
    ensures
        ({
            let r = capabilities::populated(s, kind, t, config, fingerprint);
            let offered = match kind {
                MediaKind::Audio => capabilities::with_audio(s, config),
                MediaKind::Video => capabilities::with_video(s, config),
                MediaKind::Application => capabilities::with_application(s, config),
            };
            let n = offered.attributes.len() as int;
            &&& config.transport_mode == TransportMode::Rtp ==> r == offered
            &&& config.transport_mode != TransportMode::Rtp ==> {
                &&& r.attributes.len() == n + 2
                &&& r.attributes.subrange(0, n) == offered.attributes
                &&& r.attributes[n] == sdp::valued("fingerprint"@, "sha-256 "@ + fingerprint)
                &&& r.attributes[n + 1] == sdp::valued(
                    "setup"@,
                    if t == SdpType::Answer {
                        "active"@
                    } else {
                        "actpass"@
                    },
                )
                &&& r == (SectionView { attributes: r.attributes, ..offered })
            }
        }),
{
    let r = capabilities::populated(s, kind, t, config, fingerprint);
    let offered = match kind {
        MediaKind::Audio => capabilities::with_audio(s, config),
        MediaKind::Video => capabilities::with_video(s, config),
        MediaKind::Application => capabilities::with_application(s, config),
    };
    let n = offered.attributes.len() as int;
    if config.transport_mode != TransportMode::Rtp {
        assert(r.attributes.subrange(0, n) =~= offered.attributes);
    }
}

/// Whether media of this direction is sent.
pub open spec fn sends(d: TransceiverDirection) -> bool {
    d == TransceiverDirection::SendRecv || d == TransceiverDirection::SendOnly
}

/// Whether media of this direction is received.
pub open spec fn receives(d: TransceiverDirection) -> bool {
    d == TransceiverDirection::SendRecv || d == TransceiverDirection::RecvOnly
}

/// Whether a description says that its end sends.
pub open spec fn says_send(d: Direction) -> bool {
    d == Direction::SendRecv || d == Direction::SendOnly
}

/// Whether a description says that its end receives.
pub open spec fn says_receive(d: Direction) -> bool {
    d == Direction::SendRecv || d == Direction::RecvOnly
}

/// What one end sends the other receives: an offer says what the medium does, and an answer the
/// reverse.
pub proof fn law_flows_are_mirrored(d: TransceiverDirection, t: SdpType)
    ensures
        sends(d.answered()) == receives(d),
        receives(d.answered()) == sends(d),
        says_send(d.described()) == sends(d),
        says_receive(d.described()) == receives(d),
        t == SdpType::Answer ==> says_send(connection::direction_in(d, t)) == receives(d)
            && says_receive(connection::direction_in(d, t)) == sends(d),
        t != SdpType::Answer ==> says_send(connection::direction_in(d, t)) == sends(d)
            && says_receive(connection::direction_in(d, t)) == receives(d),
{
}

/// A description has one section for each medium, in order, of its kind, under its name and in its
/// direction. Data channels go over SCTP, media over SRTP or, where nothing is protected, over RTP.
pub proof fn law_sections_follow_media(
    v: PeerView,
    sdp_type: SdpType,
    ice: IceView,
    now: u64,
    i: int,
)
    requires
        0 <= i < v.transceivers.len(),
    ensures
        ({
            let d = connection::described(v, sdp_type, ice, now);
            let s = d.media_sections[i];
            let t = v.transceivers[i];
            &&& d.sdp_type == sdp_type
            &&& d.session.origin.session_id == now
            &&& now < u64::MAX ==> d.session.origin.session_version == now + 1
            &&& d.media_sections.len() == v.transceivers.len()
            &&& s.kind == t.kind
            &&& t.mid is Some ==> s.mid == t.mid->0
            &&& says_send(s.direction) == if sdp_type == SdpType::Answer {
                receives(t.direction)
            } else {
                sends(t.direction)
            }
            &&& says_receive(s.direction) == if sdp_type == SdpType::Answer {
                sends(t.direction)
            } else {
                receives(t.direction)
            }
            &&& s.protocol == if t.kind == MediaKind::Application {
                "UDP/DTLS/SCTP"@
            } else if v.config.transport_mode == TransportMode::Rtp {
                "RTP/AVPF"@
            } else {
                "UDP/TLS/RTP/SAVPF"@
            }
            &&& v.config.transport_mode == TransportMode::WebRtc ==> s.port == 9
                && s.connection is None
        }),
{
    connection::law_names_are_kept(v.transceivers, v.next_mid, i);
    let named = connection::named(v.transceivers, v.next_mid).0;
    let d = connection::described(v, sdp_type, ice, now);
    assert(d.media_sections[i] == connection::section_of(v, named[i], sdp_type, ice));
}

/// Where ICE is used, a section starts with what the other end needs to check this end: the user
/// name fragment, the password, that candidates may follow, the candidates, and, once gathering is
/// complete, that there are no more.
pub proof fn law_ice_is_described(v: PeerView, t: TransceiverView, sdp_type: SdpType, ice: IceView)
    requires
        v.config.transport_mode == TransportMode::WebRtc,
    ensures
        ({
            let r = connection::reachable(
                t.kind,
                t.mid->0,
                connection::direction_in(t.direction, sdp_type),
                v.config.transport_mode,
                ice,
            );
            let n = ice.gatherer.candidates.len() as int;
            let complete = ice.gatherer.state == IceGathererState::Complete;
            &&& r.attributes.len() == 3 + n + if complete {
                1int
            } else {
                0
            }
            &&& r.attributes[0] == sdp::valued("ice-ufrag"@, ice.local_parameters.username_fragment)
            &&& r.attributes[1] == sdp::valued("ice-pwd"@, ice.local_parameters.password)
            &&& r.attributes[2] == sdp::valued("ice-options"@, "trickle"@)
            &&& forall|k: int|
                0 <= k < n ==> (#[trigger] r.attributes[3 + k]).key == "candidate"@
            &&& complete ==> r.attributes[3 + n] == sdp::flag("end-of-candidates"@)
        }),
{
    let r = connection::reachable(
        t.kind,
        t.mid->0,
        connection::direction_in(t.direction, sdp_type),
        v.config.transport_mode,
        ice,
    );
    let n = ice.gatherer.candidates.len() as int;
    assert forall|k: int| 0 <= k < n implies (#[trigger] r.attributes[3 + k]).key
        == "candidate"@ by {}
}

/// Media without names are numbered on from the next number, one after the other.
pub proof fn law_names_are_numbers(ts: Seq<TransceiverView>, next: u16, i: int)
    requires
        0 <= i < ts.len(),
        forall|k: int| 0 <= k < ts.len() ==> (#[trigger] ts[k]).mid is None,
        next + ts.len() < 0x1_0000,
    ensures
        connection::named(ts, next).0.len() == ts.len(),
        connection::named(ts, next).0[i].mid == Some(text::decimal((next + i) as nat)),
        connection::named(ts, next).1 == next + ts.len(),
    decreases ts.len(),
{
    let init = ts.drop_last();
    if init.len() > 0 {
        assert forall|k: int| 0 <= k < init.len() implies (#[trigger] init[k]).mid is None by {
            assert(init[k] == ts[k]);
        }
        law_names_are_numbers(init, next, if i < init.len() { i } else { 0 });
    } else {
        assert(connection::named(init, next).0.len() == 0);
    }
    assert(ts[ts.len() - 1].mid is None);
}

} // verus!
