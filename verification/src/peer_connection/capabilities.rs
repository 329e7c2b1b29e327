//! What a media section offers: formats, feedback and the parameters of the DTLS handshake.
use vstd::prelude::*;
use vstd::string::*;

use crate::config::{
    AudioCapability, MediaCapabilities, RtcConfiguration, TransportMode, VideoCapability,
};
use crate::sdp;
use crate::sdp::{AttributeView, MediaKind, MediaSection, SdpType, SectionView};
use crate::text;

verus! {

/// The port of SCTP, unless told otherwise.
pub const SCTP_PORT: u16 = 5000;

/// What the properties `rtpmap` and the like start with: the payload type.
pub open spec fn typed(payload_type: u8, rest: Seq<char>) -> Seq<char> {
    text::decimal(payload_type as nat) + " "@ + rest
}

/// The format of audio: its name, clock rate and channels.
pub open spec fn audio_map(c: AudioCapability) -> Seq<char> {
    typed(
        c.payload_type,
        c.codec_name@ + "/"@ + text::decimal(c.clock_rate as nat) + "/"@ + text::decimal(
            c.channels as nat,
        ),
    )
}

/// The properties of an audio format.
pub open spec fn audio_properties(c: AudioCapability) -> Seq<AttributeView> {
    seq![sdp::valued("rtpmap"@, audio_map(c))] + match c.fmtp {
        Some(f) => seq![sdp::valued("fmtp"@, typed(c.payload_type, f@))],
        None => seq![],
    }
}

/// The properties of some audio formats.
pub open spec fn all_audio_properties(cs: Seq<AudioCapability>) -> Seq<AttributeView>
    decreases cs.len(),
{
    if cs.len() == 0 {
        seq![]
    } else {
        all_audio_properties(cs.drop_last()) + audio_properties(cs.last())
    }
}

/// The format of video: its name and clock rate.
pub open spec fn video_map(c: VideoCapability) -> Seq<char> {
    typed(c.payload_type, c.codec_name@ + "/"@ + text::decimal(c.clock_rate as nat))
}

/// The kinds of feedback for a video format.
pub open spec fn feedback_properties(payload_type: u8, fbs: Seq<String>) -> Seq<AttributeView> {
    fbs.map_values(|fb: String| sdp::valued("rtcp-fb"@, typed(payload_type, fb@)))
}

/// The properties of a video format.
pub open spec fn video_properties(c: VideoCapability) -> Seq<AttributeView> {
    seq![sdp::valued("rtpmap"@, video_map(c))] + feedback_properties(c.payload_type, c.rtcp_fbs@)
}

/// The properties of some video formats.
pub open spec fn all_video_properties(cs: Seq<VideoCapability>) -> Seq<AttributeView>
    decreases cs.len(),
{
    if cs.len() == 0 {
        seq![]
    } else {
        all_video_properties(cs.drop_last()) + video_properties(cs.last())
    }
}

/// The payload types of some audio formats, in text.
pub open spec fn audio_formats(cs: Seq<AudioCapability>) -> Seq<Seq<char>> {
    cs.map_values(|c: AudioCapability| text::decimal(c.payload_type as nat))
}

/// The payload types of some video formats, in text.
pub open spec fn video_formats(cs: Seq<VideoCapability>) -> Seq<Seq<char>> {
    cs.map_values(|c: VideoCapability| text::decimal(c.payload_type as nat))
}

/// The audio formats that are to be offered; none where Opus is.
pub open spec fn audio_list(config: RtcConfiguration) -> Seq<AudioCapability> {
    match config.media_capabilities {
        Some(caps) => caps.audio@,
        None => seq![],
    }
}

/// The video formats that are to be offered; none where VP8 is.
pub open spec fn video_list(config: RtcConfiguration) -> Seq<VideoCapability> {
    match config.media_capabilities {
        Some(caps) => caps.video@,
        None => seq![],
    }
}

/// A section that offers audio: the formats of the configuration, or Opus.
pub open spec fn with_audio(s: SectionView, config: RtcConfiguration) -> SectionView {
    let cs = audio_list(config);
    if cs.len() > 0 {
        SectionView {
            formats: audio_formats(cs),
            attributes: s.attributes + seq![sdp::flag("rtcp-mux"@)] + all_audio_properties(cs),
            ..s
        }
    } else {
        SectionView {
            formats: seq!["111"@],
            attributes: s.attributes + seq![
                sdp::flag("rtcp-mux"@),
                sdp::valued("rtpmap"@, "111 opus/48000/2"@),
                sdp::valued("fmtp"@, "111 minptime=10;useinbandfec=1"@),
            ],
            ..s
        }
    }
}

/// A section that offers video: the formats of the configuration, or VP8.
pub open spec fn with_video(s: SectionView, config: RtcConfiguration) -> SectionView {
    let cs = video_list(config);
    if cs.len() > 0 {
        SectionView {
            formats: video_formats(cs),
            attributes: s.attributes + seq![sdp::flag("rtcp-mux"@)] + all_video_properties(cs),
            ..s
        }
    } else {
        SectionView {
            formats: seq!["96"@],
            attributes: s.attributes + seq![
                sdp::flag("rtcp-mux"@),
                sdp::valued("rtpmap"@, "96 VP8/90000"@),
                sdp::valued("rtcp-fb"@, "96 nack pli"@),
                sdp::valued("rtcp-fb"@, "96 transport-cc"@),
            ],
            ..s
        }
    }
}

/// The port of SCTP that is offered.
pub open spec fn sctp_port(config: RtcConfiguration) -> u16 {
    match config.media_capabilities {
        Some(caps) => match caps.application {
            Some(app) => app.sctp_port,
            None => SCTP_PORT,
        },
        None => SCTP_PORT,
    }
}

/// A section that offers data channels.
pub open spec fn with_application(s: SectionView, config: RtcConfiguration) -> SectionView {
    SectionView {
        protocol: "UDP/DTLS/SCTP"@,
        formats: seq!["webrtc-datachannel"@],
        attributes: s.attributes + seq![
            sdp::valued("sctp-port"@, text::decimal(sctp_port(config) as nat)),
        ],
        ..s
    }
}

/// Which end starts the handshake: an offer leaves it open, an answer starts it.
pub open spec fn setup_value(sdp_type: SdpType) -> Seq<char> {
    match sdp_type {
        SdpType::Answer => "active"@,
        _ => "actpass"@,
    }
}

/// A section with the fingerprint of this end and who starts the handshake.
pub open spec fn with_dtls(s: SectionView, fingerprint: Seq<char>, sdp_type: SdpType) -> SectionView {
    SectionView {
        attributes: s.attributes + seq![
            sdp::valued("fingerprint"@, "sha-256 "@ + fingerprint),
            sdp::valued("setup"@, setup_value(sdp_type)),
        ],
        ..s
    }
}

/// A section with all that it offers.
pub open spec fn populated(
    s: SectionView,
    kind: MediaKind,
    sdp_type: SdpType,
    config: RtcConfiguration,
    fingerprint: Seq<char>,
) -> SectionView {
    let offered = match kind {
        MediaKind::Audio => with_audio(s, config),
        MediaKind::Video => with_video(s, config),
        MediaKind::Application => with_application(s, config),
    };
    if config.transport_mode != TransportMode::Rtp {
        with_dtls(offered, fingerprint, sdp_type)
    } else {
        offered
    }
}

fn typed_text(payload_type: u8, rest: &str) -> (r: String)
    ensures
        r@ == typed(payload_type, rest@),
{
    let mut out = text::decimal_string(payload_type as u64);
    out.append(" ");
    out.append(rest);
    assert(out@ =~= typed(payload_type, rest@));
    out
}

fn push_audio(section: &mut MediaSection, c: &AudioCapability)
    ensures
        final(section)@ == (SectionView {
            attributes: old(section)@.attributes + audio_properties(*c),
            ..old(section)@
        }),
{
    let mut map = c.codec_name.clone();
    map.append("/");
    text::push_decimal(&mut map, c.clock_rate as u64);
    map.append("/");
    text::push_decimal(&mut map, c.channels as u64);
    assert(map@ =~= c.codec_name@ + "/"@ + text::decimal(c.clock_rate as nat) + "/"@ + text::decimal(
        c.channels as nat,
    ));
    section.push_valued("rtpmap", typed_text(c.payload_type, map.as_str()));
    if let Some(f) = &c.fmtp {
        section.push_valued("fmtp", typed_text(c.payload_type, f.as_str()));
    }
    assert(section@.attributes =~= old(section)@.attributes + audio_properties(*c));
}

fn push_video(section: &mut MediaSection, c: &VideoCapability)
    ensures
        final(section)@ == (SectionView {
            attributes: old(section)@.attributes + video_properties(*c),
            ..old(section)@
        }),
{
    let mut map = c.codec_name.clone();
    map.append("/");
    text::push_decimal(&mut map, c.clock_rate as u64);
    assert(map@ =~= c.codec_name@ + "/"@ + text::decimal(c.clock_rate as nat));
    section.push_valued("rtpmap", typed_text(c.payload_type, map.as_str()));
    let ghost first = section@;
    let ghost all = feedback_properties(c.payload_type, c.rtcp_fbs@);
    let n: usize = c.rtcp_fbs.len();
    let mut i: usize = 0;
    assert(section@.attributes =~= first.attributes + all.subrange(0, 0));
    while i < n
        invariant
            n == c.rtcp_fbs@.len(),
            all == feedback_properties(c.payload_type, c.rtcp_fbs@),
            i <= n,
            section@ == (SectionView {
                attributes: first.attributes + all.subrange(0, i as int),
                ..first
            }),
        decreases n - i,
    {
        section.push_valued("rtcp-fb", typed_text(c.payload_type, c.rtcp_fbs[i].as_str()));
        i += 1;
        assert(section@.attributes =~= first.attributes + all.subrange(0, i as int));
    }
    assert(all.subrange(0, n as int) =~= all);
    assert(section@.attributes =~= old(section)@.attributes + video_properties(*c));
}

fn set_formats(section: &mut MediaSection, formats: Vec<String>)
    ensures
        final(section)@ == (SectionView { formats: text::string_views(formats@), ..old(section)@ }),
{
    section.formats = formats;
}

fn push_format(formats: &mut Vec<String>, payload_type: u8)
    ensures
        text::string_views(final(formats)@) == text::string_views(old(formats)@).push(
            text::decimal(payload_type as nat),
        ),
{
    let s = text::decimal_string(payload_type as u64);
    let ghost view = s@;
    formats.push(s);
    assert(text::string_views(formats@) =~= text::string_views(old(formats)@).push(view));
}

fn one_format(name: &str) -> (r: Vec<String>)
    ensures
        text::string_views(r@) == seq![name@],
{
    let mut out: Vec<String> = Vec::new();
    out.push(String::from_str(name));
    assert(text::string_views(out@) =~= seq![name@]);
    out
}

fn offer_audio(section: &mut MediaSection, caps: &MediaCapabilities)
    requires
        caps.audio@.len() > 0,
    ensures
        final(section)@ == (SectionView {
            formats: audio_formats(caps.audio@),
            attributes: old(section)@.attributes + seq![sdp::flag("rtcp-mux"@)]
                + all_audio_properties(caps.audio@),
            ..old(section)@
        }),
{
    let n: usize = caps.audio.len();
    let mut formats: Vec<String> = Vec::new();
    let mut i: usize = 0;
    while i < n
        invariant
            n == caps.audio@.len(),
            i <= n,
            text::string_views(formats@) == audio_formats(caps.audio@).subrange(0, i as int),
        decreases n - i,
    {
        push_format(&mut formats, caps.audio[i].payload_type);
        i += 1;
        assert(text::string_views(formats@) =~= audio_formats(caps.audio@).subrange(0, i as int));
    }
    assert(audio_formats(caps.audio@).subrange(0, n as int) =~= audio_formats(caps.audio@));
    set_formats(section, formats);
    section.push_flag("rtcp-mux");
    let ghost first = section@;
    let mut k: usize = 0;
    assert(first.attributes =~= old(section)@.attributes + seq![sdp::flag("rtcp-mux"@)]);
    assert(first.attributes + all_audio_properties(caps.audio@.subrange(0, 0))
        =~= first.attributes);
    while k < n
        invariant
            n == caps.audio@.len(),
            k <= n,
            section@ == (SectionView {
                attributes: first.attributes + all_audio_properties(
                    caps.audio@.subrange(0, k as int),
                ),
                ..first
            }),
        decreases n - k,
    {
        push_audio(section, &caps.audio[k]);
        k += 1;
        proof {
            let head = caps.audio@.subrange(0, k as int);
            assert(head.drop_last() =~= caps.audio@.subrange(0, k - 1));
            assert(section@.attributes =~= first.attributes + all_audio_properties(head));
        }
    }
    assert(caps.audio@.subrange(0, n as int) =~= caps.audio@);
}

/// Offers audio in a section.
pub fn apply_audio_capabilities(section: &mut MediaSection, config: &RtcConfiguration)
    ensures
        final(section)@ == with_audio(old(section)@, *config),
{
    if let Some(caps) = &config.media_capabilities {
        if caps.audio.len() > 0 {
            offer_audio(section, caps);
            return;
        }
    }
    set_formats(section, one_format("111"));
    section.push_flag("rtcp-mux");
    section.push_valued("rtpmap", String::from_str("111 opus/48000/2"));
    section.push_valued("fmtp", String::from_str("111 minptime=10;useinbandfec=1"));
    assert(section@ =~= with_audio(old(section)@, *config));
}

fn offer_video(section: &mut MediaSection, caps: &MediaCapabilities)
    requires
        caps.video@.len() > 0,
    ensures
        final(section)@ == (SectionView {
            formats: video_formats(caps.video@),
            attributes: old(section)@.attributes + seq![sdp::flag("rtcp-mux"@)]
                + all_video_properties(caps.video@),
            ..old(section)@
        }),
{
    let n: usize = caps.video.len();
    let mut formats: Vec<String> = Vec::new();
    let mut i: usize = 0;
    while i < n
        invariant
            n == caps.video@.len(),
            i <= n,
            text::string_views(formats@) == video_formats(caps.video@).subrange(0, i as int),
        decreases n - i,
    {
        push_format(&mut formats, caps.video[i].payload_type);
        i += 1;
        assert(text::string_views(formats@) =~= video_formats(caps.video@).subrange(0, i as int));
    }
    assert(video_formats(caps.video@).subrange(0, n as int) =~= video_formats(caps.video@));
    set_formats(section, formats);
    section.push_flag("rtcp-mux");
    let ghost first = section@;
    let mut k: usize = 0;
    assert(first.attributes =~= old(section)@.attributes + seq![sdp::flag("rtcp-mux"@)]);
    assert(first.attributes + all_video_properties(caps.video@.subrange(0, 0))
        =~= first.attributes);
    while k < n
        invariant
            n == caps.video@.len(),
            k <= n,
            section@ == (SectionView {
                attributes: first.attributes + all_video_properties(
                    caps.video@.subrange(0, k as int),
                ),
                ..first
            }),
        decreases n - k,
    {
        push_video(section, &caps.video[k]);
        k += 1;
        proof {
            let head = caps.video@.subrange(0, k as int);
            assert(head.drop_last() =~= caps.video@.subrange(0, k - 1));
            assert(section@.attributes =~= first.attributes + all_video_properties(head));
        }
    }
    assert(caps.video@.subrange(0, n as int) =~= caps.video@);
}

/// Offers video in a section.
pub fn apply_video_capabilities(section: &mut MediaSection, config: &RtcConfiguration)
    ensures
        final(section)@ == with_video(old(section)@, *config),
{
    if let Some(caps) = &config.media_capabilities {
        if caps.video.len() > 0 {
            offer_video(section, caps);
            return;
        }
    }
    set_formats(section, one_format("96"));
    section.push_flag("rtcp-mux");
    section.push_valued("rtpmap", String::from_str("96 VP8/90000"));
    section.push_valued("rtcp-fb", String::from_str("96 nack pli"));
    section.push_valued("rtcp-fb", String::from_str("96 transport-cc"));
    assert(section@ =~= with_video(old(section)@, *config));
}

/// Offers data channels in a section.
pub fn apply_application_capabilities(section: &mut MediaSection, config: &RtcConfiguration)
    ensures
        final(section)@ == with_application(old(section)@, *config),
{
    let port: u16 = match &config.media_capabilities {
        Some(caps) => match &caps.application {
            Some(app) => app.sctp_port,
            None => SCTP_PORT,
        },
        None => SCTP_PORT,
    };
    section.protocol = String::from_str("UDP/DTLS/SCTP");
    set_formats(section, one_format("webrtc-datachannel"));
    section.push_valued("sctp-port", text::decimal_string(port as u64));
    assert(section@ =~= with_application(old(section)@, *config));
}

/// Adds the fingerprint of this end and who starts the handshake.
pub fn add_dtls_attributes(section: &mut MediaSection, fingerprint: &str, sdp_type: SdpType)
    ensures
        final(section)@ == with_dtls(old(section)@, fingerprint@, sdp_type),
{
    section.push_valued("fingerprint", text::joined("sha-256 ", fingerprint));
    let setup: &str = match sdp_type {
        SdpType::Answer => "active",
        _ => "actpass",
    };
    section.push_valued("setup", String::from_str(setup));
    assert(section@ =~= with_dtls(old(section)@, fingerprint@, sdp_type));
}

/// Puts into a section all that it offers.
pub fn populate_media_capabilities(
    section: &mut MediaSection,
    kind: MediaKind,
    sdp_type: SdpType,
    config: &RtcConfiguration,
    fingerprint: &str,
)
    ensures
        final(section)@ == populated(old(section)@, kind, sdp_type, *config, fingerprint@),
{
    match kind {
        MediaKind::Audio => apply_audio_capabilities(section, config),
        MediaKind::Video => apply_video_capabilities(section, config),
        MediaKind::Application => apply_application_capabilities(section, config),
    }
    if config.transport_mode != TransportMode::Rtp {
        add_dtls_attributes(section, fingerprint, sdp_type);
    }
}

} // verus!
