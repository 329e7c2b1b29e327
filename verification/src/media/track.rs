//! Tracks: streams of samples of one kind, and how they are passed on.
use vstd::prelude::*;
use vstd::string::*;

use crate::crypto;
use crate::media::error::{MediaError, MediaResult};
use crate::media::frame::{AudioFrame, MediaKind, MediaSample, VideoFrame};
use crate::text;

verus! {

/// What a receiver asks of a source.
#[derive(Debug, Clone, Copy, PartialEq, Eq)]
pub enum FeedbackEvent {
    RequestKeyFrame,
}

#[derive(Debug, Clone, Copy, PartialEq, Eq, Structural)]
pub enum TrackState {
    Live,
    Ended,
}

/// Whether something of the kind `actual` can take the place of `expected`.
pub open spec fn kinds_agree(expected: MediaKind, actual: MediaKind) -> MediaResult<()> {
    if expected == actual {
        Ok(())
    } else {
        Err(MediaError::KindMismatch { expected, actual })
    }
}

/// Whether something of the kind `actual` can take the place of `expected`.
pub fn check_kind(expected: MediaKind, actual: MediaKind) -> (r: MediaResult<()>)
    ensures
        r == kinds_agree(expected, actual),
{
    if expected != actual {
        return Err(MediaError::KindMismatch { expected, actual });
    }
    Ok(())
}

/// The audio in a sample.
pub fn audio_of(sample: MediaSample) -> (r: MediaResult<AudioFrame>)
    ensures
        match sample {
            MediaSample::Audio(f) => r == Ok::<AudioFrame, MediaError>(f),
            MediaSample::Video(_) => r == Err::<AudioFrame, MediaError>(
                MediaError::KindMismatch { expected: MediaKind::Audio, actual: MediaKind::Video },
            ),
        },
{
    match sample {
        MediaSample::Audio(f) => Ok(f),
        MediaSample::Video(_) => Err(
            MediaError::KindMismatch { expected: MediaKind::Audio, actual: MediaKind::Video },
        ),
    }
}

/// The video in a sample.
pub fn video_of(sample: MediaSample) -> (r: MediaResult<VideoFrame>)
    ensures
        match sample {
            MediaSample::Video(f) => r == Ok::<VideoFrame, MediaError>(f),
            MediaSample::Audio(_) => r == Err::<VideoFrame, MediaError>(
                MediaError::KindMismatch { expected: MediaKind::Video, actual: MediaKind::Audio },
            ),
        },
{
    match sample {
        MediaSample::Video(f) => Ok(f),
        MediaSample::Audio(_) => Err(
            MediaError::KindMismatch { expected: MediaKind::Video, actual: MediaKind::Audio },
        ),
    }
}

/// The name of a track with this number.
pub fn track_id(value: u64) -> (r: String)
    ensures
        r@ == "track-"@ + text::decimal(value as nat),
{
    let mut out = String::from_str("track-");
    text::push_decimal(&mut out, value);
    out
}

/// A random name for a track.
pub fn next_track_id() -> (r: String)
    ensures
        exists|value: u64| r@ == "track-"@ + #[trigger] text::decimal(value as nat),
{
    let value: u64 = crypto::random_u64();
    track_id(value)
}

/// The name of a track that follows the track `base`.
pub fn relay_track_id(base: &str, suffix: u64) -> (r: String)
    ensures
        r@ == base@ + "-relay-"@ + text::decimal(suffix as nat),
{
    let mut out = String::from_str(base);
    out.append("-relay-");
    text::push_decimal(&mut out, suffix);
    out
}

/// A random name for a track that follows the track `base`.
pub fn next_relay_track_id(base: &str) -> (r: String)
    ensures
        exists|suffix: u64| r@ == base@ + "-relay-"@ + #[trigger] text::decimal(suffix as nat),
{
    let suffix: u64 = crypto::random_u64();
    relay_track_id(base, suffix)
}

/// The end of a track where samples come out.
#[derive(Debug, Clone, PartialEq, Eq)]
pub struct SampleStreamTrack {
    pub id: String,
    pub kind: MediaKind,
    pub ended: bool,
}

/// The end of a track where samples go in.
#[derive(Debug, Clone, PartialEq, Eq)]
pub struct SampleStreamSource {
    pub id: String,
    pub kind: MediaKind,
}

/// The two ends of a new track.
pub fn sample_track(kind: MediaKind, id: String) -> (r: (SampleStreamSource, SampleStreamTrack))
    ensures
        r.0.id@ == id@,
        r.0.kind == kind,
        r.1.id@ == id@,
        r.1.kind == kind,
        !r.1.ended,
{
    let source = SampleStreamSource { id: id.clone(), kind };
    (source, SampleStreamTrack { id, kind, ended: false })
}

impl SampleStreamTrack {
    pub fn state(&self) -> (r: TrackState)
        ensures
            r == if self.ended {
                TrackState::Ended
            } else {
                TrackState::Live
            },
    {
        if self.ended {
            TrackState::Ended
        } else {
            TrackState::Live
        }
    }

    /// Takes what came out: a sample, or nothing where the source is gone.
    pub fn recv(&mut self, next: Option<MediaSample>) -> (r: MediaResult<MediaSample>)
        ensures
            final(self).id == old(self).id,
            final(self).kind == old(self).kind,
            match next {
                Some(sample) => r == Ok::<MediaSample, MediaError>(sample) && final(self).ended
                    == old(self).ended,
                None => r == Err::<MediaSample, MediaError>(MediaError::EndOfStream)
                    && final(self).ended,
            },
    {
        match next {
            Some(sample) => Ok(sample),
            None => {
                self.ended = true;
                Err(MediaError::EndOfStream)
            },
        }
    }
}

impl SampleStreamSource {
    /// Whether a sample may go in.
    pub fn send(&self, sample: &MediaSample) -> (r: MediaResult<()>)
        ensures
            r == kinds_agree(self.kind, sample@.kind()),
    {
        check_kind(self.kind, sample.kind())
    }
}

/// How many samples a relay keeps for a slow subscriber, unless told otherwise.
pub const RELAY_CAPACITY_DEFAULT: usize = 32;

/// What a relay passes on.
#[derive(Debug, Clone, PartialEq, Eq)]
pub enum RelayEvent {
    Sample(MediaSample),
    End,
}

/// What a relay does next.
#[derive(Debug, Clone, PartialEq, Eq)]
pub enum RelayStep {
    /// Pass this on to all subscribers.
    Forward(RelayEvent),
    /// Pass the end on to all subscribers, and stop.
    Finish(RelayEvent),
    /// Wait for the next sample.
    Wait,
}

/// A track that is passed on to many subscribers.
#[derive(Debug, Clone, PartialEq, Eq)]
pub struct MediaRelay {
    pub base_id: String,
    pub kind: MediaKind,
    pub started: bool,
    pub ended: bool,
}

impl MediaRelay {
    /// A relay of the track `base_id`.
    pub fn new(base_id: String, kind: MediaKind) -> (r: Self)
        ensures
            r == (MediaRelay { base_id, kind, started: false, ended: false }),
    {
        MediaRelay { base_id, kind, started: false, ended: false }
    }

    /// A new subscriber, named with `suffix`. One that comes after the end gets nothing.
    pub fn subscribe(&self, suffix: u64) -> (r: RelayStreamTrack)
        ensures
            r.id@ == self.base_id@ + "-relay-"@ + text::decimal(suffix as nat),
            r.kind == self.kind,
            r.ended == self.ended,
    {
        RelayStreamTrack {
            id: relay_track_id(self.base_id.as_str(), suffix),
            kind: self.kind,
            ended: self.ended,
        }
    }

    /// Starts the relay. Whether this call started it: no second one does.
    pub fn ensure_started(&mut self) -> (r: bool)
        ensures
            r == !old(self).started,
            *final(self) == (MediaRelay { started: true, ..*old(self) }),
    {
        if self.started {
            return false;
        }
        self.started = true;
        true
    }

    /// Takes what the track gave: samples go on, samples that were missed are passed over, and
    /// anything else ends the relay.
    pub fn received(&mut self, res: MediaResult<MediaSample>) -> (r: RelayStep)
        ensures
            match res {
                Ok(sample) => r == RelayStep::Forward(RelayEvent::Sample(sample)) && *final(self)
                    == *old(self),
                Err(MediaError::Lagged) => r == RelayStep::Wait && *final(self) == *old(self),
                Err(_) => r == RelayStep::Finish(RelayEvent::End) && *final(self) == (MediaRelay {
                    ended: true,
                    ..*old(self)
                }),
            },
    {
        match res {
            Ok(sample) => RelayStep::Forward(RelayEvent::Sample(sample)),
            Err(MediaError::Lagged) => RelayStep::Wait,
            Err(_) => {
                self.ended = true;
                RelayStep::Finish(RelayEvent::End)
            },
        }
    }
}

/// What comes out of a relay.
#[derive(Debug, Clone, PartialEq, Eq)]
pub enum RelayArrival {
    Event(RelayEvent),
    /// The subscriber was too slow.
    Lagged,
    /// The relay is gone.
    Closed,
}

/// A subscriber of a relay.
#[derive(Debug, Clone, PartialEq, Eq)]
pub struct RelayStreamTrack {
    pub id: String,
    pub kind: MediaKind,
    pub ended: bool,
}

impl RelayStreamTrack {
    pub fn state(&self) -> (r: TrackState)
        ensures
            r == if self.ended {
                TrackState::Ended
            } else {
                TrackState::Live
            },
    {
        if self.ended {
            TrackState::Ended
        } else {
            TrackState::Live
        }
    }

    /// Takes what came out of the relay. After the end there is nothing more.
    pub fn recv(&mut self, next: RelayArrival) -> (r: MediaResult<MediaSample>)
        ensures
            final(self).id == old(self).id,
            final(self).kind == old(self).kind,
            if old(self).ended {
                r == Err::<MediaSample, MediaError>(MediaError::EndOfStream) && final(self).ended
            } else {
                match next {
                    RelayArrival::Event(RelayEvent::Sample(sample)) => r == Ok::<
                        MediaSample,
                        MediaError,
                    >(sample) && !final(self).ended,
                    RelayArrival::Lagged => r == Err::<MediaSample, MediaError>(
                        MediaError::Lagged,
                    ) && !final(self).ended,
                    _ => r == Err::<MediaSample, MediaError>(MediaError::EndOfStream) && final(
                        self).ended,
                }
            },
    {
        if self.ended {
            return Err(MediaError::EndOfStream);
        }
        match next {
            RelayArrival::Event(RelayEvent::Sample(sample)) => Ok(sample),
            RelayArrival::Lagged => Err(MediaError::Lagged),
            _ => {
                self.ended = true;
                Err(MediaError::EndOfStream)
            },
        }
    }
}

/// What comes while a selector waits for its current track.
#[derive(Debug, PartialEq, Eq)]
pub enum SelectorArrival {
    /// What the current track gave.
    Received(MediaResult<MediaSample>),
    /// The selector was switched to another track.
    Switched,
}

/// A track that can be switched from one source to another of the same kind. Sources are known by
/// numbers.
#[derive(Debug, Clone, PartialEq, Eq)]
pub struct SelectorTrack {
    pub id: String,
    pub kind: MediaKind,
    /// The source that samples come from and requests go to.
    pub current: u64,
}

impl SelectorTrack {
    /// A selector that starts with the source `current`, a track with the name `base_id`, named
    /// with `suffix`.
    pub fn new(base_id: &str, kind: MediaKind, suffix: u64, current: u64) -> (r: Self)
        ensures
            r.id@ == base_id@ + "-relay-"@ + text::decimal(suffix as nat),
            r.kind == kind,
            r.current == current,
    {
        SelectorTrack { id: relay_track_id(base_id, suffix), kind, current }
    }

    /// Switches to the source `track`, if it is of the same kind.
    pub fn switch_to(&mut self, kind: MediaKind, track: u64) -> (r: MediaResult<()>)
        ensures
            r == kinds_agree(old(self).kind, kind),
            *final(self) == if r is Ok {
                SelectorTrack { current: track, ..*old(self) }
            } else {
                *old(self)
            },
    {
        match check_kind(self.kind, kind) {
            Ok(_) => {
                self.current = track;
                Ok(())
            },
            Err(e) => Err(e),
        }
    }

    /// The source that the next sample is awaited from.
    pub fn source(&self) -> (r: u64)
        ensures
            r == self.current,
    {
        self.current
    }

    /// What a receiver gets: what the current source gave. After a switch there is nothing yet:
    /// the receiver waits for the source that is current then.
    pub fn recv(&self, arrival: SelectorArrival) -> (r: Option<MediaResult<MediaSample>>)
        ensures
            r == match arrival {
                SelectorArrival::Received(res) => Some(res),
                SelectorArrival::Switched => None,
            },
    {
        match arrival {
            SelectorArrival::Received(res) => Some(res),
            SelectorArrival::Switched => None,
        }
    }

    /// The source that a request for a key frame goes to.
    pub fn request_key_frame(&self) -> (r: u64)
        ensures
            r == self.current,
    {
        self.current
    }

    /// A selector lives as long as it can be switched.
    pub fn state(&self) -> (r: TrackState)
        ensures
            r == TrackState::Live,
    {
        TrackState::Live
    }
}

} // verus!
