//! Media samples, the tracks that carry them, and how they become packets.
pub mod error;
pub mod frame;
pub mod laws;
pub mod pipeline;
pub mod track;

pub use error::{MediaError, MediaResult};
pub use frame::{
    AudioFrame, AudioSampleFormat, MediaKind, MediaSample, VideoFrame, VideoPixelFormat,
};
pub use pipeline::{ChannelMediaSink, ChannelMediaSource, PumpStep};
pub use track::{
    FeedbackEvent, MediaRelay, RelayStreamTrack, SampleStreamSource, SampleStreamTrack,
    SelectorTrack, TrackState,
};
