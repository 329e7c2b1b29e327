//! Samples on their way from a source to a sink.
use vstd::prelude::*;
use vstd::string::*;

use crate::media::error::{MediaError, MediaResult};
use crate::media::frame::{MediaKind, MediaSample};
use crate::media::track;
use crate::text;

verus! {

/// The name of a source with this number.
pub fn channel_source_id(value: u64) -> (r: String)
    ensures
        r@ == "channel-source-"@ + text::decimal(value as nat),
{
    let mut out = String::from_str("channel-source-");
    text::push_decimal(&mut out, value);
    out
}

/// A sink that hands samples to a channel.
#[derive(Debug, Clone, Copy, PartialEq, Eq, Structural)]
pub struct ChannelMediaSink {
    pub kind: MediaKind,
}

impl ChannelMediaSink {
    pub fn new(kind: MediaKind) -> (r: Self)
        ensures
            r == (ChannelMediaSink { kind }),
    {
        ChannelMediaSink { kind }
    }

    /// Whether a sample may go in.
    pub fn consume(&self, sample: &MediaSample) -> (r: MediaResult<()>)
        ensures
            r == track::kinds_agree(self.kind, sample@.kind()),
    {
        track::check_kind(self.kind, sample.kind())
    }
}

/// A source that takes samples from a channel.
#[derive(Debug, Clone, PartialEq, Eq)]
pub struct ChannelMediaSource {
    pub id: String,
    pub kind: MediaKind,
    pub ended: bool,
}

impl ChannelMediaSource {
    pub fn new(id: String, kind: MediaKind) -> (r: Self)
        ensures
            r == (ChannelMediaSource { id, kind, ended: false }),
    {
        ChannelMediaSource { id, kind, ended: false }
    }

    /// Takes what came out of the channel: a sample, or nothing where it is closed. After the end
    /// there is nothing more.
    pub fn next_sample(&mut self, next: Option<MediaSample>) -> (r: MediaResult<MediaSample>)
        ensures
            final(self).id == old(self).id,
            final(self).kind == old(self).kind,
            if old(self).ended {
                r == Err::<MediaSample, MediaError>(MediaError::EndOfStream) && final(self).ended
            } else {
                match next {
                    Some(sample) => r == Ok::<MediaSample, MediaError>(sample) && !final(
                        self).ended,
                    None => r == Err::<MediaSample, MediaError>(MediaError::EndOfStream)
                        && final(self).ended,
                }
            },
    {
        if self.ended {
            return Err(MediaError::EndOfStream);
        }
        match next {
            Some(sample) => Ok(sample),
            None => {
                self.ended = true;
                Err(MediaError::EndOfStream)
            },
        }
    }
}

/// Whether samples of a source can be pumped to a sink.
pub fn check_pump(source: MediaKind, sink: MediaKind) -> (r: MediaResult<()>)
    ensures
        r == track::kinds_agree(source, sink),
{
    track::check_kind(source, sink)
}

/// What a pump does next.
#[derive(Debug, PartialEq, Eq)]
pub enum PumpStep {
    /// Hand this to the sink.
    Consume(MediaSample),
    /// Stop, with this result.
    Finish(MediaResult<()>),
}

/// What a pump does with what the source gave: the end of the stream ends it well, any other
/// failure is its own.
pub open spec fn step_for(res: MediaResult<MediaSample>) -> PumpStep {
    match res {
        Ok(sample) => PumpStep::Consume(sample),
        Err(MediaError::EndOfStream) => PumpStep::Finish(Ok(())),
        Err(e) => PumpStep::Finish(Err(e)),
    }
}

/// What a pump does with what the source gave.
pub fn pump_step(res: MediaResult<MediaSample>) -> (r: PumpStep)
    ensures
        r == step_for(res),
{
    match res {
        Ok(sample) => PumpStep::Consume(sample),
        Err(MediaError::EndOfStream) => PumpStep::Finish(Ok(())),
        Err(e) => PumpStep::Finish(Err(e)),
    }
}

/// The result that a pump ends with once the sink took a sample, or failed to: none where it
/// goes on.
pub open spec fn end_for(res: MediaResult<()>) -> Option<MediaResult<()>> {
    match res {
        Ok(_) => None,
        Err(e) => Some(Err(e)),
    }
}

/// The result that a pump ends with once the sink took a sample, or failed to: none where it
/// goes on. The first failure of the sink ends the pump.
pub fn consumed(res: MediaResult<()>) -> (r: Option<MediaResult<()>>)
    ensures
        r == end_for(res),
{
    match res {
        Ok(_) => None,
        Err(e) => Some(Err(e)),
    }
}

/// A run of a pump: the samples that the sink got, in order, and the result, once it ended.
pub struct PumpRun {
    pub handed: Seq<MediaSample>,
    pub result: Option<MediaResult<()>>,
}

/// The run of a pump whose source gives `given`, one after the other, and whose sink answers with
/// `answers`.
pub open spec fn pump_run(
    given: Seq<MediaResult<MediaSample>>,
    answers: Seq<MediaResult<()>>,
) -> PumpRun
    decreases given.len(),
{
    if given.len() == 0 {
        PumpRun { handed: seq![], result: None }
    } else {
        match step_for(given[0]) {
            PumpStep::Finish(result) => PumpRun { handed: seq![], result: Some(result) },
            PumpStep::Consume(sample) => match end_for(answers[0]) {
                Some(result) => PumpRun { handed: seq![sample], result: Some(result) },
                None => {
                    let rest = pump_run(given.drop_first(), answers.drop_first());
                    PumpRun { handed: seq![sample] + rest.handed, ..rest }
                },
            },
        }
    }
}

/// A pump hands its sink every sample of the source, once and in order, and runs until the first
/// failure of either: `n` samples went well before. The end of the source's stream is no failure
/// of the pump; any other failure is its result.
pub proof fn law_pump_runs_to_the_first_failure(
    given: Seq<MediaResult<MediaSample>>,
    answers: Seq<MediaResult<()>>,
    n: nat,
)
    requires
        n < given.len(),
        n <= answers.len(),
        forall|i: int| 0 <= i < n ==> (#[trigger] given[i]) is Ok,
        forall|i: int| 0 <= i < n ==> (#[trigger] answers[i]) is Ok,
        given[n as int] is Err || (n < answers.len() && answers[n as int] is Err),
    ensures
        ({
            let run = pump_run(given, answers);
            let last = given[n as int];
            &&& run.handed.len() == (if last is Ok {
                n + 1
            } else {
                n
            })
            &&& forall|i: int|
                0 <= i < run.handed.len() ==> given[i] == Ok::<MediaSample, MediaError>(
                    #[trigger] run.handed[i],
                )
            &&& run.result == Some(
                match last {
                    Ok(_) => answers[n as int],
                    Err(MediaError::EndOfStream) => Ok(()),
                    Err(e) => Err(e),
                },
            )
        }),
    decreases n,
{
    if n > 0 {
        let rest = given.drop_first();
        let later = answers.drop_first();
        assert(given[0] is Ok);
        assert(answers[0] is Ok);
        assert forall|i: int| 0 <= i < n - 1 implies (#[trigger] rest[i]) is Ok by {
            assert(given[i + 1] is Ok);
        }
        assert forall|i: int| 0 <= i < n - 1 implies (#[trigger] later[i]) is Ok by {
            assert(answers[i + 1] is Ok);
        }
        law_pump_runs_to_the_first_failure(rest, later, (n - 1) as nat);
        let run = pump_run(given, answers);
        let tail = pump_run(rest, later);
        assert forall|i: int| 0 <= i < run.handed.len() implies given[i] == Ok::<
            MediaSample,
            MediaError,
        >(#[trigger] run.handed[i]) by {
            if i > 0 {
                assert(run.handed[i] == tail.handed[i - 1]);
                assert(given[i] == rest[i - 1]);
            }
        }
    }
}

} // verus!
