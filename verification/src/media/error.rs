//! Failures of tracks.
use vstd::prelude::*;

use crate::media::frame::MediaKind;

verus! {

/// Result of the operations on tracks.
pub type MediaResult<T> = Result<T, MediaError>;

/// Failures of tracks.
#[derive(Debug, Clone, Copy, PartialEq, Eq, Structural)]
pub enum MediaError {
    /// A sample of another kind than the track carries.
    KindMismatch { expected: MediaKind, actual: MediaKind },
    /// No one takes samples any longer.
    Closed,
    /// There are no more samples.
    EndOfStream,
    /// Samples were passed over.
    Lagged,
}

} // verus!
