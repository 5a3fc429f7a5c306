//! The ways playback can fail.

use vstd::prelude::*;

verus! {

/// Every failure is fatal: none is retried and none is masked.
#[derive(Clone, Copy, Debug, PartialEq, Eq, Structural)]
pub enum PlaybackError {
    /// There are no frames to play.
    EmptyInput,
    /// The frame source did not yield usable geometry or frame data.
    Decode,
    /// Writing to or flushing the terminal failed.
    TerminalIO,
}

} // verus!
