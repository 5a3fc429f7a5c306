//! Frames of text art and the store that holds them for one playback session.

use vstd::prelude::*;
use crate::error::PlaybackError;
use crate::text::rows_view;

verus! {

/// One displayable unit: an ordered sequence of text rows. A row may embed
/// terminal styling sequences.
pub struct Frame {
    pub lines: Vec<String>,
}

impl View for Frame {
    type V = Seq<Seq<char>>;

    open spec fn view(&self) -> Seq<Seq<char>> {
        rows_view(self.lines@)
    }
}

impl Frame {
    pub fn new(lines: Vec<String>) -> (frame: Frame)
        ensures
            frame@ == rows_view(lines@),
            frame.lines == lines,
    {
        Frame { lines }
    }

    /// Number of rows.
    pub fn rows(&self) -> (n: usize)
        ensures
            n == self@.len(),
    {
        self.lines.len()
    }

    /// The text of row `row`.
    pub fn line(&self, row: usize) -> (text: &str)
        requires
            row < self@.len(),
        ensures
            text@ == self@[row as int],
    {
        self.lines[row].as_str()
    }
}

/// The frames of `frames`, each as its rows.
pub open spec fn frames_view(frames: Seq<Frame>) -> Seq<Seq<Seq<char>>> {
    Seq::new(frames.len(), |i: int| frames[i]@)
}

/// An ordered, non-empty collection of frames, fixed once loaded.
pub struct FrameStore {
    frames: Vec<Frame>,
}

impl View for FrameStore {
    type V = Seq<Seq<Seq<char>>>;

    closed spec fn view(&self) -> Seq<Seq<Seq<char>>> {
        frames_view(self.frames@)
    }
}

impl FrameStore {
    #[verifier::type_invariant]
    spec fn nonempty(&self) -> bool {
        self.frames@.len() >= 1
    }

    /// Takes ownership of `frames`. An empty sequence has no valid index, so
    /// it is rejected.
    pub fn load(frames: Vec<Frame>) -> (result: Result<FrameStore, PlaybackError>)
        ensures
            frames@.len() == 0 ==> result == Err::<FrameStore, PlaybackError>(
                PlaybackError::EmptyInput,
            ),
            frames@.len() > 0 ==> result is Ok && result->Ok_0@ == frames_view(frames@),
    {
        if frames.len() == 0 {
            Err(PlaybackError::EmptyInput)
        } else {
            Ok(FrameStore { frames })
        }
    }

    /// Number of frames; never zero.
    pub fn len(&self) -> (n: usize)
        ensures
            n == self@.len(),
            n >= 1,
    {
        proof {
            use_type_invariant(self);
        }
        self.frames.len()
    }

    /// The first frame, which every store has.
    pub fn first(&self) -> (frame: &Frame)
        ensures
            self@.len() > 0,
            frame@ == self@[0],
    {
        proof {
            use_type_invariant(self);
        }
        &self.frames[0]
    }

    /// The frame at `index`.
    pub fn get(&self, index: usize) -> (frame: &Frame)
        requires
            index < self@.len(),
        ensures
            frame@ == self@[index as int],
    {
        &self.frames[index]
    }
}

} // verus!
