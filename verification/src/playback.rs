//! One playback session: the frames, where they sit on screen, what is on
//! screen now, and the pacer. The caller owns the clock and the terminal; it
//! asks for the next step, performs it, reports how the write went, and
//! sleeps as told.

use vstd::prelude::*;
use crate::error::PlaybackError;
use crate::frame::{Frame, FrameStore};
use crate::geometry::{
    centering_offset, get_horizontal_padding, get_vertical_padding, horizontal_padding_spec,
    widest_line,
};
use crate::pacing::{Pacer, PacerState, PlaybackClock, Policy, StopRule, Tick};
use crate::render::{diff_output, Renderer};

verus! {

/// What the caller has to do next.
pub enum Step {
    /// Write this buffer to the terminal in one piece, flush, and report the
    /// outcome. The buffer is empty where nothing on screen has to change.
    Write(String),
    /// Playback is over; restore the terminal.
    Done,
}

/// A session as plain values.
pub ghost struct PlaybackState {
    pub frames: Seq<Seq<Seq<char>>>,
    /// The frame on screen.
    pub shown: Option<Seq<Seq<char>>>,
    /// The frame handed out for writing whose outcome is not reported yet.
    pub pending: Option<Seq<Seq<char>>>,
    pub pacer: PacerState,
    pub top: nat,
    pub left: nat,
}

pub struct Playback<'a> {
    store: &'a FrameStore,
    renderer: Renderer<'a>,
    pending: Option<&'a Frame>,
    pacer: Pacer,
    top: u16,
    left: u16,
}

impl<'a> View for Playback<'a> {
    type V = PlaybackState;

    closed spec fn view(&self) -> PlaybackState {
        PlaybackState {
            frames: self.store@,
            shown: self.renderer.shown(),
            pending: match self.pending {
                Some(frame) => Some(frame@),
                None => None,
            },
            pacer: self.pacer@,
            top: self.top as nat,
            left: self.left as nat,
        }
    }
}

impl<'a> Playback<'a> {
    #[verifier::type_invariant]
    spec fn paced_over_store(&self) -> bool {
        self.pacer@.valid() && self.pacer@.frame_count == self.store@.len()
    }

    /// A session over `store` in a terminal of `term_cols` by `term_rows`,
    /// with nothing drawn yet. The frames are centered by the first frame's
    /// size.
    pub fn new(
        store: &'a FrameStore,
        policy: Policy,
        stop: StopRule,
        clock: PlaybackClock,
        term_cols: u16,
        term_rows: u16,
    ) -> (session: Playback<'a>)
        ensures
            store@.len() > 0,
            session@ == (PlaybackState {
                frames: store@,
                shown: None,
                pending: None,
                pacer: PacerState {
                    policy,
                    stop,
                    start_ms: clock.start(),
                    fps: clock.rate(),
                    frame_count: store@.len(),
                    cursor: 0,
                },
                top: centering_offset(term_rows as int, store@[0].len() as int) as nat,
                left: horizontal_padding_spec(term_cols as int, widest_line(store@[0])) as nat,
            }),
    {
        let top: u16 = get_vertical_padding(store, term_rows);
        let left: u16 = get_horizontal_padding(store.first(), term_cols);
        let pacer = Pacer::new(policy, stop, clock, store.len()).unwrap();
        Playback { store, renderer: Renderer::new(), pending: None, pacer, top, left }
    }

    /// Rows of padding above the frames.
    pub fn top(&self) -> (top: u16)
        ensures
            top == self@.top,
    {
        self.top
    }

    /// Columns of padding left of the frames.
    pub fn left(&self) -> (left: u16)
        ensures
            left == self@.left,
    {
        self.left
    }

    /// The step due at `now_ms`. Where a frame is due, the buffer rewrites
    /// the rows in which it differs from the frame on screen. The frame
    /// counts as shown only once `written` reports success.
    pub fn step(&mut self, now_ms: u64) -> (step: Step)
        ensures
            final(self)@.frames == old(self)@.frames,
            final(self)@.top == old(self)@.top,
            final(self)@.left == old(self)@.left,
            final(self)@.shown == old(self)@.shown,
            final(self)@.pacer == old(self)@.pacer.after_tick(now_ms as nat),
            old(self)@.pacer.finished(now_ms as nat) ==> step is Done && final(self)@.pending
                is None,
            !old(self)@.pacer.finished(now_ms as nat) ==> ({
                let index = old(self)@.pacer.due_frame(now_ms as nat) as int;
                &&& 0 <= index < old(self)@.frames.len()
                &&& step is Write
                &&& step->Write_0@ == diff_output(
                    old(self)@.shown,
                    old(self)@.frames[index],
                    old(self)@.top,
                    old(self)@.left,
                )
                &&& final(self)@.pending == Some(old(self)@.frames[index])
            }),
    {
        proof {
            use_type_invariant(&*self);
        }
        let mut pacer: Pacer = self.pacer;
        let tick = pacer.tick(now_ms);
        self.pacer = pacer;
        match tick {
            Tick::Finished => {
                self.pending = None;
                Step::Done
            },
            Tick::Show(index) => {
                let store: &'a FrameStore = self.store;
                let frame: &'a Frame = store.get(index);
                self.pending = Some(frame);
                Step::Write(self.renderer.pending_output(frame, self.top, self.left))
            },
        }
    }

    /// Takes note of how the write of the last step went. After a success
    /// the frame handed out is the one on screen. After a failure it counts
    /// as not drawn, the screen is taken to be as before, and the failure is
    /// returned for the caller to pass on.
    pub fn written(&mut self, success: bool) -> (result: Result<(), PlaybackError>)
        ensures
            final(self)@.frames == old(self)@.frames,
            final(self)@.top == old(self)@.top,
            final(self)@.left == old(self)@.left,
            final(self)@.pacer == old(self)@.pacer,
            final(self)@.pending is None,
            success ==> result is Ok && final(self)@.shown == (match old(self)@.pending {
                Some(frame) => Some(frame),
                None => old(self)@.shown,
            }),
            !success ==> result == Err::<(), PlaybackError>(PlaybackError::TerminalIO)
                && final(self)@.shown == old(self)@.shown,
    {
        proof {
            use_type_invariant(&*self);
        }
        let pending: Option<&'a Frame> = self.pending;
        self.pending = None;
        if !success {
            return Err(PlaybackError::TerminalIO);
        }
        match pending {
            Some(frame) => {
                let mut renderer: Renderer<'a> = self.renderer;
                renderer.mark_drawn(frame);
                self.renderer = renderer;
            },
            None => {},
        }
        Ok(())
    }

    /// Milliseconds to sleep after the step that began at `started_ms`, now
    /// that the clock reads `now_ms`.
    pub fn pause_millis(&self, started_ms: u64, now_ms: u64) -> (sleep_ms: u64)
        ensures
            sleep_ms == self@.pacer.pause(started_ms as nat, now_ms as nat),
    {
        self.pacer.pause_millis(started_ms, now_ms)
    }
}

} // verus!
