//! Frame pacing: which frame to show at a given moment and how long to sleep
//! afterwards, under two policies. All times are whole milliseconds read off
//! one monotonic clock.

use vstd::prelude::*;
use crate::error::PlaybackError;

verus! {

pub const MILLIS_PER_SECOND: u64 = 1000;

/// How the frame to show is chosen.
#[derive(Clone, Copy, Debug, PartialEq, Eq, Structural)]
pub enum Policy {
    /// Show the frame that the clock says is due. Frames are skipped under
    /// load, and playback never lags behind the clock.
    ElapsedTime,
    /// Show every frame in order, re-aligning each sleep to the next frame
    /// boundary. Sustained overrun accumulates as lag.
    Sequential,
}

impl Default for Policy {
    /// Sequential playback is the default: every frame is shown, at the
    /// price of lag when drawing overruns the frame interval.
    fn default() -> (policy: Policy)
        ensures
            policy == Policy::Sequential,
    {
        Policy::Sequential
    }
}

/// When playback ends.
#[derive(Clone, Copy, Debug, PartialEq, Eq, Structural)]
pub enum StopRule {
    /// After this many milliseconds on the clock; the frames wrap around.
    AfterDuration(u64),
    /// Once the frame sequence has been gone through once.
    AfterSequence,
}

/// The decision for one iteration of the playback loop.
#[derive(Clone, Copy, Debug, PartialEq, Eq, Structural)]
pub enum Tick {
    /// Draw the frame at this index.
    Show(usize),
    /// Playback is over.
    Finished,
}

/// The frame interval for `fps` frames per second, in whole milliseconds.
pub open spec fn frame_interval_spec(fps: nat) -> nat {
    1000nat / fps
}

pub fn frame_interval_millis(fps: u64) -> (interval: u64)
    requires
        fps > 0,
    ensures
        interval == frame_interval_spec(fps as nat),
{
    MILLIS_PER_SECOND / fps
}

/// How many frame intervals have fully elapsed after `elapsed_ms`: the
/// elapsed seconds times `fps`, rounded down.
pub open spec fn ideal_position(elapsed_ms: nat, fps: nat) -> nat {
    elapsed_ms * fps / 1000
}

/// The frame due after `elapsed_ms`, wrapping around `frame_count` frames.
pub open spec fn ideal_frame_index(elapsed_ms: nat, fps: nat, frame_count: nat) -> nat {
    ideal_position(elapsed_ms, fps) % frame_count
}

pub fn position_at(elapsed_ms: u64, fps: u64) -> (position: u128)
    ensures
        position == ideal_position(elapsed_ms as nat, fps as nat),
{
    assert(elapsed_ms * fps <= u64::MAX * u64::MAX) by (nonlinear_arith)
        requires
            elapsed_ms <= u64::MAX,
            fps <= u64::MAX,
    ;
    (elapsed_ms as u128 * fps as u128) / 1000
}

pub fn frame_index_at(elapsed_ms: u64, fps: u64, frame_count: usize) -> (index: usize)
    requires
        frame_count > 0,
    ensures
        index == ideal_frame_index(elapsed_ms as nat, fps as nat, frame_count as nat),
        index < frame_count,
{
    (position_at(elapsed_ms, fps) % frame_count as u128) as usize
}

/// Sleep left of an interval of `interval_ms` once `spent_ms` of it went into
/// the iteration; an overrun leaves nothing.
pub open spec fn remaining_budget(interval_ms: nat, spent_ms: nat) -> nat {
    if interval_ms > spent_ms {
        (interval_ms - spent_ms) as nat
    } else {
        0
    }
}

pub fn sleep_after_draw(interval_ms: u64, spent_ms: u64) -> (sleep_ms: u64)
    ensures
        sleep_ms == remaining_budget(interval_ms as nat, spent_ms as nat),
{
    if interval_ms > spent_ms {
        interval_ms - spent_ms
    } else {
        0
    }
}

/// Sleep from `elapsed_ms` up to the next multiple of `interval_ms`.
pub open spec fn wait_to_boundary(elapsed_ms: nat, interval_ms: nat) -> nat {
    (interval_ms - elapsed_ms % interval_ms) as nat
}

pub fn sleep_to_boundary(elapsed_ms: u64, interval_ms: u64) -> (sleep_ms: u64)
    requires
        interval_ms > 0,
    ensures
        sleep_ms == wait_to_boundary(elapsed_ms as nat, interval_ms as nat),
        0 < sleep_ms <= interval_ms,
{
    interval_ms - elapsed_ms % interval_ms
}

/// Highest frame rate whose interval is at least one millisecond.
pub const MAX_FPS: u64 = 1000;

/// Time on the playback clock at `now_ms`, for playback that started at
/// `start_ms`. A reading from before the start counts as the start.
pub open spec fn elapsed_spec(start_ms: nat, now_ms: nat) -> nat {
    if now_ms > start_ms {
        (now_ms - start_ms) as nat
    } else {
        0
    }
}

/// When playback started and how fast it runs. Elapsed time and the frame
/// that is due derive from it; it never changes.
#[derive(Clone, Copy)]
pub struct PlaybackClock {
    start_ms: u64,
    fps: u64,
}

impl PlaybackClock {
    #[verifier::type_invariant]
    spec fn positive_interval(&self) -> bool {
        0 < self.fps <= MAX_FPS
    }

    pub closed spec fn start(&self) -> nat {
        self.start_ms as nat
    }

    pub closed spec fn rate(&self) -> nat {
        self.fps as nat
    }

    /// A clock for playback that starts at `start_ms` and runs at `fps`
    /// frames per second.
    pub fn new(start_ms: u64, fps: u64) -> (clock: PlaybackClock)
        requires
            0 < fps <= MAX_FPS,
        ensures
            clock.start() == start_ms,
            clock.rate() == fps,
    {
        PlaybackClock { start_ms, fps }
    }

    pub fn fps(&self) -> (fps: u64)
        ensures
            fps == self.rate(),
            0 < fps <= MAX_FPS,
    {
        proof {
            use_type_invariant(self);
        }
        self.fps
    }

    /// Milliseconds of playback at `now_ms`.
    pub fn elapsed_millis(&self, now_ms: u64) -> (elapsed_ms: u64)
        ensures
            elapsed_ms == elapsed_spec(self.start(), now_ms as nat),
    {
        if now_ms > self.start_ms {
            now_ms - self.start_ms
        } else {
            0
        }
    }

    /// The frame interval in whole milliseconds; at least one.
    pub fn interval_millis(&self) -> (interval: u64)
        ensures
            interval == frame_interval_spec(self.rate()),
            interval > 0,
    {
        proof {
            use_type_invariant(self);
        }
        let interval: u64 = frame_interval_millis(self.fps);
        assert(interval > 0) by (nonlinear_arith)
            requires
                0 < self.fps <= 1000,
                interval == 1000int / (self.fps as int),
        ;
        interval
    }

    /// The frame due at `now_ms` among `frame_count` frames.
    pub fn ideal_index(&self, now_ms: u64, frame_count: usize) -> (index: usize)
        requires
            frame_count > 0,
        ensures
            index == ideal_frame_index(
                elapsed_spec(self.start(), now_ms as nat),
                self.rate(),
                frame_count as nat,
            ),
            index < frame_count,
    {
        frame_index_at(self.elapsed_millis(now_ms), self.fps, frame_count)
    }
}

/// What a pacer is, as plain values.
pub ghost struct PacerState {
    pub policy: Policy,
    pub stop: StopRule,
    pub start_ms: nat,
    pub fps: nat,
    pub frame_count: nat,
    /// Under the sequential policy, the index of the next frame to show;
    /// equal to `frame_count` once a single pass is over.
    pub cursor: nat,
}

impl PacerState {
    /// The frame rate has a positive interval, there is a frame to show, and
    /// the cursor has not run past the sequence.
    pub open spec fn valid(self) -> bool {
        &&& 0 < self.fps <= MAX_FPS
        &&& self.frame_count > 0
        &&& self.cursor <= self.frame_count
        &&& self.stop is AfterDuration ==> self.cursor < self.frame_count
    }

    /// Time on the playback clock at `now_ms`.
    pub open spec fn elapsed(self, now_ms: nat) -> nat {
        elapsed_spec(self.start_ms, now_ms)
    }

    /// Whether playback is over at `now_ms`.
    pub open spec fn finished(self, now_ms: nat) -> bool {
        match self.stop {
            StopRule::AfterDuration(limit_ms) => self.elapsed(now_ms) >= limit_ms,
            StopRule::AfterSequence => match self.policy {
                Policy::ElapsedTime => ideal_position(self.elapsed(now_ms), self.fps)
                    >= self.frame_count,
                Policy::Sequential => self.cursor >= self.frame_count,
            },
        }
    }

    /// The frame to show at `now_ms`, for a pacer that is not finished.
    pub open spec fn due_frame(self, now_ms: nat) -> nat {
        match self.policy {
            Policy::ElapsedTime => ideal_frame_index(
                self.elapsed(now_ms),
                self.fps,
                self.frame_count,
            ),
            Policy::Sequential => self.cursor,
        }
    }

    /// The state after the decision at `now_ms`: the sequential cursor moves
    /// on by one frame, wrapping where playback is bounded by time.
    pub open spec fn after_tick(self, now_ms: nat) -> PacerState {
        if self.finished(now_ms) || self.policy is ElapsedTime {
            self
        } else {
            PacerState {
                cursor: match self.stop {
                    StopRule::AfterDuration(_) => (self.cursor + 1) as nat % self.frame_count,
                    StopRule::AfterSequence => self.cursor + 1,
                },
                ..self
            }
        }
    }

    /// How long to sleep once a frame is drawn, for an iteration that began
    /// at `started_ms` and has reached `now_ms`: what the iteration left of
    /// the frame interval, or the time to the next frame boundary.
    pub open spec fn pause(self, started_ms: nat, now_ms: nat) -> nat {
        let interval = frame_interval_spec(self.fps);
        match self.policy {
            Policy::ElapsedTime => remaining_budget(interval, elapsed_spec(started_ms, now_ms)),
            Policy::Sequential => wait_to_boundary(self.elapsed(now_ms), interval),
        }
    }
}

/// A valid pacer stays valid, and the frame it shows exists.
pub proof fn lemma_tick_keeps_valid(state: PacerState, now_ms: nat)
    requires
        state.valid(),
    ensures
        state.after_tick(now_ms).valid(),
        !state.finished(now_ms) ==> state.due_frame(now_ms) < state.frame_count,
{
    let n = state.frame_count as int;
    let c = state.cursor as int;
    if !state.finished(now_ms) {
        match state.policy {
            Policy::ElapsedTime => {
                let position = ideal_position(state.elapsed(now_ms), state.fps) as int;
                assert(0 <= position % n < n) by (nonlinear_arith)
                    requires
                        n > 0,
                ;
            },
            Policy::Sequential => {
                if state.stop is AfterDuration {
                    assert(0 <= (c + 1) % n < n) by (nonlinear_arith)
                        requires
                            n > 0,
                    ;
                }
            },
        }
    }
}

/// No pause is longer than one frame interval, and under the sequential
/// policy the pause ends on a frame boundary of the playback clock.
pub proof fn lemma_pause_is_bounded(state: PacerState, started_ms: nat, now_ms: nat)
    requires
        state.valid(),
    ensures
        state.pause(started_ms, now_ms) <= frame_interval_spec(state.fps),
        state.policy is Sequential ==> {
            &&& state.pause(started_ms, now_ms) > 0
            &&& (state.elapsed(now_ms) + state.pause(started_ms, now_ms)) % frame_interval_spec(
                state.fps,
            ) == 0
        },
{
    let interval = frame_interval_spec(state.fps) as int;
    let fps = state.fps as int;
    assert(interval >= 1) by (nonlinear_arith)
        requires
            0 < fps <= 1000,
            interval == 1000int / fps,
    ;
    let elapsed = state.elapsed(now_ms) as int;
    let rest = elapsed % interval;
    assert(0 <= rest < interval && (elapsed + (interval - rest)) % interval == 0)
        by (nonlinear_arith)
        requires
            interval >= 1,
            elapsed >= 0,
            rest == elapsed % interval,
    ;
}

/// Drives the playback loop: decides, per iteration, which frame to show or
/// that playback is over, and how long to sleep after the draw.
#[derive(Clone, Copy)]
pub struct Pacer {
    policy: Policy,
    stop: StopRule,
    clock: PlaybackClock,
    frame_count: usize,
    cursor: usize,
}

impl View for Pacer {
    type V = PacerState;

    closed spec fn view(&self) -> PacerState {
        PacerState {
            policy: self.policy,
            stop: self.stop,
            start_ms: self.clock.start(),
            fps: self.clock.rate(),
            frame_count: self.frame_count as nat,
            cursor: self.cursor as nat,
        }
    }
}

impl Pacer {
    #[verifier::type_invariant]
    spec fn well_formed(&self) -> bool {
        self@.valid()
    }

    /// A pacer at the start of playback. With no frame to show there is
    /// nothing to pace.
    pub fn new(policy: Policy, stop: StopRule, clock: PlaybackClock, frame_count: usize) -> (result:
        Result<Pacer, PlaybackError>)
        ensures
            frame_count == 0 ==> result == Err::<Pacer, PlaybackError>(PlaybackError::EmptyInput),
            frame_count > 0 ==> result is Ok && result->Ok_0@ == (PacerState {
                policy,
                stop,
                start_ms: clock.start(),
                fps: clock.rate(),
                frame_count: frame_count as nat,
                cursor: 0,
            }) && result->Ok_0@.valid(),
    {
        proof {
            use_type_invariant(&clock);
        }
        if frame_count == 0 {
            Err(PlaybackError::EmptyInput)
        } else {
            Ok(Pacer { policy, stop, clock, frame_count, cursor: 0 })
        }
    }

    /// Number of frames being paced; never zero.
    pub fn frame_count(&self) -> (n: usize)
        ensures
            n == self@.frame_count,
            n > 0,
    {
        proof {
            use_type_invariant(self);
        }
        self.frame_count
    }

    /// The decision at `now_ms`.
    pub fn tick(&mut self, now_ms: u64) -> (tick: Tick)
        ensures
            old(self)@.valid(),
            final(self)@.valid(),
            final(self)@ == old(self)@.after_tick(now_ms as nat),
            match tick {
                Tick::Finished => old(self)@.finished(now_ms as nat),
                Tick::Show(index) => {
                    &&& !old(self)@.finished(now_ms as nat)
                    &&& index == old(self)@.due_frame(now_ms as nat)
                    &&& index < old(self)@.frame_count
                },
            },
    {
        proof {
            use_type_invariant(&*self);
        }
        let elapsed_ms: u64 = self.clock.elapsed_millis(now_ms);
        let fps: u64 = self.clock.fps();
        match self.stop {
            StopRule::AfterDuration(limit_ms) => {
                if elapsed_ms >= limit_ms {
                    return Tick::Finished;
                }
            },
            StopRule::AfterSequence => {
                let over = match self.policy {
                    Policy::ElapsedTime => position_at(elapsed_ms, fps) >= self.frame_count as u128,
                    Policy::Sequential => self.cursor >= self.frame_count,
                };
                if over {
                    return Tick::Finished;
                }
            },
        }
        match self.policy {
            Policy::ElapsedTime => Tick::Show(frame_index_at(elapsed_ms, fps, self.frame_count)),
            Policy::Sequential => {
                let index: usize = self.cursor;
                let next: usize = match self.stop {
                    StopRule::AfterDuration(_) => if index + 1 == self.frame_count {
                        0
                    } else {
                        index + 1
                    },
                    StopRule::AfterSequence => index + 1,
                };
                proof {
                    let n = self.frame_count as int;
                    if index + 1 == n {
                        assert((index + 1) % n == 0) by (nonlinear_arith)
                            requires
                                index + 1 == n,
                                n > 0,
                        ;
                    } else {
                        assert((index + 1) % n == index + 1) by (nonlinear_arith)
                            requires
                                0 <= index + 1 < n,
                        ;
                    }
                }
                self.cursor = next;
                Tick::Show(index)
            },
        }
    }

    /// Milliseconds to sleep after a draw, for an iteration that began at
    /// `started_ms` and has reached `now_ms`. Never an error: where no time
    /// is left the answer is zero.
    pub fn pause_millis(&self, started_ms: u64, now_ms: u64) -> (sleep_ms: u64)
        ensures
            sleep_ms == self@.pause(started_ms as nat, now_ms as nat),
    {
        let interval: u64 = self.clock.interval_millis();
        match self.policy {
            Policy::ElapsedTime => {
                let spent: u64 = if now_ms > started_ms {
                    now_ms - started_ms
                } else {
                    0
                };
                sleep_after_draw(interval, spent)
            },
            Policy::Sequential => sleep_to_boundary(self.clock.elapsed_millis(now_ms), interval),
        }
    }
}

} // verus!
