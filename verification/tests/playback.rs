use bad_ascii::error::PlaybackError;
use bad_ascii::frame::{Frame, FrameStore};
use bad_ascii::pacing::{PlaybackClock, Policy, StopRule};
use bad_ascii::playback::{Playback, Step};

fn store_of(frames: &[&[&str]]) -> FrameStore {
    FrameStore::load(
        frames
            .iter()
            .map(|rows| Frame::new(rows.iter().map(|r| r.to_string()).collect()))
            .collect(),
    )
    .unwrap()
}

/// Steps the session and reports the write as done.
fn play(session: &mut Playback, now_ms: u64) -> String {
    match session.step(now_ms) {
        Step::Write(buffer) => {
            assert_eq!(session.written(true), Ok(()));
            buffer
        }
        Step::Done => panic!("playback ended early"),
    }
}

#[test]
fn session_centers_the_frames() {
    let store = store_of(&[&["abcdef", "abcdef"]]);
    let clock = PlaybackClock::new(0, 24);
    let session = Playback::new(&store, Policy::Sequential, StopRule::AfterSequence, clock, 80, 24);
    // 6 / 3 == 2 columns in 80; 2 rows in 24.
    assert_eq!(session.top(), 11);
    assert_eq!(session.left(), 39);
}

#[test]
fn sequential_session_draws_each_frame_then_ends() {
    let store = store_of(&[&["A", "B", "C"], &["A", "X", "C"], &["A", "X", "C"]]);
    let clock = PlaybackClock::new(0, 24);
    let mut session =
        Playback::new(&store, Policy::Sequential, StopRule::AfterSequence, clock, 1, 3);
    assert_eq!(session.top(), 0);
    assert_eq!(session.left(), 0);
    assert_eq!(play(&mut session, 0), "\x1b[0;0HA\x1b[1;0HB\x1b[2;0HC");
    assert_eq!(play(&mut session, 41), "\x1b[1;0HX");
    assert_eq!(play(&mut session, 82), "");
    assert!(matches!(session.step(123), Step::Done));
    assert!(matches!(session.step(124), Step::Done));
}

#[test]
fn elapsed_time_session_shows_the_frame_that_is_due() {
    let store = store_of(&[&["0"], &["1"], &["2"], &["3"]]);
    let clock = PlaybackClock::new(0, 10);
    let mut session =
        Playback::new(&store, Policy::ElapsedTime, StopRule::AfterDuration(1000), clock, 20, 11);
    assert_eq!(session.top(), 5);
    assert_eq!(session.left(), 10);
    assert_eq!(play(&mut session, 0), "\x1b[5;10H0");
    // Still within the first interval: the same frame, nothing to write.
    assert_eq!(play(&mut session, 99), "");
    // Frames 1 and 2 are skipped.
    assert_eq!(play(&mut session, 300), "\x1b[5;10H3");
    // Wrapped around.
    assert_eq!(play(&mut session, 400), "\x1b[5;10H0");
    assert!(matches!(session.step(1000), Step::Done));
}

#[test]
fn session_pause_follows_the_policy() {
    let store = store_of(&[&["0"]]);
    let clock = PlaybackClock::new(0, 24);
    let a = Playback::new(&store, Policy::ElapsedTime, StopRule::AfterSequence, clock, 1, 1);
    let b = Playback::new(&store, Policy::Sequential, StopRule::AfterSequence, clock, 1, 1);
    assert_eq!(a.pause_millis(100, 105), 36);
    assert_eq!(a.pause_millis(100, 205), 0);
    assert_eq!(b.pause_millis(100, 105), 18);
}

#[test]
fn wrapping_session_redraws_only_what_differs() {
    let store = store_of(&[&["same", "one"], &["same", "two"]]);
    let clock = PlaybackClock::new(0, 50);
    let mut session =
        Playback::new(&store, Policy::Sequential, StopRule::AfterDuration(500), clock, 0, 0);
    assert_eq!(play(&mut session, 0), "\x1b[0;0Hsame\x1b[1;0Hone");
    assert_eq!(play(&mut session, 20), "\x1b[1;0Htwo");
    assert_eq!(play(&mut session, 40), "\x1b[1;0Hone");
    assert!(matches!(session.step(500), Step::Done));
}

#[test]
fn session_counts_time_from_the_clock_start() {
    let store = store_of(&[&["0"], &["1"]]);
    let clock = PlaybackClock::new(7000, 10);
    let mut session =
        Playback::new(&store, Policy::ElapsedTime, StopRule::AfterSequence, clock, 0, 0);
    assert_eq!(play(&mut session, 7000), "\x1b[0;0H0");
    assert_eq!(play(&mut session, 7100), "\x1b[0;0H1");
    assert_eq!(session.pause_millis(7100, 7130), 70);
    assert!(matches!(session.step(7200), Step::Done));
}

#[test]
fn failed_write_is_a_terminal_error_and_leaves_the_frame_undrawn() {
    let store = store_of(&[&["A", "B"], &["A", "C"]]);
    let clock = PlaybackClock::new(0, 10);
    let mut session =
        Playback::new(&store, Policy::ElapsedTime, StopRule::AfterDuration(1000), clock, 0, 0);
    assert_eq!(play(&mut session, 0), "\x1b[0;0HA\x1b[1;0HB");
    assert!(matches!(session.step(100), Step::Write(buffer) if buffer == "\x1b[1;0HC"));
    assert_eq!(session.written(false), Err(PlaybackError::TerminalIO));
    // The screen still shows the first frame: the same row is due again.
    assert_eq!(play(&mut session, 100), "\x1b[1;0HC");
    assert_eq!(play(&mut session, 100), "");
}

#[test]
fn frame_counts_as_shown_only_once_the_write_is_reported() {
    let store = store_of(&[&["A"]]);
    let clock = PlaybackClock::new(0, 10);
    let mut session =
        Playback::new(&store, Policy::ElapsedTime, StopRule::AfterDuration(1000), clock, 0, 0);
    assert!(matches!(session.step(0), Step::Write(buffer) if buffer == "\x1b[0;0HA"));
    assert!(matches!(session.step(0), Step::Write(buffer) if buffer == "\x1b[0;0HA"));
    assert_eq!(session.written(true), Ok(()));
    assert!(matches!(session.step(0), Step::Write(buffer) if buffer.is_empty()));
}

#[test]
fn reporting_without_a_step_changes_nothing() {
    let store = store_of(&[&["A"]]);
    let clock = PlaybackClock::new(0, 10);
    let mut session =
        Playback::new(&store, Policy::ElapsedTime, StopRule::AfterDuration(1000), clock, 0, 0);
    assert_eq!(session.written(true), Ok(()));
    assert_eq!(play(&mut session, 0), "\x1b[0;0HA");
}
