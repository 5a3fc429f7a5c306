use bad_ascii::error::PlaybackError;
use bad_ascii::pacing::{
    frame_index_at, frame_interval_millis, position_at, sleep_after_draw, sleep_to_boundary,
    Pacer, PlaybackClock, Policy, StopRule, Tick,
};

fn pacer(policy: Policy, stop: StopRule, fps: u64, frame_count: usize) -> Pacer {
    Pacer::new(policy, stop, PlaybackClock::new(0, fps), frame_count).unwrap()
}

#[test]
fn frame_index_wraps_around_the_frame_count() {
    // floor(0.5 * 24) mod 10 == 12 mod 10
    assert_eq!(frame_index_at(500, 24, 10), 2);
}

#[test]
fn frame_index_at_samples() {
    assert_eq!(frame_index_at(0, 24, 10), 0);
    assert_eq!(frame_index_at(41, 24, 10), 0);
    assert_eq!(frame_index_at(42, 24, 10), 1);
    assert_eq!(frame_index_at(1000, 24, 10), 4);
    assert_eq!(frame_index_at(1000, 24, 24), 0);
    assert_eq!(frame_index_at(999, 24, 24), 23);
    assert_eq!(frame_index_at(123456, 30, 1), 0);
}

#[test]
fn frame_index_at_the_limits() {
    // u64::MAX * u64::MAX / 1000 needs more than 64 bits.
    let position = (u64::MAX as u128) * (u64::MAX as u128) / 1000;
    assert_eq!(position_at(u64::MAX, u64::MAX), position);
    assert_eq!(
        frame_index_at(u64::MAX, u64::MAX, 1_000_003),
        (position % 1_000_003) as usize
    );
}

#[test]
fn position_counts_whole_intervals() {
    assert_eq!(position_at(500, 24), 12);
    assert_eq!(position_at(999, 1), 0);
    assert_eq!(position_at(1000, 1), 1);
    assert_eq!(position_at(0, 1000), 0);
}

#[test]
fn frame_interval_in_whole_milliseconds() {
    assert_eq!(frame_interval_millis(24), 41);
    assert_eq!(frame_interval_millis(1), 1000);
    assert_eq!(frame_interval_millis(1000), 1);
    assert_eq!(frame_interval_millis(60), 16);
    assert_eq!(frame_interval_millis(1001), 0);
}

#[test]
fn sleep_after_draw_is_what_is_left_of_the_interval() {
    assert_eq!(sleep_after_draw(41, 10), 31);
    assert_eq!(sleep_after_draw(41, 0), 41);
}

#[test]
fn overrun_means_no_sleep() {
    assert_eq!(sleep_after_draw(41, 41), 0);
    assert_eq!(sleep_after_draw(41, 500), 0);
    assert_eq!(sleep_after_draw(0, 0), 0);
    assert_eq!(sleep_after_draw(0, u64::MAX), 0);
}

#[test]
fn sleep_to_boundary_realigns_to_the_interval() {
    assert_eq!(sleep_to_boundary(0, 41), 41);
    assert_eq!(sleep_to_boundary(1, 41), 40);
    assert_eq!(sleep_to_boundary(40, 41), 1);
    assert_eq!(sleep_to_boundary(41, 41), 41);
    assert_eq!(sleep_to_boundary(100, 41), 23);
    assert_eq!(sleep_to_boundary(u64::MAX, 1), 1);
}

#[test]
fn pacer_needs_a_frame() {
    let clock = PlaybackClock::new(0, 24);
    let result = Pacer::new(Policy::Sequential, StopRule::AfterSequence, clock, 0);
    assert!(matches!(result, Err(PlaybackError::EmptyInput)));
}

#[test]
fn sequential_pass_shows_every_frame_once() {
    let mut pacer = pacer(Policy::Sequential, StopRule::AfterSequence, 24, 3);
    assert_eq!(pacer.frame_count(), 3);
    // The clock plays no part in the order.
    assert_eq!(pacer.tick(0), Tick::Show(0));
    assert_eq!(pacer.tick(5000), Tick::Show(1));
    assert_eq!(pacer.tick(5001), Tick::Show(2));
    assert_eq!(pacer.tick(5002), Tick::Finished);
    assert_eq!(pacer.tick(5003), Tick::Finished);
}

#[test]
fn sequential_playback_wraps_until_the_time_is_up() {
    let mut pacer = pacer(Policy::Sequential, StopRule::AfterDuration(1000), 24, 2);
    assert_eq!(pacer.tick(0), Tick::Show(0));
    assert_eq!(pacer.tick(41), Tick::Show(1));
    assert_eq!(pacer.tick(82), Tick::Show(0));
    assert_eq!(pacer.tick(999), Tick::Show(1));
    assert_eq!(pacer.tick(1000), Tick::Finished);
    assert_eq!(pacer.tick(999), Tick::Show(0));
}

#[test]
fn elapsed_time_policy_follows_the_clock() {
    let mut pacer = pacer(Policy::ElapsedTime, StopRule::AfterDuration(3000), 24, 10);
    assert_eq!(pacer.tick(0), Tick::Show(0));
    assert_eq!(pacer.tick(500), Tick::Show(2));
    // Going back on the clock goes back in the frames: no state is kept.
    assert_eq!(pacer.tick(42), Tick::Show(1));
    assert_eq!(pacer.tick(2999), Tick::Show(1));
    assert_eq!(pacer.tick(3000), Tick::Finished);
}

#[test]
fn elapsed_time_policy_skips_frames_under_load() {
    let mut pacer = pacer(Policy::ElapsedTime, StopRule::AfterSequence, 10, 8);
    assert_eq!(pacer.tick(0), Tick::Show(0));
    assert_eq!(pacer.tick(350), Tick::Show(3));
    assert_eq!(pacer.tick(799), Tick::Show(7));
    assert_eq!(pacer.tick(800), Tick::Finished);
    assert_eq!(pacer.tick(90000), Tick::Finished);
}

#[test]
fn zero_duration_finishes_at_once() {
    for policy in [Policy::ElapsedTime, Policy::Sequential] {
        let mut pacer = pacer(policy, StopRule::AfterDuration(0), 24, 4);
        assert_eq!(pacer.tick(0), Tick::Finished);
    }
}

#[test]
fn pause_under_the_elapsed_time_policy() {
    let pacer = pacer(Policy::ElapsedTime, StopRule::AfterSequence, 24, 10);
    assert_eq!(pacer.pause_millis(100, 110), 31);
    assert_eq!(pacer.pause_millis(100, 100), 41);
    assert_eq!(pacer.pause_millis(100, 141), 0);
    assert_eq!(pacer.pause_millis(100, 900), 0);
    // A clock that went backwards has spent nothing.
    assert_eq!(pacer.pause_millis(100, 90), 41);
}

#[test]
fn pause_under_the_sequential_policy() {
    let pacer = pacer(Policy::Sequential, StopRule::AfterSequence, 24, 10);
    assert_eq!(pacer.pause_millis(0, 10), 31);
    assert_eq!(pacer.pause_millis(0, 41), 41);
    assert_eq!(pacer.pause_millis(0, 100), 23);
    assert_eq!(pacer.pause_millis(77, 100), 23);
}

#[test]
fn pause_at_the_highest_frame_rate() {
    let a = pacer(Policy::ElapsedTime, StopRule::AfterSequence, 1000, 1);
    let b = pacer(Policy::Sequential, StopRule::AfterSequence, 1000, 1);
    assert_eq!(a.pause_millis(5, 5), 1);
    assert_eq!(a.pause_millis(5, 6), 0);
    assert_eq!(b.pause_millis(5, 6), 1);
}

#[test]
fn clock_measures_from_its_start() {
    let clock = PlaybackClock::new(1000, 24);
    assert_eq!(clock.fps(), 24);
    assert_eq!(clock.interval_millis(), 41);
    assert_eq!(clock.elapsed_millis(1000), 0);
    assert_eq!(clock.elapsed_millis(1500), 500);
    assert_eq!(clock.elapsed_millis(999), 0);
    assert_eq!(clock.elapsed_millis(0), 0);
    assert_eq!(clock.elapsed_millis(u64::MAX), u64::MAX - 1000);
}

#[test]
fn clock_names_the_frame_that_is_due() {
    let clock = PlaybackClock::new(1000, 24);
    assert_eq!(clock.ideal_index(1500, 10), 2);
    assert_eq!(clock.ideal_index(1000, 10), 0);
    assert_eq!(clock.ideal_index(10, 10), 0);
    assert_eq!(clock.ideal_index(2000, 5), 4);
}

#[test]
fn pacer_counts_time_from_the_clock_start() {
    let clock = PlaybackClock::new(5000, 10);
    let mut a = Pacer::new(Policy::ElapsedTime, StopRule::AfterDuration(1000), clock, 4).unwrap();
    assert_eq!(a.tick(5000), Tick::Show(0));
    assert_eq!(a.tick(5250), Tick::Show(2));
    assert_eq!(a.tick(5999), Tick::Show(1));
    assert_eq!(a.tick(6000), Tick::Finished);
    // Before the start no time has passed.
    assert_eq!(a.tick(100), Tick::Show(0));
    let b = Pacer::new(Policy::Sequential, StopRule::AfterSequence, clock, 4).unwrap();
    assert_eq!(b.pause_millis(5000, 5030), 70);
    assert_eq!(b.pause_millis(5000, 5100), 100);
    assert_eq!(b.pause_millis(0, 30), 100);
}

#[test]
fn sequential_is_the_default_policy() {
    assert_eq!(Policy::default(), Policy::Sequential);
}
