use std::time::{Duration, Instant};
use termgba::pacer::FramePacer;

/// Nanoseconds of one frame at 60 Hz.
fn sixtieth() -> u128 {
    Duration::from_secs_f64(1.0 / 60.0).as_nanos()
}

#[test]
fn schedules_the_first_tick_one_interval_ahead() {
    let epoch = Instant::now();
    let before = epoch.elapsed().as_nanos();
    let pacer = FramePacer::new(sixtieth(), epoch.elapsed().as_nanos());
    let after = epoch.elapsed().as_nanos();

    assert!(pacer.next_tick >= before);
    assert!(pacer.next_tick <= after + Duration::from_millis(20).as_nanos());
    assert!(pacer.interval > 0);
}

#[test]
fn recovers_from_a_late_frame_without_sleeping_for_old_deadlines() {
    let epoch = Instant::now();
    let second = Duration::from_secs(1).as_nanos();
    let now = || second + epoch.elapsed().as_nanos();
    let mut pacer = FramePacer::new(sixtieth(), now());
    pacer.next_tick = now() - second;
    assert_eq!(pacer.time_until_next_frame(now()), None);
    pacer.schedule_next_frame(now());

    assert!(pacer.next_tick > now());
}

#[test]
fn frames_on_time_keep_the_cadence() {
    let mut pacer = FramePacer::new(100, 1000);
    assert_eq!(pacer.next_tick, 1100);
    assert_eq!(pacer.time_until_next_frame(1030), Some(70));
    assert_eq!(pacer.time_until_next_frame(1100), None);
    pacer.schedule_next_frame(1101);
    assert_eq!(pacer.next_tick, 1200);
    pacer.schedule_next_frame(1299);
    assert_eq!(pacer.next_tick, 1300);
}

#[test]
fn a_whole_interval_of_delay_starts_over() {
    let mut pacer = FramePacer::new(100, 0);
    pacer.schedule_next_frame(200);
    assert_eq!(pacer.next_tick, 300);
    pacer.schedule_next_frame(987);
    assert_eq!(pacer.next_tick, 1087);
}

#[test]
fn skipping_a_frame_leaves_no_stale_deadline() {
    let mut pacer = FramePacer::new(100, 0);
    pacer.skip_frame(5000);
    assert_eq!(pacer.next_tick, 5100);
    pacer.skip_frame(5001);
    assert_eq!(pacer.next_tick, 5101);
    assert_eq!(pacer.interval, 100);
}

#[test]
fn after_skips_the_wait_is_at_most_one_interval() {
    for stale in [0, 5_000, 1_000_000] {
        let mut pacer = FramePacer::new(100, 0);
        pacer.next_tick = stale;
        for now in [5_000, 5_010, 5_020] {
            pacer.skip_frame(now);
        }
        assert_eq!(pacer.time_until_next_frame(5_020), Some(100));
        assert_eq!(pacer.time_until_next_frame(5_100), Some(20));
        assert_eq!(pacer.time_until_next_frame(5_120), None);
    }
}
