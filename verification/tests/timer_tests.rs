use mesai::clock::UtcTime;
use mesai::timer::RunningTimer;

fn at(secs: i64, nanos: u32) -> UtcTime {
    UtcTime { secs, nanos }
}

#[test]
fn running_timer_counts_whole_seconds() {
    let t = RunningTimer::new_at(at(1000, 500_000_000));
    assert_eq!(t.elapsed_at(at(1000, 500_000_000)), 0);
    assert_eq!(t.elapsed_at(at(1001, 499_999_999)), 0);
    assert_eq!(t.elapsed_at(at(1001, 500_000_000)), 1);
    assert_eq!(t.elapsed_at(at(1090, 0)), 89);
    // A clock that went backwards reads as zero extra seconds.
    assert_eq!(t.elapsed_at(at(900, 0)), 0);
}

#[test]
fn pauses_are_not_counted() {
    let mut t = RunningTimer::new_at(at(0, 0));
    t.pause_at(at(100, 0));
    assert!(t.paused);
    assert_eq!(t.accumulated_secs, 100);
    assert_eq!(t.elapsed_at(at(5000, 0)), 100);
    // Pausing again changes nothing.
    t.pause_at(at(200, 0));
    assert_eq!(t.accumulated_secs, 100);
    t.resume_at(at(1000, 0));
    assert!(!t.paused);
    assert_eq!(t.elapsed_at(at(1060, 0)), 160);
    // Resuming a running timer changes nothing.
    t.resume_at(at(1050, 0));
    assert_eq!(t.elapsed_at(at(1060, 0)), 160);
    assert_eq!(t.started_at, at(0, 0));
}

#[test]
fn paused_reading_ignores_clock() {
    let mut t = RunningTimer::new();
    t.pause();
    let a = t.elapsed_secs();
    assert_eq!(a, t.accumulated_secs);
    assert_eq!(t.elapsed_secs(), a);
    t.resume();
    assert!(!t.paused);
    assert!(t.elapsed_secs() >= a);
}
