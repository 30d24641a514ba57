use block_resync::tranquilizer::Tranquilizer;
use block_resync::worker::{ResyncWorker, ResyncIterResult, WorkerState};

#[test]
fn zero_tranquility_never_sleeps() {
    let mut t = Tranquilizer::new();
    t.observe(5_000);
    assert_eq!(t.sleep_for(0), 0);
}

#[test]
fn sleep_is_tranquility_times_the_mean() {
    let mut t = Tranquilizer::new();
    t.observe(100);
    t.observe(300);
    // Mean 200, tranquility 2: rest twice as long as the work took.
    assert_eq!(t.sleep_for(2), 400);
    assert_eq!(t.sleep_for(1), 200);
}

#[test]
fn sleep_never_exceeds_the_cap() {
    let mut t = Tranquilizer::new();
    t.observe(u64::MAX);
    assert_eq!(t.sleep_for(2), 30_000);
}

#[test]
fn more_tranquility_never_means_less_sleep() {
    let mut t = Tranquilizer::new();
    t.observe(120);
    t.observe(60);
    let mut previous = 0u64;
    for tranquility in 0..40u32 {
        let s = t.sleep_for(tranquility);
        assert!(s >= previous);
        assert!(s <= 30_000);
        previous = s;
    }
}

#[test]
fn window_keeps_only_recent_observations() {
    let mut t = Tranquilizer::new();
    // Thirty slow samples, then thirty fast ones: the slow ones age out.
    for _ in 0..30 {
        t.observe(1_000);
    }
    assert_eq!(t.sleep_for(1), 1_000);
    for _ in 0..30 {
        t.observe(10);
    }
    assert_eq!(t.sleep_for(1), 10);
}

#[test]
fn pace_observes_then_sleeps() {
    let mut t = Tranquilizer::new();
    assert_eq!(t.pace(500, 3), 1_500);
}

#[test]
fn workers_beyond_the_configured_count_park() {
    let workers: Vec<ResyncWorker> = (0..4).map(ResyncWorker::new).collect();
    // Default configuration: one worker runs.
    assert!(workers[0].is_active(1));
    assert!(!workers[1].is_active(1));
    assert!(!workers[2].is_active(1));
    // After reconfiguring to three, worker 3 (index 2) wakes up.
    assert!(workers[2].is_active(3));
    assert!(!workers[3].is_active(3));
    assert_eq!(workers[2].index(), 2);
}

#[test]
fn dispatch_after_work_paces_and_reports_busy() {
    let mut w = ResyncWorker::new(0);
    let (state, sleep) = w.dispatch(ResyncIterResult::DidWork, 400, 2);
    assert_eq!(state, WorkerState::Busy);
    assert_eq!(sleep, 800);
}

#[test]
fn dispatch_after_skip_reports_busy_at_once() {
    let mut w = ResyncWorker::new(0);
    let (state, sleep) = w.dispatch(ResyncIterResult::Skipped, 0, 2);
    assert_eq!(state, WorkerState::Busy);
    assert_eq!(sleep, 0);
}

#[test]
fn dispatch_when_idle_remembers_the_delay() {
    let mut w = ResyncWorker::new(0);
    assert_eq!(w.next_delay(), 10_000);
    let (state, sleep) = w.dispatch(ResyncIterResult::IdleFor { wait_ms: 750 }, 0, 2);
    assert_eq!(state, WorkerState::Idle);
    assert_eq!(sleep, 0);
    assert_eq!(w.next_delay(), 750);
}
