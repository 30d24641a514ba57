use block_resync::block_id::BlockId;
use block_resync::config::PersistedConfig;
use block_resync::engine::{BlockResyncManager, ResyncIterStep, ConfigError};

fn id_of(first: u8) -> BlockId {
    let mut bytes = [0u8; 32];
    bytes[0] = first;
    BlockId::from_bytes(bytes)
}

fn manager() -> BlockResyncManager {
    BlockResyncManager::new(PersistedConfig::default_config())
}

#[test]
fn empty_queue_idles_ten_seconds() {
    let mut m = manager();
    match m.begin_iteration(1_000) {
        ResyncIterStep::IdleFor { wait_ms } => assert_eq!(wait_ms, 10_000),
        _ => panic!("expected an idle step"),
    }
}

#[test]
fn entry_not_yet_due_idles_until_due() {
    let h = id_of(1);
    let mut m = manager();
    m.put_to_resync_at(&h, 100);
    match m.begin_iteration(60) {
        ResyncIterStep::IdleFor { wait_ms } => assert_eq!(wait_ms, 40),
        _ => panic!("expected an idle step"),
    }
    // The queue is untouched.
    assert_eq!(m.queue_len(), 1);
    assert!(m.queue_contains(100, &h));
    assert_eq!(m.errors_len(), 0);
}

#[test]
fn due_entry_with_noop_resync_is_removed() {
    let h = id_of(2);
    let mut m = manager();
    m.put_to_resync_at(&h, 100);
    let claim = match m.begin_iteration(150) {
        ResyncIterStep::Run { claim } => claim,
        _ => panic!("expected a run step"),
    };
    assert_eq!(claim.when, 100);
    assert!(claim.id.same(&h));
    m.finish_iteration(&claim, true, 150);
    assert_eq!(m.queue_len(), 0);
    assert_eq!(m.errors_len(), 0);
    assert!(m.error_of(&h).is_none());
}

#[test]
fn failed_iteration_schedules_backoff_retry() {
    let h = id_of(3);
    let mut m = manager();
    m.put_to_resync_at(&h, 100);
    let claim = match m.begin_iteration(150) {
        ResyncIterStep::Run { claim } => claim,
        _ => panic!("expected a run step"),
    };
    m.finish_iteration(&claim, false, 150);
    let c = m.error_of(&h).expect("a counter is recorded");
    assert_eq!(c.errors, 1);
    assert_eq!(c.last_try, 151);
    assert!(m.queue_contains(151 + 60_000, &h));
    assert!(!m.queue_contains(100, &h));
    assert_eq!(m.queue_len(), 1);
}

#[test]
fn two_failures_double_the_delay() {
    let h = id_of(4);
    let t1: u64 = 150;
    let mut m = manager();
    m.put_to_resync_at(&h, 100);
    let claim = match m.begin_iteration(t1) {
        ResyncIterStep::Run { claim } => claim,
        _ => panic!("expected a run step"),
    };
    m.finish_iteration(&claim, false, t1);
    let retry_at = t1 + 1 + 60_000;
    let t2 = retry_at + 5;
    let claim2 = match m.begin_iteration(t2) {
        ResyncIterStep::Run { claim } => claim,
        _ => panic!("expected a second run step"),
    };
    assert_eq!(claim2.when, retry_at);
    m.finish_iteration(&claim2, false, t2);
    let c = m.error_of(&h).expect("a counter is recorded");
    assert_eq!(c.errors, 2);
    assert_eq!(c.last_try, t2 + 1);
    assert!(m.queue_contains(t2 + 1 + 120_000, &h));
    assert_eq!(m.queue_len(), 1);
}

#[test]
fn success_clears_the_error_counter() {
    let h = id_of(5);
    let mut m = manager();
    m.put_to_resync_at(&h, 0);
    let claim = match m.begin_iteration(10) {
        ResyncIterStep::Run { claim } => claim,
        _ => panic!("expected a run step"),
    };
    m.finish_iteration(&claim, false, 10);
    assert_eq!(m.errors_len(), 1);
    let retry = 11 + 60_000;
    let claim2 = match m.begin_iteration(retry) {
        ResyncIterStep::Run { claim } => claim,
        _ => panic!("expected a run step"),
    };
    m.finish_iteration(&claim2, true, retry);
    assert_eq!(m.errors_len(), 0);
    assert_eq!(m.queue_len(), 0);
}

#[test]
fn backing_off_entry_is_skipped_and_requeued() {
    // A block with two recorded failures, the second recorded at 90,
    // may not run again before 90 + 120_000.
    let h = id_of(6);
    let mut m = manager();
    m.put_to_resync_at(&h, 0);
    let claim = match m.begin_iteration(0) {
        ResyncIterStep::Run { claim } => claim,
        _ => panic!("expected a run step"),
    };
    m.finish_iteration(&claim, false, 5);
    let claim2 = match m.begin_iteration(60_006) {
        ResyncIterStep::Run { claim } => claim,
        _ => panic!("expected a run step"),
    };
    // The clock may regress; the counter records the time it is given.
    m.finish_iteration(&claim2, false, 89);
    let c = m.error_of(&h).expect("a counter is recorded");
    assert_eq!(c.errors, 2);
    assert_eq!(c.last_try, 90);
    // A fresh producer enqueues the block as due at 100.
    m.put_to_resync_at(&h, 100);
    assert!(m.queue_contains(100, &h));
    // Iterating at 110 finds the entry due but still backing off.
    match m.begin_iteration(110) {
        ResyncIterStep::Skipped { .. } => {},
        _ => panic!("expected a skipped step"),
    }
    assert!(!m.queue_contains(100, &h));
    assert!(m.queue_contains(90 + 120_000, &h));
    assert_eq!(m.queue_len(), 1);
    assert_eq!(m.error_of(&h).expect("counter kept").errors, 2);
}

#[test]
fn one_due_entry_is_claimed_by_one_worker_only() {
    let h = id_of(7);
    let mut m = manager();
    m.put_to_resync_at(&h, 100);
    let first = m.begin_iteration(200);
    let claim = match first {
        ResyncIterStep::Run { claim } => claim,
        _ => panic!("the first caller claims the entry"),
    };
    // A second caller finds the only entry claimed and idles.
    match m.begin_iteration(200) {
        ResyncIterStep::IdleFor { wait_ms } => assert_eq!(wait_ms, 10_000),
        _ => panic!("the second caller must not claim the same entry"),
    }
    // Once released, the entry can be claimed again.
    m.finish_iteration(&claim, false, 200);
    assert_eq!(m.errors_len(), 1);
}

#[test]
fn worker_count_accepted_between_one_and_four() {
    let mut m = manager();
    assert_eq!(m.set_n_workers(0), Err(ConfigError::InvalidWorkerCount));
    assert_eq!(m.config().n_workers, 1);
    for n in 1..=4usize {
        let cfg = m.set_n_workers(n).expect("count in range accepted");
        assert_eq!(cfg.n_workers, n);
        // The snapshot changes only once the save outcome is published.
        m.publish_config(cfg, true);
        assert_eq!(m.config().n_workers, n);
    }
    assert_eq!(m.set_n_workers(5), Err(ConfigError::InvalidWorkerCount));
    assert_eq!(m.config().n_workers, 4);
}

#[test]
fn tranquility_always_accepted() {
    let mut m = manager();
    let cfg = m.set_tranquility(7);
    assert_eq!(cfg.tranquility, 7);
    assert_eq!(cfg.n_workers, 1);
    // Not published yet: the snapshot still serves the old value.
    assert_eq!(m.config().tranquility, 2);
    m.publish_config(cfg, true);
    assert_eq!(m.config().tranquility, 7);
}

#[test]
fn failed_save_leaves_the_snapshot_unchanged() {
    let mut m = manager();
    let cfg = m.set_n_workers(3).expect("count in range accepted");
    // The durable save failed: the snapshot must not move, so a
    // restart and the running pool agree on the configuration.
    m.publish_config(cfg, false);
    assert_eq!(m.config().n_workers, 1);
}

#[test]
fn enqueue_with_delay_adds_to_now() {
    let h = id_of(8);
    let mut m = manager();
    m.put_to_resync(&h, 600_000, 1_000);
    assert!(m.queue_contains(601_000, &h));
    assert_eq!(m.queue_len(), 1);
}

#[test]
fn duplicate_enqueue_is_harmless() {
    let h = id_of(9);
    let mut m = manager();
    m.put_to_resync_at(&h, 42);
    m.put_to_resync_at(&h, 42);
    assert_eq!(m.queue_len(), 1);
}

#[test]
fn earliest_due_entry_runs_first() {
    let early = id_of(10);
    let late = id_of(11);
    let mut m = manager();
    m.put_to_resync_at(&late, 500);
    m.put_to_resync_at(&early, 100);
    let claim = match m.begin_iteration(1_000) {
        ResyncIterStep::Run { claim } => claim,
        _ => panic!("expected a run step"),
    };
    assert_eq!(claim.when, 100);
    assert!(claim.id.same(&early));
}

#[test]
fn equal_times_run_in_id_order() {
    let small = id_of(1);
    let big = id_of(2);
    let mut m = manager();
    m.put_to_resync_at(&big, 100);
    m.put_to_resync_at(&small, 100);
    let claim = match m.begin_iteration(1_000) {
        ResyncIterStep::Run { claim } => claim,
        _ => panic!("expected a run step"),
    };
    assert!(claim.id.same(&small));
}
