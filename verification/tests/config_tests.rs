use block_resync::config::PersistedConfig;
use block_resync::engine::BlockResyncManager;
use block_resync::worker::ResyncWorker;

#[test]
fn default_is_one_worker_tranquility_two() {
    let c = PersistedConfig::default_config();
    assert_eq!(c.n_workers, 1);
    assert_eq!(c.tranquility, 2);
}

#[test]
fn config_round_trip() {
    for n_workers in 1..=4usize {
        for tranquility in [0u32, 2, 7, u32::MAX] {
            let c = PersistedConfig { n_workers, tranquility };
            let bytes = c.encode();
            assert_eq!(bytes.len(), 16);
            assert_eq!(PersistedConfig::decode(&bytes), Some(c));
        }
    }
}

#[test]
fn decode_rejects_bad_bytes() {
    assert_eq!(PersistedConfig::decode(&vec![0u8; 15]), None);
    assert_eq!(PersistedConfig::decode(&vec![0u8; 17]), None);
    // A worker count of zero is not an accepted configuration.
    assert_eq!(PersistedConfig::decode(&vec![0u8; 16]), None);
    // Nor is one above the pool cap.
    let mut five = vec![0u8; 16];
    five[7] = 5;
    assert_eq!(PersistedConfig::decode(&five), None);
}

#[test]
fn load_or_default_takes_valid_bytes_else_default() {
    let stored = PersistedConfig { n_workers: 3, tranquility: 9 }.encode();
    let loaded = PersistedConfig::load_or_default(Some(&stored));
    assert_eq!(loaded.n_workers, 3);
    assert_eq!(loaded.tranquility, 9);

    let garbage = vec![0xFFu8; 16];
    let fallback = PersistedConfig::load_or_default(Some(&garbage));
    assert_eq!(fallback, PersistedConfig::default_config());

    let fresh = PersistedConfig::load_or_default(None);
    assert_eq!(fresh, PersistedConfig::default_config());
}

#[test]
fn worker_count_survives_a_restart() {
    // Raise the worker count, persist the returned configuration...
    let mut m = BlockResyncManager::new(PersistedConfig::default_config());
    let cfg = m.set_n_workers(3).expect("three workers accepted");
    let persisted = cfg.encode();
    m.publish_config(cfg, true);
    assert_eq!(m.config().n_workers, 3);
    // ...and start over from the persisted bytes, as a restart would.
    let reloaded = PersistedConfig::load_or_default(Some(&persisted));
    assert_eq!(reloaded.n_workers, 3);
    let m2 = BlockResyncManager::new(reloaded);
    assert_eq!(m2.config().n_workers, 3);
    // Worker #3 (index 2) moves from parked to active.
    let third = ResyncWorker::new(2);
    assert!(!third.is_active(1));
    assert!(third.is_active(m2.config().n_workers));
}
