use std::collections::BTreeMap;
use block_resync::block_id::BlockId;
use block_resync::config::PersistedConfig;
use block_resync::counter::ErrorCounter;
use block_resync::durable::TreeOp;
use block_resync::engine::{BlockResyncManager, ResyncIterStep};

fn id_of(first: u8) -> BlockId {
    let mut bytes = [0u8; 32];
    bytes[0] = first;
    BlockId::from_bytes(bytes)
}

fn manager() -> BlockResyncManager {
    BlockResyncManager::new(PersistedConfig::default_config())
}

/// The two durable trees, as a host would hold them on disk.
struct Trees {
    queue: BTreeMap<Vec<u8>, Vec<u8>>,
    errors: BTreeMap<Vec<u8>, Vec<u8>>,
}

impl Trees {
    fn new() -> Trees {
        Trees { queue: BTreeMap::new(), errors: BTreeMap::new() }
    }

    fn apply_all(&mut self, ops: &[TreeOp]) {
        for op in ops {
            match op {
                TreeOp::QueuePut { key, value } => {
                    self.queue.insert(key.clone(), value.clone());
                },
                TreeOp::QueueDel { key } => {
                    self.queue.remove(key);
                },
                TreeOp::ErrorsPut { key, value } => {
                    self.errors.insert(key.clone(), value.clone());
                },
                TreeOp::ErrorsDel { key } => {
                    self.errors.remove(key);
                },
            }
        }
    }
}

#[test]
fn enqueue_writes_the_forty_byte_key() {
    let h = id_of(1);
    let mut m = manager();
    let ops = m.put_to_resync_at(&h, 0x0102);
    assert_eq!(ops.len(), 1);
    match &ops[0] {
        TreeOp::QueuePut { key, value } => {
            assert_eq!(key.len(), 40);
            assert_eq!(&key[0..8], &[0, 0, 0, 0, 0, 0, 1, 2]);
            assert_eq!(&key[8..40], h.as_bytes());
            assert_eq!(value.as_slice(), h.as_bytes());
        },
        _ => panic!("an enqueue is one queue insert"),
    }
}

#[test]
fn failure_ops_write_counter_then_insert_then_delete() {
    let h = id_of(2);
    let mut m = manager();
    m.put_to_resync_at(&h, 100);
    let claim = match m.begin_iteration(150) {
        ResyncIterStep::Run { claim } => claim,
        _ => panic!("expected a run step"),
    };
    let ops = m.finish_iteration(&claim, false, 150);
    assert_eq!(ops.len(), 3);
    match &ops[0] {
        TreeOp::ErrorsPut { key, value } => {
            assert_eq!(key.as_slice(), h.as_bytes());
            assert_eq!(value, &ErrorCounter { errors: 1, last_try: 151 }.encode());
        },
        _ => panic!("the counter is written first"),
    }
    // The later entry is inserted before the old one is deleted, so a
    // crash between the two writes never loses the block.
    match &ops[1] {
        TreeOp::QueuePut { key, .. } => assert_eq!(&key[0..8], &60_151u64.to_be_bytes()),
        _ => panic!("the replacement entry is inserted second"),
    }
    match &ops[2] {
        TreeOp::QueueDel { key } => assert_eq!(&key[0..8], &100u64.to_be_bytes()),
        _ => panic!("the claimed entry is deleted last"),
    }
}

#[test]
fn success_ops_drop_counter_and_entry() {
    let h = id_of(3);
    let mut m = manager();
    m.put_to_resync_at(&h, 7);
    let claim = match m.begin_iteration(10) {
        ResyncIterStep::Run { claim } => claim,
        _ => panic!("expected a run step"),
    };
    let ops = m.finish_iteration(&claim, true, 10);
    assert_eq!(ops.len(), 2);
    assert!(matches!(&ops[0], TreeOp::ErrorsDel { key } if key.as_slice() == h.as_bytes()));
    assert!(matches!(&ops[1], TreeOp::QueueDel { key } if key.len() == 40));
}

#[test]
fn state_survives_a_restart_through_the_trees() {
    let a = id_of(4);
    let b = id_of(5);
    let mut trees = Trees::new();
    let mut m = manager();
    let ops = m.put_to_resync_at(&a, 100);
    trees.apply_all(&ops);
    let ops = m.put_to_resync_at(&b, 200);
    trees.apply_all(&ops);
    let claim = match m.begin_iteration(150) {
        ResyncIterStep::Run { claim } => claim,
        _ => panic!("only the entry for a is due"),
    };
    assert!(claim.id.same(&a));
    let ops = m.finish_iteration(&claim, false, 150);
    trees.apply_all(&ops);

    // A restart: a fresh manager rebuilt from the trees alone.
    let mut restored = manager();
    for key in trees.queue.keys() {
        assert!(restored.load_queue_entry(key));
    }
    for (key, value) in trees.errors.iter() {
        assert!(restored.load_error_entry(key, value));
    }
    assert_eq!(restored.queue_len(), 2);
    assert!(restored.queue_contains(151 + 60_000, &a));
    assert!(restored.queue_contains(200, &b));
    assert_eq!(restored.errors_len(), 1);
    let c = restored.error_of(&a).expect("the counter came back");
    assert_eq!(c.errors, 1);
    assert_eq!(c.last_try, 151);
    assert!(restored.error_of(&b).is_none());
}

#[test]
fn skip_ops_move_the_durable_entry() {
    let h = id_of(6);
    let mut trees = Trees::new();
    let mut m = manager();
    // One failure recorded at 90 puts the block in backoff until 60_090.
    let ops = m.put_to_resync_at(&h, 0);
    trees.apply_all(&ops);
    let claim = match m.begin_iteration(10) {
        ResyncIterStep::Run { claim } => claim,
        _ => panic!("expected a run step"),
    };
    let ops = m.finish_iteration(&claim, false, 89);
    trees.apply_all(&ops);
    // A producer re-enqueues the block as due at 100; iterating at 110
    // skips it and moves the durable entry to the counter's next try.
    let ops = m.put_to_resync_at(&h, 100);
    trees.apply_all(&ops);
    match m.begin_iteration(110) {
        ResyncIterStep::Skipped { ops } => {
            assert_eq!(ops.len(), 2);
            assert!(matches!(&ops[0], TreeOp::QueuePut { .. }));
            assert!(matches!(&ops[1], TreeOp::QueueDel { .. }));
            trees.apply_all(&ops);
        },
        _ => panic!("expected a skipped step"),
    }
    // The trees now hold exactly the entry at the next try.
    assert_eq!(trees.queue.len(), 1);
    let mut restored = manager();
    for key in trees.queue.keys() {
        assert!(restored.load_queue_entry(key));
    }
    assert!(restored.queue_contains(90 + 60_000, &h));
}

#[test]
fn loaders_reject_corrupt_entries() {
    let mut m = manager();
    assert!(!m.load_queue_entry(&vec![0u8; 39]));
    assert!(!m.load_queue_entry(&vec![0u8; 41]));
    assert!(!m.load_error_entry(&vec![0u8; 31], &vec![0u8; 16]));
    assert!(!m.load_error_entry(&vec![0u8; 32], &vec![0u8; 15]));
    // A counter with zero recorded failures cannot exist.
    assert!(!m.load_error_entry(&vec![0u8; 32], &vec![0u8; 16]));
    // A counter whose next try overflows the clock is rejected.
    let late = ErrorCounter { errors: 1, last_try: u64::MAX }.encode();
    assert!(!m.load_error_entry(&vec![0u8; 32], &late));
    assert_eq!(m.queue_len(), 0);
    assert_eq!(m.errors_len(), 0);
    // The well-formed forms load.
    let good = ErrorCounter { errors: 2, last_try: 90 }.encode();
    assert!(m.load_error_entry(&vec![0u8; 32], &good));
    assert_eq!(m.errors_len(), 1);
}
