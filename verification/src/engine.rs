//! The resync engine: one iteration of pick, dispatch and record.
//!
//! The manager owns the queue, the error store and the exclusion set.
//! One iteration begins by claiming the least due unclaimed entry
//! (`begin_iteration`); the host then performs the actual resync of the
//! claimed block — the decision procedure lives in the block state
//! machine — and finally reports how it went (`finish_iteration`), which
//! settles the queue and the error store and releases the claim.
//!
//! Both steps are specified as relations between the model of the state
//! before and after; the laws of the engine are proved from these
//! relations alone.

use vstd::prelude::*;
use crate::block_id::{BlockId, encode_queue_key, decode_queue_key};
use crate::busy::BusySet;
use crate::queue::{ResyncQueue, pair_lt};
use crate::err_store::ErrorStore;
use crate::counter::{
    ErrorCounter, counter_ok, counter_wf, next_try_of, counter_of_bytes, MAX_RETRY_DELAY_MS,
    lemma_backoff_schedule, lemma_pow2_values,
};
use crate::config::{PersistedConfig, config_wf, MAX_RESYNC_WORKERS};
use crate::durable::{TreeOp, is_queue_put, is_queue_del, is_errors_put, is_errors_del};
use crate::bytes::{lemma_lex_trans, lemma_lex_irrefl, be_val, lemma_be_val_bound,
    lemma_pow256_values};

verus! {

/// Workers poll again after this long when nothing is claimable.
pub const IDLE_POLL_DELAY_MS: u64 = 10_000;

/// The state of the engine, as mathematics: the pending entries, the
/// per-block error counters, and the claimed entries.
pub struct ResyncModel {
    pub queue: Set<(u64, Seq<u8>)>,
    pub errors: Map<Seq<u8>, ErrorCounter>,
    pub busy: Set<(u64, Seq<u8>)>,
}

/// A model the engine can be in: every queued id has the 32 bytes of a
/// block id and every stored counter is usable.
pub open spec fn model_wf(m: ResyncModel) -> bool {
    (forall|p: (u64, Seq<u8>)| #[trigger] m.queue.contains(p) ==> p.1.len() == 32) && (forall|
        k: Seq<u8>,
    |
        #[trigger] m.errors.dom().contains(k) ==> counter_ok(m.errors[k]))
}

/// A worker's claim on one queue entry, held from `begin_iteration` to
/// `finish_iteration`.
#[derive(Clone, Copy, Debug)]
pub struct BusyBlock {
    pub when: u64,
    pub id: BlockId,
}

/// What one call to `begin_iteration` decided.
pub enum ResyncIterStep {
    /// Nothing to do yet: wait this long (or for a new enqueue).
    IdleFor { wait_ms: u64 },
    /// The least entry is still backing off; it was pushed to its next
    /// try and nothing was resynced. The ops are the two tree writes,
    /// the insert of the later entry before the delete of the old one.
    Skipped { ops: Vec<TreeOp> },
    /// The claimed entry is due: resync the block, then report the
    /// outcome through `finish_iteration`.
    Run { claim: BusyBlock },
}

/// `(when, id)` is the least pending entry that no worker has claimed.
pub open spec fn is_first_claimable(m: ResyncModel, when: u64, id: Seq<u8>) -> bool {
    m.queue.contains((when, id)) && !m.busy.contains((when, id)) && (forall|p: (u64, Seq<u8>)|
        #[trigger] m.queue.contains(p) && !m.busy.contains(p) && p != (when, id) ==> pair_lt(
            (when, id),
            p,
        ))
}

/// Every pending entry is claimed by some worker.
pub open spec fn all_claimed(m: ResyncModel) -> bool {
    forall|p: (u64, Seq<u8>)| #[trigger] m.queue.contains(p) ==> m.busy.contains(p)
}

/// What `begin_iteration` may do: relates the state before, the clock,
/// the state after and the decision.
pub open spec fn begin_rel(m: ResyncModel, now: u64, m2: ResyncModel, r: ResyncIterStep) -> bool {
    match r {
        ResyncIterStep::IdleFor { wait_ms } => m2 == m && ((all_claimed(m) && wait_ms
            == IDLE_POLL_DELAY_MS) || (exists|p: (u64, Seq<u8>)|
            #[trigger] is_first_claimable(m, p.0, p.1) && p.0 > now && wait_ms == p.0 - now)),
        ResyncIterStep::Skipped { ops } => exists|p: (u64, Seq<u8>)|
            #[trigger] is_first_claimable(m, p.0, p.1) && p.0 <= now && m.errors.dom().contains(p.1)
                && next_try_of(m.errors[p.1]) > now && m2 == (ResyncModel {
                queue: m.queue.remove(p).insert(((next_try_of(m.errors[p.1]) as u64), p.1)),
                errors: m.errors,
                busy: m.busy,
            }) && ops@.len() == 2 && is_queue_put(ops@[0], (next_try_of(m.errors[p.1]) as u64), p.1)
                && is_queue_del(ops@[1], p.0, p.1),
        ResyncIterStep::Run { claim } => is_first_claimable(m, claim.when, claim.id@) && claim.when
            <= now && !(m.errors.dom().contains(claim.id@) && next_try_of(m.errors[claim.id@])
            > now) && m2 == (ResyncModel {
            queue: m.queue,
            errors: m.errors,
            busy: m.busy.insert((claim.when, claim.id@)),
        }),
    }
}

/// What `finish_iteration` does after a successful resync: the claimed
/// entry leaves the queue, the block's error counter leaves the store,
/// and the claim is released. The ops are the two tree deletes.
pub open spec fn finish_ok_rel(
    m: ResyncModel,
    when: u64,
    id: Seq<u8>,
    m2: ResyncModel,
    ops: Seq<TreeOp>,
) -> bool {
    m2.queue == m.queue.remove((when, id)) && m2.errors == m.errors.remove(id) && m2.busy == m.busy
        .remove((when, id)) && ops.len() == 2 && is_errors_del(ops[0], id) && is_queue_del(
        ops[1],
        when,
        id,
    )
}

/// The counter recorded when an attempt fails at `now`: one more error
/// on top of any existing counter, recorded at `now + 1` so that the
/// next try lies strictly after `now`.
pub open spec fn failure_counter(m: ResyncModel, id: Seq<u8>, now: u64) -> ErrorCounter {
    if m.errors.dom().contains(id) {
        ErrorCounter { errors: (m.errors[id].errors + 1) as u64, last_try: (now + 1) as u64 }
    } else {
        ErrorCounter { errors: 1, last_try: (now + 1) as u64 }
    }
}

/// What `finish_iteration` does after a failed resync: the new counter
/// is stored, the entry is re-queued at the counter's next try, and the
/// claim is released. The ops write the counter, insert the later
/// entry, and only then delete the old one: a crash between the two
/// queue writes leaves one extra no-op entry, never a lost block.
pub open spec fn finish_err_rel(
    m: ResyncModel,
    when: u64,
    id: Seq<u8>,
    now: u64,
    m2: ResyncModel,
    ops: Seq<TreeOp>,
) -> bool {
    let c = failure_counter(m, id, now);
    m2.errors == m.errors.insert(id, c) && m2.queue == m.queue.remove((when, id)).insert(
        ((next_try_of(c) as u64), id),
    ) && m2.busy == m.busy.remove((when, id)) && ops.len() == 3 && is_errors_put(ops[0], id, c)
        && is_queue_put(ops[1], (next_try_of(c) as u64), id) && is_queue_del(ops[2], when, id)
}

/// The durable and process-local state of the block resync engine.
pub struct BlockResyncManager {
    queue: ResyncQueue,
    errors: ErrorStore,
    busy: BusySet,
    persisted: PersistedConfig,
}

impl View for BlockResyncManager {
    type V = ResyncModel;

    closed spec fn view(&self) -> ResyncModel {
        ResyncModel { queue: self.queue@, errors: self.errors@, busy: self.busy@ }
    }
}

impl BlockResyncManager {
    /// Whether the manager's internals are consistent.
    pub closed spec fn wf(&self) -> bool {
        self.queue.wf() && self.errors.wf() && config_wf(self.persisted)
    }

    /// The published configuration snapshot.
    pub closed spec fn config_spec(&self) -> PersistedConfig {
        self.persisted
    }

    /// A manager with no pending work, no errors and no claims, running
    /// under the given configuration (the one loaded at start).
    pub fn new(persisted: PersistedConfig) -> (r: BlockResyncManager)
        requires
            config_wf(persisted),
        ensures
            r@.queue == Set::<(u64, Seq<u8>)>::empty(),
            r@.errors == Map::<Seq<u8>, ErrorCounter>::empty(),
            r@.busy == Set::<(u64, Seq<u8>)>::empty(),
            r.config_spec() == persisted,
            r.wf(),
    {
        BlockResyncManager {
            queue: ResyncQueue::new(),
            errors: ErrorStore::new(),
            busy: BusySet::new(),
            persisted,
        }
    }

    /// A manager in any consistent state is well formed as a model.
    pub proof fn lemma_model_wf(&self)
        requires
            self.wf(),
        ensures
            model_wf(self@),
    {
        self.queue.lemma_ids_len();
        self.errors.lemma_counters_ok();
    }

    /// The published configuration snapshot.
    pub fn config(&self) -> (r: PersistedConfig)
        ensures
            r == self.config_spec(),
    {
        self.persisted
    }

    /// How many entries wait in the resync queue.
    pub fn queue_len(&self) -> (r: usize)
        requires
            self.wf(),
        ensures
            self@.queue.finite(),
            r == self@.queue.len(),
    {
        self.queue.len()
    }

    /// How many blocks are in an error state.
    pub fn errors_len(&self) -> (r: usize)
        requires
            self.wf(),
        ensures
            self@.errors.dom().finite(),
            r == self@.errors.dom().len(),
    {
        self.errors.len()
    }

    /// Whether the entry `(when, id)` is pending.
    pub fn queue_contains(&self, when: u64, id: &BlockId) -> (r: bool)
        ensures
            r == self@.queue.contains((when, id@)),
    {
        self.queue.contains(when, id)
    }

    /// The error counter recorded for `id`, if any.
    pub fn error_of(&self, id: &BlockId) -> (r: Option<ErrorCounter>)
        requires
            self.wf(),
        ensures
            r is Some <==> self@.errors.dom().contains(id@),
            r matches Some(c) ==> c == self@.errors[id@],
    {
        self.errors.get(id)
    }

    /// Schedules `hash` for a resync `delay_ms` after `now`, and hands
    /// back the durable write for the host to apply. The host signals
    /// one worker after this returns.
    pub fn put_to_resync(&mut self, hash: &BlockId, delay_ms: u64, now: u64) -> (ops: Vec<TreeOp>)
        requires
            old(self).wf(),
            now + delay_ms <= u64::MAX,
        ensures
            final(self)@.queue == old(self)@.queue.insert(((now + delay_ms) as u64, hash@)),
            final(self)@.errors == old(self)@.errors,
            final(self)@.busy == old(self)@.busy,
            final(self).config_spec() == old(self).config_spec(),
            final(self).wf(),
            ops@.len() == 1,
            is_queue_put(ops@[0], (now + delay_ms) as u64, hash@),
    {
        let when = now + delay_ms;
        self.put_to_resync_at(hash, when)
    }

    /// Schedules `hash` for a resync at the absolute time `when_ms`,
    /// and hands back the durable write for the host to apply.
    /// Scheduling an entry that is already pending changes nothing
    /// (the durable write overwrites the key with the same value).
    pub fn put_to_resync_at(&mut self, hash: &BlockId, when_ms: u64) -> (ops: Vec<TreeOp>)
        requires
            old(self).wf(),
        ensures
            final(self)@.queue == old(self)@.queue.insert((when_ms, hash@)),
            final(self)@.errors == old(self)@.errors,
            final(self)@.busy == old(self)@.busy,
            final(self).config_spec() == old(self).config_spec(),
            final(self).wf(),
            ops@.len() == 1,
            is_queue_put(ops@[0], when_ms, hash@),
    {
        self.queue.insert(when_ms, hash);
        let key = encode_queue_key(when_ms, hash);
        let value = hash.to_bytes_vec();
        let mut ops: Vec<TreeOp> = Vec::new();
        ops.push(TreeOp::QueuePut { key, value });
        ops
    }

    /// Rebuilds one pending entry from its durable queue key, as the
    /// host reads the queue tree back at start; accepted exactly when
    /// the key has the 40 bytes of a queue key. Restoring writes
    /// nothing durable.
    pub fn load_queue_entry(&mut self, key: &Vec<u8>) -> (ok: bool)
        requires
            old(self).wf(),
        ensures
            final(self).wf(),
            final(self).config_spec() == old(self).config_spec(),
            ok <==> key@.len() == 40,
            ok ==> final(self)@.queue == old(self)@.queue.insert(
                ((be_val(key@.subrange(0, 8)) as u64), key@.subrange(8, 40)),
            ),
            !ok ==> final(self)@.queue == old(self)@.queue,
            final(self)@.errors == old(self)@.errors,
            final(self)@.busy == old(self)@.busy,
    {
        match decode_queue_key(key) {
            Some((when, id)) => {
                proof {
                    lemma_be_val_bound(key@.subrange(0, 8));
                    lemma_pow256_values();
                }
                self.queue.insert(when, &id);
                true
            },
            None => false,
        }
    }

    /// Rebuilds one error counter from its durable key and value, as
    /// the host reads the error tree back at start; accepted exactly
    /// when the key is a 32-byte id and the value a 16-byte counter
    /// with at least one recorded failure and a next try the clock can
    /// represent. Restoring writes nothing durable.
    pub fn load_error_entry(&mut self, key: &Vec<u8>, value: &Vec<u8>) -> (ok: bool)
        requires
            old(self).wf(),
        ensures
            final(self).wf(),
            final(self).config_spec() == old(self).config_spec(),
            ok <==> key@.len() == 32 && value@.len() == 16 && counter_ok(counter_of_bytes(value@)),
            ok ==> final(self)@.errors == old(self)@.errors.insert(
                key@,
                counter_of_bytes(value@),
            ),
            !ok ==> final(self)@.errors == old(self)@.errors,
            final(self)@.queue == old(self)@.queue,
            final(self)@.busy == old(self)@.busy,
    {
        if key.len() != 32 || value.len() != 16 {
            return false;
        }
        let mut arr: [u8; 32] = [0u8; 32];
        let mut i: usize = 0;
        while i < 32
            invariant
                0 <= i <= 32,
                key@.len() == 32,
                arr@.subrange(0, i as int) == key@.subrange(0, i as int),
                arr@.len() == 32,
            decreases 32 - i,
        {
            arr[i] = key[i];
            proof {
                assert(arr@.subrange(0, i + 1) =~= key@.subrange(0, i + 1));
            }
            i = i + 1;
        }
        proof {
            assert(arr@ =~= arr@.subrange(0, 32));
            assert(key@ =~= key@.subrange(0, 32));
        }
        let id = BlockId::from_bytes(arr);
        let c = ErrorCounter::decode(value);
        proof {
            lemma_be_val_bound(value@.subrange(0, 8));
            lemma_be_val_bound(value@.subrange(8, 16));
            lemma_pow256_values();
            assert(c == counter_of_bytes(value@));
        }
        if c.errors == 0 {
            return false;
        }
        let d = c.delay_msec();
        if c.last_try > u64::MAX - d {
            return false;
        }
        self.errors.put(&id, c);
        true
    }

    /// Picks the least due unclaimed entry and decides the step: idle
    /// when nothing is claimable or the least entry is not due yet, skip
    /// (re-queue at the counter's next try) when the block is still
    /// backing off, and otherwise claim the entry for a resync run.
    pub fn begin_iteration(&mut self, now: u64) -> (r: ResyncIterStep)
        requires
            old(self).wf(),
        ensures
            final(self).wf(),
            final(self).config_spec() == old(self).config_spec(),
            begin_rel(old(self)@, now, final(self)@, r),
    {
        let first = self.queue.first_claimable(&self.busy);
        match first {
            None => {
                ResyncIterStep::IdleFor { wait_ms: IDLE_POLL_DELAY_MS }
            },
            Some((when, id)) => {
                proof {
                    assert(is_first_claimable(self@, when, id@));
                }
                if when > now {
                    proof {
                        let w: (u64, Seq<u8>) = (when, id@);
                        assert(is_first_claimable(old(self)@, w.0, w.1));
                        assert(w.0 > now && (when - now) as u64 == w.0 - now);
                    }
                    return ResyncIterStep::IdleFor { wait_ms: when - now };
                }
                let counter = self.errors.get(&id);
                match counter {
                    Some(ec) => {
                        let nt = ec.next_try();
                        if nt > now {
                            // Insert the replacement entry before removing
                            // the old one: a crash in between leaves one
                            // extra no-op entry, never a lost block.
                            self.queue.insert(nt, &id);
                            self.queue.remove(when, &id);
                            let new_key = encode_queue_key(nt, &id);
                            let old_key = encode_queue_key(when, &id);
                            let value = id.to_bytes_vec();
                            let mut ops: Vec<TreeOp> = Vec::new();
                            ops.push(TreeOp::QueuePut { key: new_key, value });
                            ops.push(TreeOp::QueueDel { key: old_key });
                            proof {
                                let m0 = old(self)@;
                                let w: (u64, Seq<u8>) = (when, id@);
                                assert(is_first_claimable(m0, w.0, w.1));
                                assert(self@.queue =~= m0.queue.remove(w).insert(
                                    ((next_try_of(m0.errors[w.1]) as u64), w.1),
                                ));
                                assert(self@ == (ResyncModel {
                                    queue: m0.queue.remove(w).insert(
                                        ((next_try_of(m0.errors[w.1]) as u64), w.1),
                                    ),
                                    errors: m0.errors,
                                    busy: m0.busy,
                                }));
                                assert(is_queue_put(ops@[0], (next_try_of(m0.errors[w.1]) as u64), w.1));
                                assert(is_queue_del(ops@[1], w.0, w.1));
                            }
                            return ResyncIterStep::Skipped { ops };
                        }
                        let claimed = self.busy.try_claim(when, &id);
                        assert(claimed);
                        ResyncIterStep::Run { claim: BusyBlock { when, id } }
                    },
                    None => {
                        let claimed = self.busy.try_claim(when, &id);
                        assert(claimed);
                        ResyncIterStep::Run { claim: BusyBlock { when, id } }
                    },
                }
            },
        }
    }

    /// Records the outcome of the resync of the block claimed by
    /// `claim`, at the clock reading `now`. On success the entry and the
    /// block's error counter are dropped; on failure the counter grows
    /// and the entry moves to the counter's next try. Either way the
    /// claim is released.
    pub fn finish_iteration(&mut self, claim: &BusyBlock, success: bool, now: u64) -> (ops: Vec<
        TreeOp,
    >)
        requires
            old(self).wf(),
            now <= u64::MAX - MAX_RETRY_DELAY_MS - 1,
            old(self)@.errors.dom().contains(claim.id@) ==> old(self)@.errors[claim.id@].errors
                < u64::MAX,
        ensures
            final(self).wf(),
            final(self).config_spec() == old(self).config_spec(),
            success ==> finish_ok_rel(old(self)@, claim.when, claim.id@, final(self)@, ops@),
            !success ==> finish_err_rel(old(self)@, claim.when, claim.id@, now, final(self)@, ops@),
    {
        if success {
            self.errors.delete(&claim.id);
            self.queue.remove(claim.when, &claim.id);
            self.busy.release(claim.when, &claim.id);
            let mut ops: Vec<TreeOp> = Vec::new();
            ops.push(TreeOp::ErrorsDel { key: claim.id.to_bytes_vec() });
            ops.push(TreeOp::QueueDel { key: encode_queue_key(claim.when, &claim.id) });
            ops
        } else {
            let ec = match self.errors.get(&claim.id) {
                Some(c) => c.add1(now + 1),
                None => ErrorCounter::new(now + 1),
            };
            proof {
                lemma_backoff_schedule(ec.errors);
                assert(ec == failure_counter(old(self)@, claim.id@, now));
            }
            self.errors.put(&claim.id, ec);
            let nt = ec.next_try();
            // Insert before remove, as in the backoff skip above; the
            // returned ops keep the same order for the durable trees.
            self.queue.insert(nt, &claim.id);
            if nt != claim.when {
                self.queue.remove(claim.when, &claim.id);
            }
            proof {
                assert(self@.queue =~= old(self)@.queue.remove((claim.when, claim.id@)).insert(
                    ((next_try_of(failure_counter(old(self)@, claim.id@, now)) as u64), claim.id@),
                ));
            }
            self.busy.release(claim.when, &claim.id);
            let mut ops: Vec<TreeOp> = Vec::new();
            ops.push(TreeOp::ErrorsPut { key: claim.id.to_bytes_vec(), value: ec.encode() });
            ops.push(TreeOp::QueuePut {
                key: encode_queue_key(nt, &claim.id),
                value: claim.id.to_bytes_vec(),
            });
            ops.push(TreeOp::QueueDel { key: encode_queue_key(claim.when, &claim.id) });
            ops
        }
    }

    /// Releases the claim without recording an outcome, for a host
    /// whose resync run ended without one (it panicked or was torn
    /// down): the claim is released however the iteration ends. Queue
    /// and errors stay as they are; the entry becomes claimable again.
    pub fn abort_iteration(&mut self, claim: &BusyBlock)
        requires
            old(self).wf(),
        ensures
            final(self).wf(),
            final(self).config_spec() == old(self).config_spec(),
            final(self)@.queue == old(self)@.queue,
            final(self)@.errors == old(self)@.errors,
            final(self)@.busy == old(self)@.busy.remove((claim.when, claim.id@)),
    {
        self.busy.release(claim.when, &claim.id);
    }

    /// Validates a new worker count; accepted exactly when the count
    /// lies between 1 and the pool cap. The snapshot does not change
    /// here: the host persists the returned candidate durably first,
    /// then publishes it through `publish_config` and wakes all
    /// workers. A rejected count surfaces as the error, with nothing
    /// persisted and nothing changed.
    pub fn set_n_workers(&self, n_workers: usize) -> (r: Result<PersistedConfig, ConfigError>)
        requires
            self.wf(),
        ensures
            r is Ok <==> 1 <= n_workers <= MAX_RESYNC_WORKERS,
            r matches Ok(c) ==> c == (PersistedConfig {
                n_workers,
                tranquility: self.config_spec().tranquility,
            }) && config_wf(c),
    {
        if n_workers < 1 || n_workers > MAX_RESYNC_WORKERS {
            return Err(ConfigError::InvalidWorkerCount);
        }
        Ok(PersistedConfig { n_workers, tranquility: self.persisted.tranquility })
    }

    /// The candidate configuration with a new pacing ratio; every value
    /// is accepted. As with the worker count, the host persists the
    /// candidate durably and then publishes it through
    /// `publish_config`.
    pub fn set_tranquility(&self, tranquility: u32) -> (r: PersistedConfig)
        requires
            self.wf(),
        ensures
            r == (PersistedConfig { n_workers: self.config_spec().n_workers, tranquility }),
            config_wf(r),
    {
        PersistedConfig { n_workers: self.persisted.n_workers, tranquility }
    }

    /// Publishes a candidate configuration after its durable save;
    /// `saved` is the save's outcome. Only a saved candidate becomes
    /// the snapshot: on a failed save the snapshot stays unchanged, and
    /// the host surfaces the error and wakes nobody.
    pub fn publish_config(&mut self, config: PersistedConfig, saved: bool)
        requires
            old(self).wf(),
            config_wf(config),
        ensures
            final(self).wf(),
            final(self)@ == old(self)@,
            saved ==> final(self).config_spec() == config,
            !saved ==> final(self).config_spec() == old(self).config_spec(),
    {
        if saved {
            self.persisted = config;
        }
    }
}

/// Rejected engine controls.
#[derive(Clone, Copy, PartialEq, Eq, Structural, Debug)]
pub enum ConfigError {
    /// The requested worker count lies outside `1..=MAX_RESYNC_WORKERS`.
    InvalidWorkerCount,
}

/// Two pairs are never each below the other.
pub proof fn lemma_pair_asym(a: (u64, Seq<u8>), b: (u64, Seq<u8>))
    requires
        a.1.len() == b.1.len(),
    ensures
        !(pair_lt(a, b) && pair_lt(b, a)),
{
    if pair_lt(a, b) && pair_lt(b, a) && a.0 == b.0 {
        lemma_lex_trans(a.1, b.1, a.1);
        lemma_lex_irrefl(a.1);
    }
}

/// The least claimable entry is unique.
pub proof fn lemma_first_claimable_unique(
    m: ResyncModel,
    t1: u64,
    h1: Seq<u8>,
    t2: u64,
    h2: Seq<u8>,
)
    requires
        model_wf(m),
        is_first_claimable(m, t1, h1),
        is_first_claimable(m, t2, h2),
    ensures
        t1 == t2,
        h1 == h2,
{
    if (t1, h1) != (t2, h2) {
        assert(pair_lt((t1, h1), (t2, h2)));
        assert(pair_lt((t2, h2), (t1, h1)));
        lemma_pair_asym((t1, h1), (t2, h2));
    }
}

/// Exclusion: two claims made in a row, neither released in between,
/// never cover the same queue entry — the second claim is taken from a
/// state in which the first is still held.
pub proof fn lemma_claims_are_exclusive(
    m0: ResyncModel,
    now1: u64,
    m1: ResyncModel,
    c1: BusyBlock,
    now2: u64,
    m2: ResyncModel,
    c2: BusyBlock,
)
    requires
        begin_rel(m0, now1, m1, ResyncIterStep::Run { claim: c1 }),
        begin_rel(m1, now2, m2, ResyncIterStep::Run { claim: c2 }),
    ensures
        !(c1.when == c2.when && c1.id@ == c2.id@),
{
    assert(m1.busy.contains((c1.when, c1.id@)));
    assert(!m1.busy.contains((c2.when, c2.id@)));
}

/// After a successful iteration on a block, the claimed entry is gone
/// from the queue and no error counter remains for the block; when the
/// claimed entry was the block's only entry, nothing for the block
/// remains in the queue at all.
pub proof fn lemma_success_clears(
    m: ResyncModel,
    when: u64,
    id: Seq<u8>,
    m2: ResyncModel,
    ops: Seq<TreeOp>,
)
    requires
        finish_ok_rel(m, when, id, m2, ops),
    ensures
        !m2.queue.contains((when, id)),
        !m2.errors.dom().contains(id),
        (forall|p: (u64, Seq<u8>)| #[trigger] m.queue.contains(p) && p.1 == id ==> p == (when, id))
            ==> (forall|p: (u64, Seq<u8>)| #[trigger] m2.queue.contains(p) ==> p.1 != id),
{
}

/// After a failed iteration on a block at time `now`, the store holds a
/// counter with at least one error recorded at `now + 1`, and the queue
/// holds the block's entry at exactly the counter's next try; when the
/// claimed entry was the block's only entry, that is the block's only
/// entry afterwards.
pub proof fn lemma_failure_schedules_retry(
    m: ResyncModel,
    when: u64,
    id: Seq<u8>,
    now: u64,
    m2: ResyncModel,
    ops: Seq<TreeOp>,
)
    requires
        model_wf(m),
        finish_err_rel(m, when, id, now, m2, ops),
        now <= u64::MAX - MAX_RETRY_DELAY_MS - 1,
        m.errors.dom().contains(id) ==> m.errors[id].errors < u64::MAX,
    ensures
        m2.errors.dom().contains(id),
        counter_wf(m2.errors[id]),
        m2.errors[id].errors >= 1,
        m2.errors[id].last_try == now + 1,
        next_try_of(m2.errors[id]) > now,
        m2.queue.contains(((next_try_of(m2.errors[id]) as u64), id)),
        (forall|p: (u64, Seq<u8>)| #[trigger] m.queue.contains(p) && p.1 == id ==> p == (when, id))
            ==> (forall|p: (u64, Seq<u8>)|
            #[trigger] m2.queue.contains(p) && p.1 == id ==> p == (
                (next_try_of(m2.errors[id]) as u64),
                id,
            )),
{
    let c = failure_counter(m, id, now);
    lemma_backoff_schedule(c.errors);
}

/// An entry that is not due yet only idles: beginning an iteration when
/// the least claimable entry lies in the future waits exactly until that
/// entry is due and changes nothing.
pub proof fn lemma_not_due_idles(
    m: ResyncModel,
    now: u64,
    m2: ResyncModel,
    r: ResyncIterStep,
    when: u64,
    id: Seq<u8>,
)
    requires
        model_wf(m),
        begin_rel(m, now, m2, r),
        is_first_claimable(m, when, id),
        now < when,
    ensures
        m2 == m,
        r == (ResyncIterStep::IdleFor { wait_ms: (when - now) as u64 }),
{
    match r {
        ResyncIterStep::IdleFor { wait_ms } => {
            if all_claimed(m) {
                assert(m.busy.contains((when, id)));
                assert(false);
            }
            let p = choose|p: (u64, Seq<u8>)|
                #[trigger] is_first_claimable(m, p.0, p.1) && p.0 > now && wait_ms == p.0 - now;
            lemma_first_claimable_unique(m, p.0, p.1, when, id);
        },
        ResyncIterStep::Skipped { ops } => {
            let p = choose|p: (u64, Seq<u8>)|
                #[trigger] is_first_claimable(m, p.0, p.1) && p.0 <= now
                    && m.errors.dom().contains(p.1) && next_try_of(m.errors[p.1]) > now;
            lemma_first_claimable_unique(m, p.0, p.1, when, id);
        },
        ResyncIterStep::Run { claim } => {
            lemma_first_claimable_unique(m, claim.when, claim.id@, when, id);
        },
    }
}

/// A due entry with a clean record runs and, on success, is cleaned up:
/// beginning an iteration that claims the entry and finishing it
/// successfully removes exactly that entry, leaves no error counter for
/// the block, and releases the claim.
pub proof fn lemma_due_run_success_cleans(
    m0: ResyncModel,
    now: u64,
    m1: ResyncModel,
    claim: BusyBlock,
    m2: ResyncModel,
    ops: Seq<TreeOp>,
)
    requires
        begin_rel(m0, now, m1, ResyncIterStep::Run { claim }),
        finish_ok_rel(m1, claim.when, claim.id@, m2, ops),
    ensures
        claim.when <= now,
        m2.queue == m0.queue.remove((claim.when, claim.id@)),
        m2.errors == m0.errors.remove(claim.id@),
        m2.busy == m0.busy,
        !m2.queue.contains((claim.when, claim.id@)),
        !m2.errors.dom().contains(claim.id@),
{
    assert(m2.busy =~= m0.busy);
}

/// Two failing iterations on the same block, the first finishing at
/// `t1`, the second at `t2`, leave a counter of two errors recorded at
/// `t2 + 1`, with the next try two minutes later, and the block queued
/// at exactly that time.
pub proof fn lemma_two_failures_requeue(
    m0: ResyncModel,
    when1: u64,
    id: Seq<u8>,
    t1: u64,
    m1: ResyncModel,
    when2: u64,
    t2: u64,
    m2: ResyncModel,
    ops1: Seq<TreeOp>,
    ops2: Seq<TreeOp>,
)
    requires
        !m0.errors.dom().contains(id),
        finish_err_rel(m0, when1, id, t1, m1, ops1),
        finish_err_rel(m1, when2, id, t2, m2, ops2),
        t1 <= u64::MAX - MAX_RETRY_DELAY_MS - 1,
        t2 <= u64::MAX - MAX_RETRY_DELAY_MS - 1,
    ensures
        m2.errors.dom().contains(id),
        m2.errors[id].errors == 2,
        m2.errors[id].last_try == t2 + 1,
        next_try_of(m2.errors[id]) == t2 + 1 + 120_000,
        m2.queue.contains(((t2 + 1 + 120_000) as u64, id)),
{
    lemma_pow2_values();
}

} // verus!
