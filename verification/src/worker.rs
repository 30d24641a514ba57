//! The worker-pool decisions.
//!
//! A fixed set of workers runs for the life of the process; a worker
//! whose index lies at or beyond the configured count parks until a
//! configuration change wakes it. An active worker asks the engine for
//! one iteration and then reports itself busy or idle: after real work
//! it paces itself through the throttle, after a skip it goes on at
//! once, and when the engine had nothing due it remembers how long to
//! wait. The host runs the loop, measures durations, sleeps and waits
//! on the notifier; the decisions are here.

use vstd::prelude::*;
use crate::engine::IDLE_POLL_DELAY_MS;
use crate::tranquilizer::{Tranquilizer, tranquil_sleep, window_push, MAX_TRANQUILIZER_SLEEP_MS};

verus! {

/// What a worker reports to its supervisor after one round.
#[derive(Clone, Copy, PartialEq, Eq, Structural, Debug)]
pub enum WorkerState {
    /// The worker did something and wants another round soon.
    Busy,
    /// The worker has nothing to do until a wakeup or its delay passes.
    Idle,
}

/// What one engine iteration came to, as the worker dispatches on it.
#[derive(Clone, Copy, PartialEq, Eq, Structural, Debug)]
pub enum ResyncIterResult {
    /// A block was resynced (well or badly) and recorded.
    DidWork,
    /// The least due entry was still backing off and was re-queued.
    Skipped,
    /// Nothing is due: wait this long or until something is enqueued.
    IdleFor { wait_ms: u64 },
}

/// One member of the worker pool: its fixed index, its throttle, and
/// the delay to wait out when idle.
pub struct ResyncWorker {
    index: usize,
    tranquilizer: Tranquilizer,
    next_delay_ms: u64,
}

impl ResyncWorker {
    /// The worker's fixed position in the pool, from 0 up.
    pub closed spec fn index_spec(&self) -> usize {
        self.index
    }

    /// The worker's fixed position in the pool, from 0 up.
    pub fn index(&self) -> (r: usize)
        ensures
            r == self.index_spec(),
    {
        self.index
    }

    /// The throttle's observed durations.
    pub closed spec fn observations(&self) -> Seq<u64> {
        self.tranquilizer@
    }

    /// The delay a host waits out when this worker reported idle.
    pub closed spec fn next_delay_spec(&self) -> u64 {
        self.next_delay_ms
    }

    /// A fresh worker at the given pool position.
    pub fn new(index: usize) -> (r: ResyncWorker)
        ensures
            r.index_spec() == index,
            r.observations() == Seq::<u64>::empty(),
            r.next_delay_spec() == IDLE_POLL_DELAY_MS,
    {
        ResyncWorker {
            index,
            tranquilizer: Tranquilizer::new(),
            next_delay_ms: IDLE_POLL_DELAY_MS,
        }
    }

    /// Whether this worker runs under the given configured count: the
    /// workers numbered below the count are active, the rest park.
    pub fn is_active(&self, n_workers: usize) -> (r: bool)
        ensures
            r == (self.index_spec() < n_workers),
    {
        self.index < n_workers
    }

    /// The delay to wait out now, when the last report was idle. The
    /// host waits on the earlier of this delay and the notifier.
    pub fn next_delay(&self) -> (r: u64)
        ensures
            r == self.next_delay_spec(),
    {
        self.next_delay_ms
    }

    /// Dispatches on one iteration's outcome: after `DidWork` the
    /// throttle takes the measured duration and asks for a pacing sleep
    /// and the worker reports busy; a `Skipped` reports busy at once;
    /// an `IdleFor` stores the delay and reports idle. The returned
    /// sleep is how long the host pauses before the next round.
    pub fn dispatch(&mut self, outcome: ResyncIterResult, work_ms: u64, tranquility: u32) -> (r: (
        WorkerState,
        u64,
    ))
        ensures
            final(self).index_spec() == old(self).index_spec(),
            outcome is DidWork ==> final(self).observations() == window_push(
                old(self).observations(),
                work_ms,
            ) && r.0 == WorkerState::Busy && r.1 as int == tranquil_sleep(
                final(self).observations(),
                tranquility,
            ) && r.1 <= MAX_TRANQUILIZER_SLEEP_MS && final(self).next_delay_spec() == old(
                self,
            ).next_delay_spec(),
            outcome is Skipped ==> r == (WorkerState::Busy, 0u64) && *final(self) == *old(self),
            outcome matches ResyncIterResult::IdleFor { wait_ms } ==> r == (
                WorkerState::Idle,
                0u64,
            ) && final(self).next_delay_spec() == wait_ms && final(self).observations() == old(
                self,
            ).observations(),
    {
        match outcome {
            ResyncIterResult::DidWork => {
                let sleep = self.tranquilizer.pace(work_ms, tranquility);
                (WorkerState::Busy, sleep)
            },
            ResyncIterResult::Skipped => (WorkerState::Busy, 0),
            ResyncIterResult::IdleFor { wait_ms } => {
                self.next_delay_ms = wait_ms;
                (WorkerState::Idle, 0)
            },
        }
    }
}

} // verus!
