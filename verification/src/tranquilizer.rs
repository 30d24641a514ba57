//! The adaptive throttle that keeps a work/rest ratio.
//!
//! A worker reports the duration of each piece of work; the throttle
//! averages the most recent durations and asks the worker to sleep
//! `tranquility` times that average, so that over time the ratio of
//! active to idle time approaches `1 : tranquility`. A tranquility of
//! zero never sleeps, and no sleep exceeds a fixed cap, so a pathological
//! duration sample cannot stall a worker.

use vstd::prelude::*;
use vstd::arithmetic::mul::lemma_mul_inequality;
use vstd::arithmetic::div_mod::{lemma_div_is_ordered, lemma_multiply_divide_le};

verus! {

/// How many recent work durations the throttle averages over.
pub const TRANQUILIZER_WINDOW: usize = 30;

/// No pacing sleep exceeds this many milliseconds.
pub const MAX_TRANQUILIZER_SLEEP_MS: u64 = 30_000;

/// The sum of a list of durations.
pub open spec fn sum_of(s: Seq<u64>) -> int
    decreases s.len(),
{
    if s.len() == 0 {
        0
    } else {
        sum_of(s.drop_last()) + s.last()
    }
}

/// The sleep the throttle asks for: `tranquility` times the mean of the
/// observed durations, capped. Zero without observations or with a
/// tranquility of zero.
pub open spec fn tranquil_sleep(obs: Seq<u64>, tranquility: u32) -> int {
    if obs.len() == 0 || tranquility == 0 {
        0
    } else {
        let target = tranquility * (sum_of(obs) / obs.len() as int);
        if target > MAX_TRANQUILIZER_SLEEP_MS {
            MAX_TRANQUILIZER_SLEEP_MS as int
        } else {
            target
        }
    }
}

/// The window after recording one more duration: the new one last, the
/// oldest dropped once the window is full.
pub open spec fn window_push(obs: Seq<u64>, work_ms: u64) -> Seq<u64> {
    if obs.len() < TRANQUILIZER_WINDOW {
        obs.push(work_ms)
    } else {
        obs.push(work_ms).skip(1)
    }
}

/// Sums never go negative.
pub proof fn lemma_sum_nonneg(s: Seq<u64>)
    ensures
        sum_of(s) >= 0,
    decreases s.len(),
{
    if s.len() > 0 {
        lemma_sum_nonneg(s.drop_last());
    }
}

/// More tranquility never means less sleep: the requested sleep is
/// monotone in the tranquility parameter, and always within the cap.
pub proof fn lemma_tranquility_monotone(obs: Seq<u64>, t1: u32, t2: u32)
    requires
        t1 <= t2,
    ensures
        tranquil_sleep(obs, t1) <= tranquil_sleep(obs, t2),
        0 <= tranquil_sleep(obs, t2) <= MAX_TRANQUILIZER_SLEEP_MS,
{
    if obs.len() > 0 {
        lemma_sum_nonneg(obs);
        let mean = sum_of(obs) / obs.len() as int;
        lemma_div_is_ordered(0, sum_of(obs), obs.len() as int);
        lemma_mul_inequality(t1 as int, t2 as int, mean);
        if t2 > 0 {
            lemma_mul_inequality(1, t2 as int, mean);
        }
    }
}

/// The adaptive throttle: the most recent work durations, newest last.
pub struct Tranquilizer {
    observations: Vec<u64>,
}

impl View for Tranquilizer {
    type V = Seq<u64>;

    closed spec fn view(&self) -> Seq<u64> {
        self.observations@
    }
}

impl Tranquilizer {
    /// A throttle with nothing observed yet.
    pub fn new() -> (r: Tranquilizer)
        ensures
            r@ == Seq::<u64>::empty(),
    {
        let r = Tranquilizer { observations: Vec::new() };
        proof {
            assert(r@ =~= Seq::<u64>::empty());
        }
        r
    }

    /// Records the duration of one piece of work, dropping the oldest
    /// observation once the window is full.
    pub fn observe(&mut self, work_ms: u64)
        ensures
            final(self)@ == window_push(old(self)@, work_ms),
            old(self)@.len() <= TRANQUILIZER_WINDOW ==> final(self)@.len() <= TRANQUILIZER_WINDOW,
    {
        if self.observations.len() >= TRANQUILIZER_WINDOW {
            self.observations.remove(0);
            proof {
                assert(self.observations@ =~= old(self)@.push(work_ms).skip(1).drop_last());
            }
        }
        self.observations.push(work_ms);
        proof {
            if old(self)@.len() >= TRANQUILIZER_WINDOW {
                assert(self@ =~= old(self)@.push(work_ms).skip(1));
            }
        }
    }

    /// How long to sleep now to keep the `1 : tranquility` ratio.
    pub fn sleep_for(&self, tranquility: u32) -> (r: u64)
        ensures
            r as int == tranquil_sleep(self@, tranquility),
            r <= MAX_TRANQUILIZER_SLEEP_MS,
    {
        proof {
            lemma_tranquility_monotone(self@, tranquility, tranquility);
        }
        if tranquility == 0 || self.observations.is_empty() {
            return 0;
        }
        let n = self.observations.len();
        let mut sum: u128 = 0;
        let mut i: usize = 0;
        proof {
            assert(self@.subrange(0, 0) =~= Seq::<u64>::empty());
        }
        while i < n
            invariant
                0 <= i <= n == self@.len(),
                sum as int == sum_of(self@.subrange(0, i as int)),
                sum as int <= i * (u64::MAX as int),
            decreases n - i,
        {
            let x = self.observations[i];
            proof {
                assert(self@.subrange(0, i as int + 1).drop_last() =~= self@.subrange(0, i as int));
                assert(self@.subrange(0, i as int + 1).last() == self@[i as int]);
                lemma_mul_inequality(i as int + 1, u64::MAX as int, u64::MAX as int);
            }
            sum = sum + (x as u128);
            i = i + 1;
        }
        proof {
            assert(self@.subrange(0, n as int) =~= self@);
            lemma_sum_nonneg(self@);
            lemma_multiply_divide_le(sum as int, n as int, u64::MAX as int);
        }
        let mean: u128 = sum / (n as u128);
        proof {
            lemma_mul_inequality(mean as int, u64::MAX as int, tranquility as int);
            lemma_mul_inequality(tranquility as int, u32::MAX as int, u64::MAX as int);
            lemma_mul_inequality(0, mean as int, tranquility as int);
        }
        let target: u128 = mean * (tranquility as u128);
        proof {
            assert(mean as int == sum_of(self@) / self@.len() as int);
            assert(forall|x: int, y: int| #[trigger] (x * y) == y * x) by (nonlinear_arith);
            assert(target as int == tranquility * (sum_of(self@) / self@.len() as int));
        }
        if target > (MAX_TRANQUILIZER_SLEEP_MS as u128) {
            MAX_TRANQUILIZER_SLEEP_MS
        } else {
            target as u64
        }
    }

    /// Records the duration of one piece of work and returns how long
    /// to sleep before the next one: zero means go on at once (the
    /// worker is busy), anything else means rest first.
    pub fn pace(&mut self, work_ms: u64, tranquility: u32) -> (r: u64)
        ensures
            final(self)@ == window_push(old(self)@, work_ms),
            r as int == tranquil_sleep(final(self)@, tranquility),
            r <= MAX_TRANQUILIZER_SLEEP_MS,
    {
        self.observe(work_ms);
        self.sleep_for(tranquility)
    }
}

} // verus!
