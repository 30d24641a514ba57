//! Per-block failure accounting with exponential backoff.
//!
//! A counter exists for a block exactly while its last resync attempt
//! failed. It records how many consecutive attempts failed and when the
//! last one was recorded, and derives from them when the next attempt is
//! allowed: one minute after the first failure, doubling with each
//! further failure up to about an hour.

use vstd::prelude::*;
use vstd::math::min;
use crate::bytes::{
    u64_be, be_val, u64_to_be_bytes, u64_from_be_bytes, lemma_be_val_of_be_seq,
    lemma_pow256_values,
};

verus! {

/// The first retry comes this many milliseconds after the first failure.
pub const BASE_RETRY_DELAY_MS: u64 = 60_000;

/// The delay doubles with each consecutive failure, at most this many times.
pub const MAX_BACKOFF_POWER: u64 = 6;

/// The largest delay the backoff schedule reaches: one minute doubled
/// `MAX_BACKOFF_POWER` times, about an hour.
pub const MAX_RETRY_DELAY_MS: u64 = 3_840_000;

/// 2 to the power `k` (1 for `k <= 0`).
pub open spec fn pow2(k: int) -> int
    decreases k,
{
    if k <= 0 {
        1
    } else {
        2 * pow2(k - 1)
    }
}

/// Counts consecutive resync failures for one block and the time the
/// last failure was recorded, in milliseconds since the Unix epoch.
#[derive(Clone, Copy, PartialEq, Eq, Structural, Debug)]
pub struct ErrorCounter {
    pub errors: u64,
    pub last_try: u64,
}

/// A counter is well formed when it has recorded at least one failure.
pub open spec fn counter_wf(c: ErrorCounter) -> bool {
    c.errors >= 1
}

/// The backoff delay in milliseconds after `errors` consecutive failures:
/// one minute, doubled for each failure beyond the first, capped at
/// `2^MAX_BACKOFF_POWER` minutes.
pub open spec fn delay_ms_of(errors: u64) -> int {
    BASE_RETRY_DELAY_MS * pow2(min(errors - 1, MAX_BACKOFF_POWER as int))
}

/// The earliest time a block with counter `c` may be retried.
pub open spec fn next_try_of(c: ErrorCounter) -> int {
    c.last_try + delay_ms_of(c.errors)
}

/// A counter the store may hold: well formed, with a next try that the
/// clock can represent.
pub open spec fn counter_ok(c: ErrorCounter) -> bool {
    counter_wf(c) && next_try_of(c) <= u64::MAX
}

/// The 16-byte value stored for a counter in the error tree:
/// big-endian `errors` followed by big-endian `last_try`.
pub open spec fn counter_bytes(c: ErrorCounter) -> Seq<u8> {
    u64_be(c.errors) + u64_be(c.last_try)
}

/// The counter a 16-byte error-tree value denotes.
pub open spec fn counter_of_bytes(value: Seq<u8>) -> ErrorCounter {
    ErrorCounter {
        errors: be_val(value.subrange(0, 8)) as u64,
        last_try: be_val(value.subrange(8, 16)) as u64,
    }
}

/// The concrete powers of two up to the backoff cap.
pub proof fn lemma_pow2_values()
    ensures
        pow2(0) == 1,
        pow2(1) == 2,
        pow2(2) == 4,
        pow2(3) == 8,
        pow2(4) == 16,
        pow2(5) == 32,
        pow2(6) == 64,
{
    assert(pow2(0) == 1);
    assert(pow2(1) == 2);
    assert(pow2(2) == 4);
    assert(pow2(3) == 8);
    assert(pow2(4) == 16);
    assert(pow2(5) == 32);
    assert(pow2(6) == 64);
}

/// The backoff schedule: the delay after one failure is one minute, it
/// doubles with each further failure until the seventh, and from then on
/// it stays at the cap. Every delay lies between the base and the cap.
pub proof fn lemma_backoff_schedule(n: u64)
    requires
        n >= 1,
    ensures
        delay_ms_of(1) == BASE_RETRY_DELAY_MS,
        1 <= n <= MAX_BACKOFF_POWER ==> delay_ms_of((n + 1) as u64) == 2 * delay_ms_of(n),
        n > MAX_BACKOFF_POWER ==> delay_ms_of(n) == MAX_RETRY_DELAY_MS,
        BASE_RETRY_DELAY_MS <= delay_ms_of(n) <= MAX_RETRY_DELAY_MS,
{
    lemma_pow2_values();
    lemma_pow2_mono(0, min(n - 1, MAX_BACKOFF_POWER as int));
    lemma_pow2_mono(min(n - 1, MAX_BACKOFF_POWER as int), MAX_BACKOFF_POWER as int);
}

/// Higher exponents never shrink the power.
pub proof fn lemma_pow2_mono(j: int, k: int)
    requires
        j <= k,
    ensures
        pow2(j) <= pow2(k),
    decreases k - j,
{
    if j < k {
        lemma_pow2_mono(j, k - 1);
        lemma_pow2_pos(k - 1);
    }
}

pub proof fn lemma_pow2_pos(k: int)
    ensures
        pow2(k) >= 1,
    decreases k,
{
    if k > 0 {
        lemma_pow2_pos(k - 1);
    }
}

/// Encoding round-trips: reading the two big-endian fields back out of
/// `counter_bytes(c)` yields exactly the fields of `c`, for every
/// counter. Together with the contracts of `encode` and `decode` this
/// says `decode(encode(c)) == c`.
pub proof fn lemma_counter_encoding_round_trip(c: ErrorCounter)
    ensures
        counter_bytes(c).len() == 16,
        be_val(counter_bytes(c).subrange(0, 8)) == c.errors,
        be_val(counter_bytes(c).subrange(8, 16)) == c.last_try,
        counter_of_bytes(counter_bytes(c)) == c,
{
    lemma_pow256_values();
    assert(counter_bytes(c).subrange(0, 8) =~= u64_be(c.errors));
    assert(counter_bytes(c).subrange(8, 16) =~= u64_be(c.last_try));
    lemma_be_val_of_be_seq(c.errors as int, 8);
    lemma_be_val_of_be_seq(c.last_try as int, 8);
}

impl ErrorCounter {
    /// The counter written on a block's first failure, recorded at `now`.
    pub fn new(now: u64) -> (r: ErrorCounter)
        ensures
            r == (ErrorCounter { errors: 1, last_try: now }),
            counter_wf(r),
    {
        ErrorCounter { errors: 1, last_try: now }
    }

    /// The counter after one more failure, recorded at `now`.
    pub fn add1(self, now: u64) -> (r: ErrorCounter)
        requires
            self.errors < u64::MAX,
        ensures
            r == (ErrorCounter { errors: (self.errors + 1) as u64, last_try: now }),
            counter_wf(r),
    {
        ErrorCounter { errors: self.errors + 1, last_try: now }
    }

    /// The 16-byte big-endian encoding stored in the error tree.
    pub fn encode(&self) -> (r: Vec<u8>)
        ensures
            r@ == counter_bytes(*self),
            r@.len() == 16,
    {
        let mut r = u64_to_be_bytes(self.errors);
        let mut tail = u64_to_be_bytes(self.last_try);
        r.append(&mut tail);
        r
    }

    /// Reads a counter back from its 16-byte encoding.
    pub fn decode(data: &Vec<u8>) -> (r: ErrorCounter)
        requires
            data@.len() == 16,
        ensures
            r.errors as int == be_val(data@.subrange(0, 8)),
            r.last_try as int == be_val(data@.subrange(8, 16)),
    {
        let errors = u64_from_be_bytes(data, 0);
        let last_try = u64_from_be_bytes(data, 8);
        ErrorCounter { errors, last_try }
    }

    /// The backoff delay this counter imposes, in milliseconds.
    pub fn delay_msec(&self) -> (r: u64)
        requires
            counter_wf(*self),
        ensures
            r as int == delay_ms_of(self.errors),
            BASE_RETRY_DELAY_MS <= r <= MAX_RETRY_DELAY_MS,
    {
        proof {
            lemma_pow2_values();
        }
        let power = if self.errors - 1 < MAX_BACKOFF_POWER {
            self.errors - 1
        } else {
            MAX_BACKOFF_POWER
        };
        if power == 0 {
            60_000
        } else if power == 1 {
            120_000
        } else if power == 2 {
            240_000
        } else if power == 3 {
            480_000
        } else if power == 4 {
            960_000
        } else if power == 5 {
            1_920_000
        } else {
            3_840_000
        }
    }

    /// The earliest time this block may be retried.
    pub fn next_try(&self) -> (r: u64)
        requires
            counter_wf(*self),
            next_try_of(*self) <= u64::MAX,
        ensures
            r as int == next_try_of(*self),
    {
        self.last_try + self.delay_msec()
    }
}

} // verus!
