//! Durable worker-pool sizing and pacing parameters.
//!
//! The configuration survives restarts. A host loads the persisted bytes
//! at start (or takes the default on a fresh node), and persists the
//! bytes again after each change before publishing the new snapshot.

use vstd::prelude::*;
use crate::bytes::{u64_be, be_val, u64_to_be_bytes, u64_from_be_bytes, lemma_be_val_of_be_seq,
    lemma_pow256_values};

verus! {

/// No more than this many resync workers can run.
pub const MAX_RESYNC_WORKERS: usize = 4;

/// The tranquility a fresh node starts with.
pub const INITIAL_TRANQUILITY: u32 = 2;

/// The worker-pool sizing and pacing parameters.
#[derive(Clone, Copy, PartialEq, Eq, Structural, Debug)]
pub struct PersistedConfig {
    pub n_workers: usize,
    pub tranquility: u32,
}

/// A configuration the pool accepts: between one worker and the cap.
pub open spec fn config_wf(c: PersistedConfig) -> bool {
    1 <= c.n_workers <= MAX_RESYNC_WORKERS
}

/// The 16-byte persisted form: big-endian worker count, then big-endian
/// tranquility, each widened to 64 bits.
pub open spec fn config_bytes(c: PersistedConfig) -> Seq<u8> {
    u64_be(c.n_workers as u64) + u64_be(c.tranquility as u64)
}

/// Bytes that decode to an accepted configuration.
pub open spec fn valid_config_bytes(s: Seq<u8>) -> bool {
    s.len() == 16 && 1 <= be_val(s.subrange(0, 8)) <= MAX_RESYNC_WORKERS && be_val(
        s.subrange(8, 16),
    ) <= u32::MAX
}

impl PersistedConfig {
    /// The configuration of a node that has never persisted one.
    pub fn default_config() -> (r: PersistedConfig)
        ensures
            r == (PersistedConfig { n_workers: 1, tranquility: INITIAL_TRANQUILITY }),
            config_wf(r),
    {
        PersistedConfig { n_workers: 1, tranquility: INITIAL_TRANQUILITY }
    }

    /// The 16 bytes to persist for this configuration.
    pub fn encode(&self) -> (r: Vec<u8>)
        ensures
            r@ == config_bytes(*self),
            r@.len() == 16,
    {
        let mut r = u64_to_be_bytes(self.n_workers as u64);
        let mut tail = u64_to_be_bytes(self.tranquility as u64);
        r.append(&mut tail);
        r
    }

    /// Reads a persisted configuration back; `None` exactly when the
    /// bytes are not the encoding of an accepted configuration.
    pub fn decode(data: &Vec<u8>) -> (r: Option<PersistedConfig>)
        ensures
            r is Some <==> valid_config_bytes(data@),
            r matches Some(c) ==> c.n_workers as int == be_val(data@.subrange(0, 8))
                && c.tranquility as int == be_val(data@.subrange(8, 16)) && config_wf(c),
    {
        if data.len() != 16 {
            return None;
        }
        let workers = u64_from_be_bytes(data, 0);
        let tranquility = u64_from_be_bytes(data, 8);
        if workers < 1 || workers > (MAX_RESYNC_WORKERS as u64) {
            return None;
        }
        if tranquility > (u32::MAX as u64) {
            return None;
        }
        Some(PersistedConfig { n_workers: workers as usize, tranquility: tranquility as u32 })
    }

    /// The configuration to start with: the persisted bytes when they
    /// decode, the default otherwise (in particular on a fresh node).
    pub fn load_or_default(data: Option<&Vec<u8>>) -> (r: PersistedConfig)
        ensures
            config_wf(r),
            match data {
                Some(d) => {
                    if valid_config_bytes(d@) {
                        r.n_workers as int == be_val(d@.subrange(0, 8)) && r.tranquility as int
                            == be_val(d@.subrange(8, 16))
                    } else {
                        r == PersistedConfig::default_spec()
                    }
                },
                None => r == PersistedConfig::default_spec(),
            },
    {
        match data {
            Some(d) => match PersistedConfig::decode(d) {
                Some(c) => c,
                None => PersistedConfig::default_config(),
            },
            None => PersistedConfig::default_config(),
        }
    }

    /// The default configuration, as a specification value.
    pub open spec fn default_spec() -> PersistedConfig {
        PersistedConfig { n_workers: 1, tranquility: INITIAL_TRANQUILITY }
    }
}

/// Persisting round-trips: the bytes written for an accepted
/// configuration decode back to exactly that configuration.
pub proof fn lemma_config_round_trip(c: PersistedConfig)
    requires
        config_wf(c),
    ensures
        valid_config_bytes(config_bytes(c)),
        be_val(config_bytes(c).subrange(0, 8)) == c.n_workers,
        be_val(config_bytes(c).subrange(8, 16)) == c.tranquility,
{
    lemma_pow256_values();
    assert(config_bytes(c).subrange(0, 8) =~= u64_be(c.n_workers as u64));
    assert(config_bytes(c).subrange(8, 16) =~= u64_be(c.tranquility as u64));
    lemma_be_val_of_be_seq(c.n_workers as int, 8);
    lemma_be_val_of_be_seq(c.tranquility as int, 8);
}

} // verus!
