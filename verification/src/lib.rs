//! Verified core of a block resync engine for a distributed object store.
//!
//! The library models the data and the decisions of the engine: the
//! time-ordered resync queue, the per-block error counters that drive
//! exponential backoff, the process-local exclusion set, the iteration
//! procedure, the offload-before-delete protocol, the worker gating and
//! the adaptive throttle. Durable storage, RPC transport and task
//! scheduling are collaborators that a host program supplies; the host
//! performs the actions this library decides on and hands the outcomes
//! back as plain values.

pub mod bytes;
pub mod counter;
pub mod block_id;
pub mod busy;
pub mod err_store;
pub mod queue;
pub mod config;
pub mod durable;
pub mod engine;
pub mod sm;
pub mod tranquilizer;
pub mod worker;
