//! Writes against the durable trees, as plain values.
//!
//! The queue and the error counters live in two durable byte-keyed
//! trees: the queue keyed by the 40-byte queue key with the 32-byte
//! block id as value, the errors keyed by the block id with the 16-byte
//! counter as value. Every engine operation that changes them hands the
//! host the exact tree writes, in order; the host applies them to its
//! store as given. The order is load-bearing: where an entry moves, the
//! insert of the new key comes before the delete of the old one, so a
//! crash between the two leaves one extra no-op entry and never loses a
//! block.

use vstd::prelude::*;
use crate::block_id::queue_key_bytes;
use crate::counter::{ErrorCounter, counter_bytes};

verus! {

/// One write or delete against the durable trees.
pub enum TreeOp {
    /// Insert into the queue tree: the 40-byte key, the id as value.
    QueuePut { key: Vec<u8>, value: Vec<u8> },
    /// Delete the 40-byte key from the queue tree.
    QueueDel { key: Vec<u8> },
    /// Insert into the error tree: the 32-byte id, the 16-byte counter.
    ErrorsPut { key: Vec<u8>, value: Vec<u8> },
    /// Delete the 32-byte id from the error tree.
    ErrorsDel { key: Vec<u8> },
}

/// The op inserts the queue entry `(when, id)` under its queue key.
pub open spec fn is_queue_put(op: TreeOp, when: u64, id: Seq<u8>) -> bool {
    op matches TreeOp::QueuePut { key, value } && key@ == queue_key_bytes(when, id) && value@ == id
}

/// The op deletes the queue entry `(when, id)` by its queue key.
pub open spec fn is_queue_del(op: TreeOp, when: u64, id: Seq<u8>) -> bool {
    op matches TreeOp::QueueDel { key } && key@ == queue_key_bytes(when, id)
}

/// The op stores the counter `c` for the block `id`.
pub open spec fn is_errors_put(op: TreeOp, id: Seq<u8>, c: ErrorCounter) -> bool {
    op matches TreeOp::ErrorsPut { key, value } && key@ == id && value@ == counter_bytes(c)
}

/// The op drops the counter for the block `id`.
pub open spec fn is_errors_del(op: TreeOp, id: Seq<u8>) -> bool {
    op matches TreeOp::ErrorsDel { key } && key@ == id
}

} // verus!
