//! Block identifiers and the 40-byte queue key.
//!
//! A block is named by a 32-byte content hash, totally ordered by byte
//! comparison. The resync queue is keyed by the timestamp at which the
//! block is due, encoded big-endian, followed by the block id; the
//! lexicographic order of these keys is exactly the order of
//! `(due time, block id)` pairs, which is what makes a plain ordered
//! byte-keyed tree deliver entries in due-time order.

use vstd::prelude::*;
use crate::bytes::{
    lex_lt, u64_be, be_val, u64_to_be_bytes, u64_from_be_bytes, lemma_lex_concat,
    lemma_lex_irrefl, lemma_u64_be_order, lemma_be_val_of_be_seq, lemma_pow256_values,
};

verus! {

/// A 32-byte content identifier of a stored block.
#[derive(Clone, Copy, Debug)]
pub struct BlockId {
    pub bytes: [u8; 32],
}

impl View for BlockId {
    type V = Seq<u8>;

    open spec fn view(&self) -> Seq<u8> {
        self.bytes@
    }
}

/// The 40-byte key under which a block due at `when` sits in the queue
/// tree: big-endian timestamp, then the block id.
pub open spec fn queue_key_bytes(when: u64, id: Seq<u8>) -> Seq<u8> {
    u64_be(when) + id
}

/// Order of `(due time, block id)` pairs: by time, then by id bytes.
pub open spec fn entry_lt(when1: u64, id1: Seq<u8>, when2: u64, id2: Seq<u8>) -> bool {
    when1 < when2 || (when1 == when2 && lex_lt(id1, id2))
}

/// The lexicographic byte order of queue keys equals the order of their
/// `(due time, block id)` pairs, time first, id bytes second.
pub proof fn lemma_queue_key_order(when1: u64, id1: Seq<u8>, when2: u64, id2: Seq<u8>)
    requires
        id1.len() == id2.len(),
    ensures
        lex_lt(queue_key_bytes(when1, id1), queue_key_bytes(when2, id2)) <==> entry_lt(
            when1,
            id1,
            when2,
            id2,
        ),
{
    lemma_u64_be_order(when1, when2);
    lemma_u64_be_order(when2, when1);
    lemma_lex_concat(u64_be(when1), u64_be(when2), id1, id2);
}

impl BlockId {
    /// A block id from its 32 raw bytes.
    pub fn from_bytes(bytes: [u8; 32]) -> (r: BlockId)
        ensures
            r@ == bytes@,
    {
        BlockId { bytes }
    }

    /// The raw bytes of the id.
    pub fn as_bytes(&self) -> (r: &[u8; 32])
        ensures
            r@ == self@,
    {
        &self.bytes
    }

    /// The raw bytes of the id, as an owned value (the value stored
    /// under a queue key, and the key of the error tree).
    pub fn to_bytes_vec(&self) -> (r: Vec<u8>)
        ensures
            r@ == self@,
            r@.len() == 32,
    {
        let mut r: Vec<u8> = Vec::new();
        let mut i: usize = 0;
        while i < 32
            invariant
                0 <= i <= 32,
                r@ == self@.subrange(0, i as int),
            decreases 32 - i,
        {
            let b = self.bytes[i];
            r.push(b);
            proof {
                assert(r@ =~= self@.subrange(0, i + 1));
            }
            i = i + 1;
        }
        proof {
            assert(self@.subrange(0, 32) =~= self@);
        }
        r
    }

    /// Whether two ids name the same block.
    pub fn same(&self, other: &BlockId) -> (r: bool)
        ensures
            r == (self@ == other@),
    {
        let mut i: usize = 0;
        while i < 32
            invariant
                0 <= i <= 32,
                self@.subrange(0, i as int) == other@.subrange(0, i as int),
            decreases 32 - i,
        {
            if self.bytes[i] != other.bytes[i] {
                proof {
                    assert(self@[i as int] != other@[i as int]);
                }
                return false;
            }
            proof {
                assert(self@.subrange(0, i + 1) =~= other@.subrange(0, i + 1));
            }
            i = i + 1;
        }
        proof {
            assert(self@ =~= self@.subrange(0, 32));
            assert(other@ =~= other@.subrange(0, 32));
        }
        true
    }

    /// Whether this id sorts strictly before `other` in byte order.
    pub fn lex_before(&self, other: &BlockId) -> (r: bool)
        ensures
            r == lex_lt(self@, other@),
    {
        let mut i: usize = 0;
        while i < 32
            invariant
                0 <= i <= 32,
                self@.subrange(0, i as int) == other@.subrange(0, i as int),
            decreases 32 - i,
        {
            if self.bytes[i] < other.bytes[i] {
                proof {
                    lemma_lex_common_prefix(self@, other@, i as int);
                }
                return true;
            }
            if self.bytes[i] > other.bytes[i] {
                proof {
                    lemma_lex_common_prefix(self@, other@, i as int);
                }
                return false;
            }
            proof {
                assert(self@.subrange(0, i + 1) =~= other@.subrange(0, i + 1));
            }
            i = i + 1;
        }
        proof {
            assert(self@ =~= self@.subrange(0, 32));
            assert(other@ =~= other@.subrange(0, 32));
            lemma_lex_irrefl(self@);
        }
        false
    }
}

/// After an equal prefix, the next byte decides the lexicographic order.
pub proof fn lemma_lex_common_prefix(a: Seq<u8>, b: Seq<u8>, i: int)
    requires
        a.len() == b.len(),
        0 <= i < a.len(),
        a.subrange(0, i) == b.subrange(0, i),
    ensures
        a[i] < b[i] ==> lex_lt(a, b),
        a[i] > b[i] ==> !lex_lt(a, b),
    decreases i,
{
    if i == 0 {
        if a[0] > b[0] {
            assert(!lex_lt(a, b));
        }
    } else {
        assert(a[0] == b[0]) by {
            assert(a.subrange(0, i)[0] == a[0]);
            assert(b.subrange(0, i)[0] == b[0]);
        }
        assert(a.skip(1).subrange(0, i - 1) =~= a.subrange(0, i).skip(1));
        assert(b.skip(1).subrange(0, i - 1) =~= b.subrange(0, i).skip(1));
        assert(a.skip(1)[i - 1] == a[i]);
        assert(b.skip(1)[i - 1] == b[i]);
        lemma_lex_common_prefix(a.skip(1), b.skip(1), i - 1);
    }
}

/// Writes the 40-byte queue key for a block due at `when`.
pub fn encode_queue_key(when: u64, id: &BlockId) -> (r: Vec<u8>)
    ensures
        r@ == queue_key_bytes(when, id@),
        r@.len() == 40,
{
    let mut r = u64_to_be_bytes(when);
    let mut i: usize = 0;
    while i < 32
        invariant
            0 <= i <= 32,
            r@ == u64_be(when) + id@.subrange(0, i as int),
        decreases 32 - i,
    {
        let b = id.as_bytes()[i];
        r.push(b);
        proof {
            assert(r@ =~= u64_be(when) + id@.subrange(0, i + 1));
        }
        i = i + 1;
    }
    proof {
        assert(id@.subrange(0, 32) =~= id@);
    }
    r
}

/// Reads a queue key back into its due time and block id; `None` exactly
/// when the key does not have the 40 bytes of a queue key.
pub fn decode_queue_key(bytes: &Vec<u8>) -> (r: Option<(u64, BlockId)>)
    ensures
        r is Some <==> bytes@.len() == 40,
        r matches Some(p) ==> p.0 as int == be_val(bytes@.subrange(0, 8)) && p.1@ == bytes@
            .subrange(8, 40),
{
    if bytes.len() != 40 {
        return None;
    }
    let when = u64_from_be_bytes(bytes, 0);
    let mut arr: [u8; 32] = [0u8; 32];
    let mut i: usize = 0;
    while i < 32
        invariant
            0 <= i <= 32,
            bytes@.len() == 40,
            arr@.subrange(0, i as int) == bytes@.subrange(8, 8 + i as int),
            arr@.len() == 32,
        decreases 32 - i,
    {
        arr[i] = bytes[8 + i];
        proof {
            assert(arr@.subrange(0, i + 1) =~= bytes@.subrange(8, 8 + i + 1));
        }
        i = i + 1;
    }
    proof {
        assert(arr@ =~= arr@.subrange(0, 32));
    }
    Some((when, BlockId { bytes: arr }))
}

/// Decoding inverts encoding: the key written for `(when, id)` reads
/// back as exactly `(when, id)`.
pub proof fn lemma_queue_key_round_trip(when: u64, id: Seq<u8>)
    requires
        id.len() == 32,
    ensures
        queue_key_bytes(when, id).len() == 40,
        be_val(queue_key_bytes(when, id).subrange(0, 8)) == when,
        queue_key_bytes(when, id).subrange(8, 40) == id,
{
    lemma_pow256_values();
    assert(queue_key_bytes(when, id).subrange(0, 8) =~= u64_be(when));
    assert(queue_key_bytes(when, id).subrange(8, 40) =~= id);
    lemma_be_val_of_be_seq(when as int, 8);
}

} // verus!
