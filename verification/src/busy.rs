//! The process-local exclusion set.
//!
//! While a worker handles a queue entry, the entry's `(due time, id)`
//! pair sits in this set, and no other worker may pick it. The set is
//! never persisted; membership is released when the claim ends, however
//! the iteration ends.

use vstd::prelude::*;
use crate::block_id::BlockId;

verus! {

/// Whether the entry list holds the pair `(when, id)`.
pub open spec fn list_holds_pair(s: Seq<(u64, BlockId)>, when: u64, id: Seq<u8>) -> bool {
    exists|i: int| 0 <= i < s.len() && s[i].0 == when && s[i].1@ == id
}

/// The set of queue entries currently claimed by some worker.
pub struct BusySet {
    claimed: Vec<(u64, BlockId)>,
}

impl View for BusySet {
    type V = Set<(u64, Seq<u8>)>;

    closed spec fn view(&self) -> Set<(u64, Seq<u8>)> {
        Set::new(|p: (u64, Seq<u8>)| list_holds_pair(self.claimed@, p.0, p.1))
    }
}

impl BusySet {
    /// An empty set: nothing is claimed.
    pub fn new() -> (r: BusySet)
        ensures
            r@ == Set::<(u64, Seq<u8>)>::empty(),
    {
        let r = BusySet { claimed: Vec::new() };
        proof {
            assert(r@ =~= Set::<(u64, Seq<u8>)>::empty());
        }
        r
    }

    /// Whether the entry `(when, id)` is currently claimed.
    pub fn contains(&self, when: u64, id: &BlockId) -> (r: bool)
        ensures
            r == self@.contains((when, id@)),
    {
        let mut i: usize = 0;
        let n = self.claimed.len();
        while i < n
            invariant
                0 <= i <= n == self.claimed@.len(),
                forall|j: int|
                    0 <= j < i ==> !(self.claimed@[j].0 == when && self.claimed@[j].1@ == id@),
            decreases n - i,
        {
            if self.claimed[i].0 == when && self.claimed[i].1.same(id) {
                return true;
            }
            i = i + 1;
        }
        false
    }

    /// Claims `(when, id)` unless some worker already holds it; reports
    /// whether the claim was won.
    pub fn try_claim(&mut self, when: u64, id: &BlockId) -> (r: bool)
        ensures
            r == !old(self)@.contains((when, id@)),
            r ==> final(self)@ == old(self)@.insert((when, id@)),
            !r ==> final(self)@ == old(self)@,
    {
        if self.contains(when, id) {
            return false;
        }
        let ghost s0 = self.claimed@;
        self.claimed.push((when, *id));
        proof {
            assert forall|t: u64, k: Seq<u8>|
                list_holds_pair(self.claimed@, t, k) <==> (list_holds_pair(s0, t, k) || (t == when
                    && k == id@)) by {
                if list_holds_pair(s0, t, k) {
                    let i = choose|i: int| 0 <= i < s0.len() && s0[i].0 == t && s0[i].1@ == k;
                    assert(self.claimed@[i].0 == t && self.claimed@[i].1@ == k);
                }
                if t == when && k == id@ {
                    assert(self.claimed@[s0.len() as int].0 == t && self.claimed@[s0.len() as int].1@
                        == k);
                }
                if list_holds_pair(self.claimed@, t, k) {
                    let i = choose|i: int|
                        0 <= i < self.claimed@.len() && self.claimed@[i].0 == t
                            && self.claimed@[i].1@ == k;
                    if i < s0.len() {
                        assert(s0[i].0 == t && s0[i].1@ == k);
                    }
                }
            }
            assert(self@ =~= old(self)@.insert((when, id@)));
        }
        true
    }

    /// Releases `(when, id)`; harmless when the pair is not claimed.
    pub fn release(&mut self, when: u64, id: &BlockId)
        ensures
            final(self)@ == old(self)@.remove((when, id@)),
    {
        let n = self.claimed.len();
        let mut out: Vec<(u64, BlockId)> = Vec::new();
        let mut i: usize = 0;
        while i < n
            invariant
                0 <= i <= n == old(self).claimed@.len(),
                self.claimed@ == old(self).claimed@,
                forall|t: u64, k: Seq<u8>|
                    #[trigger] list_holds_pair(out@, t, k) <==> (list_holds_pair(
                        old(self).claimed@.subrange(0, i as int),
                        t,
                        k,
                    ) && !(t == when && k == id@)),
            decreases n - i,
        {
            let e = self.claimed[i];
            let ghost o0 = out@;
            let ghost pre = old(self).claimed@.subrange(0, i as int);
            let ghost cur = old(self).claimed@.subrange(0, i as int + 1);
            if !(e.0 == when && e.1.same(id)) {
                out.push(e);
            }
            proof {
                assert(cur.drop_last() =~= pre);
                assert(cur.last() == e);
                assert forall|t: u64, k: Seq<u8>|
                    #[trigger] list_holds_pair(out@, t, k) <==> (list_holds_pair(
                        old(self).claimed@.subrange(0, i as int + 1),
                        t,
                        k,
                    ) && !(t == when && k == id@)) by {
                    assert(list_holds_pair(o0, t, k) <==> (list_holds_pair(pre, t, k) && !(t == when
                        && k == id@)));
                    lemma_holds_pair_snoc_split(o0, out@, pre, cur, e, t, k, when, id@);
                }
            }
            i = i + 1;
        }
        proof {
            assert(old(self).claimed@.subrange(0, n as int) =~= old(self).claimed@);
        }
        self.claimed = out;
        proof {
            assert(self@ =~= old(self)@.remove((when, id@)));
        }
    }
}

/// One filtering step keeps membership exact: after looking at one more
/// entry, the kept list holds a pair exactly when the scanned prefix
/// holds it and it is not the pair being dropped.
proof fn lemma_holds_pair_snoc_split(
    o0: Seq<(u64, BlockId)>,
    o1: Seq<(u64, BlockId)>,
    pre: Seq<(u64, BlockId)>,
    cur: Seq<(u64, BlockId)>,
    e: (u64, BlockId),
    t: u64,
    k: Seq<u8>,
    when: u64,
    id: Seq<u8>,
)
    requires
        cur.drop_last() == pre,
        cur.last() == e,
        cur.len() == pre.len() + 1,
        (e.0 == when && e.1@ == id) ==> o1 == o0,
        !(e.0 == when && e.1@ == id) ==> o1 == o0.push(e),
        list_holds_pair(o0, t, k) <==> (list_holds_pair(pre, t, k) && !(t == when && k == id)),
    ensures
        list_holds_pair(o1, t, k) <==> (list_holds_pair(cur, t, k) && !(t == when && k == id)),
{
    if list_holds_pair(pre, t, k) {
        let i = choose|i: int| 0 <= i < pre.len() && pre[i].0 == t && pre[i].1@ == k;
        assert(cur[i].0 == t && cur[i].1@ == k);
    }
    if e.0 == t && e.1@ == k {
        assert(cur[pre.len() as int].0 == t && cur[pre.len() as int].1@ == k);
        if !(e.0 == when && e.1@ == id) {
            assert(o1 == o0.push(e));
            assert(o1[o0.len() as int].0 == t && o1[o0.len() as int].1@ == k);
        }
    }
    if list_holds_pair(cur, t, k) {
        let i = choose|i: int| 0 <= i < cur.len() && cur[i].0 == t && cur[i].1@ == k;
        if i < pre.len() {
            assert(pre[i].0 == t && pre[i].1@ == k);
        } else {
            assert(e.0 == t && e.1@ == k);
        }
    }
    if list_holds_pair(o0, t, k) {
        let i = choose|i: int| 0 <= i < o0.len() && o0[i].0 == t && o0[i].1@ == k;
        assert(o1[i].0 == t && o1[i].1@ == k);
    }
    if list_holds_pair(o1, t, k) {
        let i = choose|i: int| 0 <= i < o1.len() && o1[i].0 == t && o1[i].1@ == k;
        if i < o0.len() {
            assert(o0[i].0 == t && o0[i].1@ == k);
        } else {
            assert(o1 == o0.push(e));
            assert(e.0 == t && e.1@ == k);
        }
    }
}

} // verus!
