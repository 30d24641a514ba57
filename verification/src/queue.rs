//! The time-ordered resync queue.
//!
//! An entry `(when, id)` says the block `id` is due for a resync at time
//! `when`. The durable tree behind it is keyed by the 40-byte queue key
//! whose byte order equals the `(when, id)` order, so iterating the tree
//! from its lowest key visits entries in due-time order; here the queue
//! is the set of entries, and the scan hands out the least entry that no
//! worker has claimed.

use vstd::prelude::*;
use crate::block_id::{BlockId, entry_lt};
use crate::busy::BusySet;
use crate::bytes::{lemma_lex_total, lemma_lex_trans};

verus! {

/// Whether the entry list holds the entry `(when, id)`.
pub open spec fn list_has_entry(s: Seq<(u64, BlockId)>, when: u64, id: Seq<u8>) -> bool {
    exists|i: int| 0 <= i < s.len() && s[i].0 == when && s[i].1@ == id
}

/// No entry occurs twice in the list.
pub open spec fn unique_entries(s: Seq<(u64, BlockId)>) -> bool {
    forall|i: int, j: int|
        0 <= i < j < s.len() ==> !(s[i].0 == s[j].0 && s[i].1@ == s[j].1@)
}

/// Order on `(due time, id bytes)` pairs, time first.
pub open spec fn pair_lt(a: (u64, Seq<u8>), b: (u64, Seq<u8>)) -> bool {
    entry_lt(a.0, a.1, b.0, b.1)
}

/// Distinct pairs with ids of one length are ordered one way or the other.
pub proof fn lemma_pair_total(a: (u64, Seq<u8>), b: (u64, Seq<u8>))
    requires
        a.1.len() == b.1.len(),
    ensures
        pair_lt(a, b) || pair_lt(b, a) || a == b,
{
    lemma_lex_total(a.1, b.1);
}

/// The pair order is transitive.
pub proof fn lemma_pair_trans(a: (u64, Seq<u8>), b: (u64, Seq<u8>), c: (u64, Seq<u8>))
    requires
        a.1.len() == b.1.len(),
        b.1.len() == c.1.len(),
        pair_lt(a, b),
        pair_lt(b, c),
    ensures
        pair_lt(a, c),
{
    if a.0 == b.0 && b.0 == c.0 {
        lemma_lex_trans(a.1, b.1, c.1);
    }
}

/// The queue of pending resyncs, seen as a set of `(when, id)` pairs.
pub struct ResyncQueue {
    entries: Vec<(u64, BlockId)>,
}

impl View for ResyncQueue {
    type V = Set<(u64, Seq<u8>)>;

    closed spec fn view(&self) -> Set<(u64, Seq<u8>)> {
        Set::new(|p: (u64, Seq<u8>)| list_has_entry(self.entries@, p.0, p.1))
    }
}

impl ResyncQueue {
    /// Each entry sits in the queue once.
    pub closed spec fn wf(&self) -> bool {
        unique_entries(self.entries@)
    }

    /// An empty queue.
    pub fn new() -> (r: ResyncQueue)
        ensures
            r@ == Set::<(u64, Seq<u8>)>::empty(),
            r.wf(),
    {
        let r = ResyncQueue { entries: Vec::new() };
        proof {
            assert(r@ =~= Set::<(u64, Seq<u8>)>::empty());
        }
        r
    }

    /// Every id in the queue has the 32 bytes of a block id.
    pub proof fn lemma_ids_len(&self)
        ensures
            forall|p: (u64, Seq<u8>)| #[trigger] self@.contains(p) ==> p.1.len() == 32,
    {
        assert forall|p: (u64, Seq<u8>)| #[trigger] self@.contains(p) implies p.1.len() == 32 by {
            let i = choose|i: int|
                0 <= i < self.entries@.len() && self.entries@[i].0 == p.0 && self.entries@[i].1@
                    == p.1;
            assert(self.entries@[i].1@.len() == 32);
        }
    }

    /// Whether the entry `(when, id)` is pending.
    pub fn contains(&self, when: u64, id: &BlockId) -> (r: bool)
        ensures
            r == self@.contains((when, id@)),
    {
        let n = self.entries.len();
        let mut i: usize = 0;
        while i < n
            invariant
                0 <= i <= n == self.entries@.len(),
                forall|j: int|
                    0 <= j < i ==> !(self.entries@[j].0 == when && self.entries@[j].1@ == id@),
            decreases n - i,
        {
            if self.entries[i].0 == when && self.entries[i].1.same(id) {
                return true;
            }
            i = i + 1;
        }
        false
    }

    /// Makes `(when, id)` pending. Inserting an entry that is already
    /// pending changes nothing: the stored value duplicates the key.
    pub fn insert(&mut self, when: u64, id: &BlockId)
        requires
            old(self).wf(),
        ensures
            final(self)@ == old(self)@.insert((when, id@)),
            final(self).wf(),
    {
        if self.contains(when, id) {
            proof {
                assert(self@ =~= old(self)@.insert((when, id@)));
            }
            return;
        }
        let ghost s0 = self.entries@;
        self.entries.push((when, *id));
        proof {
            assert forall|t: u64, k: Seq<u8>| #[trigger]
                list_has_entry(self.entries@, t, k) <==> (list_has_entry(s0, t, k) || (t == when
                    && k == id@)) by {
                if list_has_entry(s0, t, k) {
                    let i = choose|i: int| 0 <= i < s0.len() && s0[i].0 == t && s0[i].1@ == k;
                    assert(self.entries@[i].0 == t && self.entries@[i].1@ == k);
                }
                if t == when && k == id@ {
                    assert(self.entries@[s0.len() as int].0 == t
                        && self.entries@[s0.len() as int].1@ == k);
                }
                if list_has_entry(self.entries@, t, k) {
                    let i = choose|i: int|
                        0 <= i < self.entries@.len() && self.entries@[i].0 == t
                            && self.entries@[i].1@ == k;
                    if i < s0.len() {
                        assert(s0[i].0 == t && s0[i].1@ == k);
                    }
                }
            }
            assert(self@ =~= old(self)@.insert((when, id@)));
            assert forall|i: int, j: int| 0 <= i < j < self.entries@.len() implies !(
            self.entries@[i].0 == self.entries@[j].0 && self.entries@[i].1@
                == self.entries@[j].1@) by {
                if j == s0.len() {
                    if self.entries@[i].0 == when && self.entries@[i].1@ == id@ {
                        assert(list_has_entry(s0, when, id@));
                        assert(old(self)@.contains((when, id@)));
                    }
                }
            }
        }
    }

    /// Drops the entry `(when, id)`; harmless when it is not pending.
    pub fn remove(&mut self, when: u64, id: &BlockId)
        requires
            old(self).wf(),
        ensures
            final(self)@ == old(self)@.remove((when, id@)),
            final(self).wf(),
    {
        let n = self.entries.len();
        let mut out: Vec<(u64, BlockId)> = Vec::new();
        let mut i: usize = 0;
        while i < n
            invariant
                0 <= i <= n == self.entries@.len(),
                self.wf(),
                self.entries@ == old(self).entries@,
                forall|t: u64, k: Seq<u8>| #[trigger]
                    list_has_entry(out@, t, k) <==> (list_has_entry(
                        self.entries@.subrange(0, i as int),
                        t,
                        k,
                    ) && !(t == when && k == id@)),
                unique_entries(out@),
                forall|j: int|
                    0 <= j < out@.len() ==> list_has_entry(
                        self.entries@,
                        #[trigger] out@[j].0,
                        out@[j].1@,
                    ),
            decreases n - i,
        {
            let e = self.entries[i];
            let ghost o0 = out@;
            let ghost pre = self.entries@.subrange(0, i as int);
            let ghost cur = self.entries@.subrange(0, i as int + 1);
            if !(e.0 == when && e.1.same(id)) {
                proof {
                    if list_has_entry(o0, e.0, e.1@) {
                        let j = choose|j: int| 0 <= j < pre.len() && pre[j].0 == e.0 && pre[j].1@ == e.1@;
                        assert(self.entries@[j].0 == self.entries@[i as int].0
                            && self.entries@[j].1@ == self.entries@[i as int].1@);
                        assert(false);
                    }
                }
                out.push(e);
            }
            proof {
                assert(cur.drop_last() =~= pre);
                assert(cur.last() == e);
                assert forall|t: u64, k: Seq<u8>| #[trigger]
                    list_has_entry(out@, t, k) <==> (list_has_entry(
                        self.entries@.subrange(0, i as int + 1),
                        t,
                        k,
                    ) && !(t == when && k == id@)) by {
                    lemma_queue_snoc_split(o0, out@, pre, cur, e, t, k, when, id@);
                }
                assert forall|i2: int, j2: int| 0 <= i2 < j2 < out@.len() implies !(out@[i2].0
                    == out@[j2].0 && out@[i2].1@ == out@[j2].1@) by {
                    if j2 == o0.len() {
                        assert(out@[j2] == e);
                        if out@[i2].0 == e.0 && out@[i2].1@ == e.1@ {
                            assert(list_has_entry(o0, e.0, e.1@));
                            let j = choose|j: int|
                                0 <= j < pre.len() && pre[j].0 == e.0 && pre[j].1@ == e.1@;
                            assert(self.entries@[j].0 == self.entries@[i as int].0
                                && self.entries@[j].1@ == self.entries@[i as int].1@);
                        }
                    } else {
                        assert(o0[i2].0 != o0[j2].0 || o0[i2].1@ != o0[j2].1@);
                    }
                }
            }
            i = i + 1;
        }
        proof {
            assert(self.entries@.subrange(0, n as int) =~= self.entries@);
        }
        self.entries = out;
        proof {
            assert(self@ =~= old(self)@.remove((when, id@)));
        }
    }

    /// How many entries are pending.
    pub fn len(&self) -> (r: usize)
        requires
            self.wf(),
        ensures
            self@.finite(),
            r == self@.len(),
    {
        proof {
            lemma_queue_model_len(self.entries@);
            assert(self@ =~= Set::new(
                |p: (u64, Seq<u8>)| list_has_entry(self.entries@, p.0, p.1),
            ));
        }
        self.entries.len()
    }

    /// The least pending entry that no worker has claimed, or `None`
    /// when every pending entry is claimed (in particular when the
    /// queue is empty).
    pub fn first_claimable(&self, busy: &BusySet) -> (r: Option<(u64, BlockId)>)
        ensures
            r is None ==> forall|p: (u64, Seq<u8>)| #[trigger]
                self@.contains(p) ==> busy@.contains(p),
            r matches Some(e) ==> self@.contains((e.0, e.1@)) && !busy@.contains((e.0, e.1@))
                && forall|p: (u64, Seq<u8>)| #[trigger]
                self@.contains(p) && !busy@.contains(p) && p != (e.0, e.1@) ==> pair_lt(
                    (e.0, e.1@),
                    p,
                ),
    {
        let n = self.entries.len();
        let mut best: Option<(u64, BlockId)> = None;
        let mut i: usize = 0;
        while i < n
            invariant
                0 <= i <= n == self.entries@.len(),
                best is None ==> forall|j: int|
                    0 <= j < i ==> busy@.contains(
                        (#[trigger] self.entries@[j].0, self.entries@[j].1@),
                    ),
                best matches Some(b) ==> list_has_entry(self.entries@, b.0, b.1@)
                    && !busy@.contains((b.0, b.1@)) && forall|j: int|
                    0 <= j < i && !busy@.contains(
                        (#[trigger] self.entries@[j].0, self.entries@[j].1@),
                    ) ==> ((b.0, b.1@) == (self.entries@[j].0, self.entries@[j].1@) || pair_lt(
                        (b.0, b.1@),
                        (self.entries@[j].0, self.entries@[j].1@),
                    )),
            decreases n - i,
        {
            let e = self.entries[i];
            if !busy.contains(e.0, &e.1) {
                match best {
                    None => {
                        best = Some(e);
                    },
                    Some(b) => {
                        if e.0 < b.0 || (e.0 == b.0 && e.1.lex_before(&b.1)) {
                            proof {
                                assert forall|j: int|
                                    0 <= j < i + 1 && !busy@.contains(
                                        (#[trigger] self.entries@[j].0, self.entries@[j].1@),
                                    ) implies ((e.0, e.1@) == (
                                    self.entries@[j].0,
                                    self.entries@[j].1@,
                                ) || pair_lt(
                                    (e.0, e.1@),
                                    (self.entries@[j].0, self.entries@[j].1@),
                                )) by {
                                    let pj = (self.entries@[j].0, self.entries@[j].1@);
                                    if j < i {
                                        if (b.0, b.1@) == pj {
                                        } else {
                                            lemma_pair_trans((e.0, e.1@), (b.0, b.1@), pj);
                                        }
                                    }
                                }
                            }
                            best = Some(e);
                        } else {
                            proof {
                                lemma_pair_total((e.0, e.1@), (b.0, b.1@));
                            }
                        }
                    },
                }
            }
            i = i + 1;
        }
        proof {
            match best {
                Some(b) => {
                    assert forall|p: (u64, Seq<u8>)| #[trigger]
                        self@.contains(p) && !busy@.contains(p) && p != (b.0, b.1@) implies pair_lt(
                        (b.0, b.1@),
                        p,
                    ) by {
                        let j = choose|j: int|
                            0 <= j < self.entries@.len() && self.entries@[j].0 == p.0
                                && self.entries@[j].1@ == p.1;
                        assert(!busy@.contains((self.entries@[j].0, self.entries@[j].1@)));
                    }
                },
                None => {
                    assert forall|p: (u64, Seq<u8>)| #[trigger] self@.contains(p) implies busy@
                        .contains(p) by {
                        let j = choose|j: int|
                            0 <= j < self.entries@.len() && self.entries@[j].0 == p.0
                                && self.entries@[j].1@ == p.1;
                        assert(busy@.contains((self.entries@[j].0, self.entries@[j].1@)));
                    }
                },
            }
        }
        best
    }
}

/// One filtering step keeps membership exact.
proof fn lemma_queue_snoc_split(
    o0: Seq<(u64, BlockId)>,
    o1: Seq<(u64, BlockId)>,
    pre: Seq<(u64, BlockId)>,
    cur: Seq<(u64, BlockId)>,
    e: (u64, BlockId),
    t: u64,
    k: Seq<u8>,
    when: u64,
    id: Seq<u8>,
)
    requires
        cur.drop_last() == pre,
        cur.last() == e,
        cur.len() == pre.len() + 1,
        (e.0 == when && e.1@ == id) ==> o1 == o0,
        !(e.0 == when && e.1@ == id) ==> o1 == o0.push(e),
        list_has_entry(o0, t, k) <==> (list_has_entry(pre, t, k) && !(t == when && k == id)),
    ensures
        list_has_entry(o1, t, k) <==> (list_has_entry(cur, t, k) && !(t == when && k == id)),
{
    if list_has_entry(pre, t, k) {
        let i = choose|i: int| 0 <= i < pre.len() && pre[i].0 == t && pre[i].1@ == k;
        assert(cur[i].0 == t && cur[i].1@ == k);
    }
    if e.0 == t && e.1@ == k {
        assert(cur[pre.len() as int].0 == t && cur[pre.len() as int].1@ == k);
        if !(e.0 == when && e.1@ == id) {
            assert(o1 == o0.push(e));
            assert(o1[o0.len() as int].0 == t && o1[o0.len() as int].1@ == k);
        }
    }
    if list_has_entry(cur, t, k) {
        let i = choose|i: int| 0 <= i < cur.len() && cur[i].0 == t && cur[i].1@ == k;
        if i < pre.len() {
            assert(pre[i].0 == t && pre[i].1@ == k);
        } else {
            assert(e.0 == t && e.1@ == k);
        }
    }
    if list_has_entry(o0, t, k) {
        let i = choose|i: int| 0 <= i < o0.len() && o0[i].0 == t && o0[i].1@ == k;
        assert(o1[i].0 == t && o1[i].1@ == k);
    }
    if list_has_entry(o1, t, k) {
        let i = choose|i: int| 0 <= i < o1.len() && o1[i].0 == t && o1[i].1@ == k;
        if i < o0.len() {
            assert(o0[i].0 == t && o0[i].1@ == k);
        } else {
            assert(o1 == o0.push(e));
            assert(e.0 == t && e.1@ == k);
        }
    }
}

/// With unique entries the model set is finite and counts the entries.
proof fn lemma_queue_model_len(s: Seq<(u64, BlockId)>)
    requires
        unique_entries(s),
    ensures
        Set::new(|p: (u64, Seq<u8>)| list_has_entry(s, p.0, p.1)).finite(),
        Set::new(|p: (u64, Seq<u8>)| list_has_entry(s, p.0, p.1)).len() == s.len(),
    decreases s.len(),
{
    let d = Set::new(|p: (u64, Seq<u8>)| list_has_entry(s, p.0, p.1));
    if s.len() == 0 {
        assert(d =~= Set::<(u64, Seq<u8>)>::empty());
    } else {
        let pre = s.drop_last();
        let dp = Set::new(|p: (u64, Seq<u8>)| list_has_entry(pre, p.0, p.1));
        let last = (s.last().0, s.last().1@);
        assert forall|t: u64, k: Seq<u8>| #[trigger] list_has_entry(s, t, k) <==> (list_has_entry(
            pre,
            t,
            k,
        ) || (t == last.0 && k == last.1)) by {
            if list_has_entry(pre, t, k) {
                let j = choose|j: int| 0 <= j < pre.len() && pre[j].0 == t && pre[j].1@ == k;
                assert(s[j].0 == t && s[j].1@ == k);
            }
            if t == last.0 && k == last.1 {
                assert(s[s.len() - 1].0 == t && s[s.len() - 1].1@ == k);
            }
            if list_has_entry(s, t, k) {
                let j = choose|j: int| 0 <= j < s.len() && s[j].0 == t && s[j].1@ == k;
                if j < pre.len() {
                    assert(pre[j].0 == t && pre[j].1@ == k);
                }
            }
        }
        assert(d =~= dp.insert(last));
        lemma_queue_model_len(pre);
        if list_has_entry(pre, last.0, last.1) {
            let j = choose|j: int| 0 <= j < pre.len() && pre[j].0 == last.0 && pre[j].1@ == last.1;
            assert(s[j].0 == s[s.len() - 1].0 && s[j].1@ == s[s.len() - 1].1@);
            assert(false);
        }
    }
}

} // verus!
