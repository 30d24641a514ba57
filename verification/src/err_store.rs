//! The durable mapping from block id to its error counter.
//!
//! A block has an entry here exactly while its last resync attempt
//! failed; the entry drives the backoff schedule. The store is a plain
//! point-access map: no ordering is required of it.

use vstd::prelude::*;
use crate::block_id::BlockId;
use crate::counter::{ErrorCounter, counter_ok};

verus! {

/// Whether the entry list has a counter under `id`.
pub open spec fn list_has_id(s: Seq<(BlockId, ErrorCounter)>, id: Seq<u8>) -> bool {
    exists|i: int| 0 <= i < s.len() && s[i].0@ == id
}

/// The counter stored under `id` (the latest put when several match).
pub open spec fn list_counter_of(s: Seq<(BlockId, ErrorCounter)>, id: Seq<u8>) -> ErrorCounter
    decreases s.len(),
{
    if s.len() == 0 {
        ErrorCounter { errors: 0, last_try: 0 }
    } else if s.last().0@ == id {
        s.last().1
    } else {
        list_counter_of(s.drop_last(), id)
    }
}

/// No block id occurs twice in the list.
pub open spec fn unique_ids(s: Seq<(BlockId, ErrorCounter)>) -> bool {
    forall|i: int, j: int| 0 <= i < j < s.len() ==> s[i].0@ != s[j].0@
}

/// Every stored counter is one the engine may rely on.
pub open spec fn counters_ok(s: Seq<(BlockId, ErrorCounter)>) -> bool {
    forall|i: int| 0 <= i < s.len() ==> counter_ok(#[trigger] s[i].1)
}

/// The per-block error counters, seen as a map from id bytes to counter.
pub struct ErrorStore {
    entries: Vec<(BlockId, ErrorCounter)>,
}

impl View for ErrorStore {
    type V = Map<Seq<u8>, ErrorCounter>;

    closed spec fn view(&self) -> Map<Seq<u8>, ErrorCounter> {
        Map::new(
            |k: Seq<u8>| list_has_id(self.entries@, k),
            |k: Seq<u8>| list_counter_of(self.entries@, k),
        )
    }
}

/// A stored counter sits at its index: with unique ids, the entry found
/// at any index is the counter the map holds for that id.
proof fn lemma_counter_at_index(s: Seq<(BlockId, ErrorCounter)>, id: Seq<u8>, i: int)
    requires
        unique_ids(s),
        0 <= i < s.len(),
        s[i].0@ == id,
    ensures
        list_counter_of(s, id) == s[i].1,
    decreases s.len(),
{
    if i == s.len() - 1 {
    } else {
        assert(s[i].0@ != s[s.len() - 1].0@);
        assert(s.drop_last()[i] == s[i]);
        lemma_counter_at_index(s.drop_last(), id, i);
    }
}

impl ErrorStore {
    /// Whether the store's internals are consistent: each block has at
    /// most one entry and every stored counter is usable.
    pub closed spec fn wf(&self) -> bool {
        unique_ids(self.entries@) && counters_ok(self.entries@)
    }

    /// An empty store: no block is in an error state.
    pub fn new() -> (r: ErrorStore)
        ensures
            r@ == Map::<Seq<u8>, ErrorCounter>::empty(),
            r.wf(),
    {
        let r = ErrorStore { entries: Vec::new() };
        proof {
            assert(r@ =~= Map::<Seq<u8>, ErrorCounter>::empty());
        }
        r
    }

    /// The counter recorded for `id`, if its last resync failed.
    pub fn get(&self, id: &BlockId) -> (r: Option<ErrorCounter>)
        requires
            self.wf(),
        ensures
            r is Some <==> self@.dom().contains(id@),
            r matches Some(c) ==> c == self@[id@] && counter_ok(c),
    {
        let n = self.entries.len();
        let mut i: usize = 0;
        while i < n
            invariant
                0 <= i <= n == self.entries@.len(),
                self.wf(),
                forall|j: int| 0 <= j < i ==> self.entries@[j].0@ != id@,
            decreases n - i,
        {
            if self.entries[i].0.same(id) {
                proof {
                    lemma_counter_at_index(self.entries@, id@, i as int);
                }
                return Some(self.entries[i].1);
            }
            i = i + 1;
        }
        None
    }

    /// Records `c` for `id`, replacing any earlier counter.
    pub fn put(&mut self, id: &BlockId, c: ErrorCounter)
        requires
            old(self).wf(),
            counter_ok(c),
        ensures
            final(self)@ == old(self)@.insert(id@, c),
            final(self).wf(),
    {
        let mut out = self.rebuild_without(id);
        let ghost base = out@;
        out.push((*id, c));
        proof {
            let s = out@;
            assert(s.drop_last() =~= base);
            assert(s[base.len() as int] == (*id, c));
            assert forall|k: Seq<u8>| #[trigger] list_has_id(s, k) <==> (list_has_id(
                old(self).entries@,
                k,
            ) || k == id@) by {
                if list_has_id(base, k) {
                    let j = choose|j: int| 0 <= j < base.len() && base[j].0@ == k;
                    assert(s[j].0@ == k);
                }
                if k == id@ {
                    assert(s[base.len() as int].0@ == k);
                }
                if list_has_id(s, k) {
                    let j = choose|j: int| 0 <= j < s.len() && s[j].0@ == k;
                    if j < base.len() {
                        assert(base[j].0@ == k);
                    }
                }
            }
            assert forall|k: Seq<u8>| list_has_id(s, k) && k != id@ implies #[trigger] list_counter_of(
                s,
                k,
            ) == list_counter_of(old(self).entries@, k) by {
                assert(s.last().0@ == id@);
                assert(list_counter_of(s, k) == list_counter_of(base, k));
                assert(list_has_id(base, k));
            }
            assert(list_counter_of(s, id@) == c);
            assert forall|j: int| 0 <= j < base.len() implies base[j].0@ != id@ by {
                if base[j].0@ == id@ {
                    assert(list_has_id(base, id@));
                }
            }
            assert(unique_ids(s)) by {
                assert forall|a: int, b: int| 0 <= a < b < s.len() implies s[a].0@ != s[b].0@ by {
                    if b < base.len() {
                        assert(base[a].0@ != base[b].0@);
                    } else {
                        assert(s[b].0@ == id@);
                        assert(base[a].0@ != id@);
                    }
                }
            }
            assert(counters_ok(s)) by {
                assert forall|j: int| 0 <= j < s.len() implies counter_ok(#[trigger] s[j].1) by {
                    if j < base.len() {
                        assert(counter_ok(base[j].1));
                    }
                }
            }
        }
        self.entries = out;
        proof {
            assert(self@ =~= old(self)@.insert(id@, c));
        }
    }

    /// Forgets the counter for `id`; harmless when none is recorded.
    pub fn delete(&mut self, id: &BlockId)
        ensures
            final(self)@ == old(self)@.remove(id@),
            old(self).wf() ==> final(self).wf(),
    {
        let out = self.rebuild_without(id);
        self.entries = out;
        proof {
            assert(self@ =~= old(self)@.remove(id@));
        }
    }

    /// How many blocks are in an error state.
    pub fn len(&self) -> (r: usize)
        requires
            self.wf(),
        ensures
            self@.dom().finite(),
            r == self@.dom().len(),
    {
        proof {
            lemma_model_dom_len(self.entries@);
            assert(self@.dom() =~= Set::new(|k: Seq<u8>| list_has_id(self.entries@, k)));
        }
        self.entries.len()
    }

    /// Every counter a consistent store holds is usable.
    pub proof fn lemma_counters_ok(&self)
        requires
            self.wf(),
        ensures
            forall|k: Seq<u8>| #[trigger] self@.dom().contains(k) ==> counter_ok(self@[k]),
    {
        assert forall|k: Seq<u8>| #[trigger] self@.dom().contains(k) implies counter_ok(
            self@[k],
        ) by {
            let i = choose|i: int| 0 <= i < self.entries@.len() && self.entries@[i].0@ == k;
            lemma_counter_at_index(self.entries@, k, i);
            assert(counter_ok(self.entries@[i].1));
        }
    }

    /// The entry list with every entry for `id` dropped, other entries
    /// kept in order with their counters.
    fn rebuild_without(&self, id: &BlockId) -> (out: Vec<(BlockId, ErrorCounter)>)
        ensures
            forall|k: Seq<u8>| #[trigger]
                list_has_id(out@, k) <==> (list_has_id(self.entries@, k) && k != id@),
            forall|k: Seq<u8>|
                list_has_id(out@, k) ==> #[trigger] list_counter_of(out@, k) == list_counter_of(
                    self.entries@,
                    k,
                ),
            unique_ids(self.entries@) ==> unique_ids(out@),
            counters_ok(self.entries@) ==> counters_ok(out@),
            out@.len() <= self.entries@.len(),
    {
        let n = self.entries.len();
        let mut out: Vec<(BlockId, ErrorCounter)> = Vec::new();
        let mut i: usize = 0;
        while i < n
            invariant
                0 <= i <= n == self.entries@.len(),
                out@.len() <= i,
                forall|k: Seq<u8>| #[trigger]
                    list_has_id(out@, k) <==> (list_has_id(
                        self.entries@.subrange(0, i as int),
                        k,
                    ) && k != id@),
                forall|k: Seq<u8>|
                    list_has_id(out@, k) ==> #[trigger] list_counter_of(out@, k)
                        == list_counter_of(self.entries@.subrange(0, i as int), k),
                unique_ids(self.entries@) ==> unique_ids(out@),
                counters_ok(self.entries@) ==> counters_ok(out@),
                forall|j: int| 0 <= j < out@.len() ==> list_has_id(self.entries@, #[trigger] out@[j].0@),
            decreases n - i,
        {
            let e = self.entries[i];
            let ghost o0 = out@;
            if !e.0.same(id) {
                proof {
                    if unique_ids(self.entries@) && list_has_id(o0, e.0@) {
                        let j = choose|j: int|
                            0 <= j < self.entries@.subrange(0, i as int).len()
                                && self.entries@.subrange(0, i as int)[j].0@ == e.0@;
                        assert(self.entries@[j].0@ == self.entries@[i as int].0@);
                        assert(false);
                    }
                }
                out.push(e);
            }
            proof {
                lemma_rebuild_step(o0, out@, self.entries@, i as int, id@, e);
            }
            i = i + 1;
        }
        proof {
            assert(self.entries@.subrange(0, n as int) =~= self.entries@);
        }
        out
    }
}

/// One filtering step keeps the membership and the values exact.
proof fn lemma_rebuild_step(
    o0: Seq<(BlockId, ErrorCounter)>,
    o1: Seq<(BlockId, ErrorCounter)>,
    s: Seq<(BlockId, ErrorCounter)>,
    i: int,
    id: Seq<u8>,
    e: (BlockId, ErrorCounter),
)
    requires
        0 <= i < s.len(),
        s[i] == e,
        e.0@ == id ==> o1 == o0,
        e.0@ != id ==> o1 == o0.push(e),
        forall|k: Seq<u8>| #[trigger]
            list_has_id(o0, k) <==> (list_has_id(s.subrange(0, i), k) && k != id),
        forall|k: Seq<u8>|
            list_has_id(o0, k) ==> #[trigger] list_counter_of(o0, k) == list_counter_of(
                s.subrange(0, i),
                k,
            ),
    ensures
        forall|k: Seq<u8>| #[trigger]
            list_has_id(o1, k) <==> (list_has_id(s.subrange(0, i + 1), k) && k != id),
        forall|k: Seq<u8>|
            list_has_id(o1, k) ==> #[trigger] list_counter_of(o1, k) == list_counter_of(
                s.subrange(0, i + 1),
                k,
            ),
{
    let pre = s.subrange(0, i);
    let cur = s.subrange(0, i + 1);
    assert(cur.drop_last() =~= pre);
    assert(cur.last() == e);
    assert forall|k: Seq<u8>| #[trigger]
        list_has_id(o1, k) <==> (list_has_id(s.subrange(0, i + 1), k) && k != id) by {
        if list_has_id(o0, k) {
            let j = choose|j: int| 0 <= j < o0.len() && o0[j].0@ == k;
            assert(o1[j].0@ == k);
        }
        if list_has_id(pre, k) {
            let j = choose|j: int| 0 <= j < pre.len() && pre[j].0@ == k;
            assert(cur[j].0@ == k);
        }
        if e.0@ == k && e.0@ != id {
            assert(o1[o0.len() as int].0@ == k);
            assert(cur[i].0@ == k);
        }
        if list_has_id(o1, k) {
            let j = choose|j: int| 0 <= j < o1.len() && o1[j].0@ == k;
            if j < o0.len() {
                assert(o0[j].0@ == k);
            } else {
                assert(o1 == o0.push(e));
                assert(e.0@ == k && e.0@ != id);
            }
        }
        if list_has_id(cur, k) {
            let j = choose|j: int| 0 <= j < cur.len() && cur[j].0@ == k;
            if j < pre.len() {
                assert(pre[j].0@ == k);
            } else {
                assert(e.0@ == k);
                if k != id {
                    assert(o1 == o0.push(e));
                    assert(o1[o0.len() as int].0@ == k);
                }
            }
        }
    }
    assert forall|k: Seq<u8>| list_has_id(o1, k) implies #[trigger] list_counter_of(o1, k)
        == list_counter_of(s.subrange(0, i + 1), k) by {
        if e.0@ != id {
            assert(o1 == o0.push(e));
            assert(o1.drop_last() =~= o0);
            assert(o1.last() == e);
            if e.0@ == k {
                assert(list_counter_of(o1, k) == e.1);
                assert(list_counter_of(cur, k) == e.1);
            } else {
                assert(list_counter_of(o1, k) == list_counter_of(o0, k));
                assert(list_counter_of(cur, k) == list_counter_of(pre, k));
                assert(list_has_id(o0, k));
            }
        } else {
            assert(o1 == o0);
            assert(e.0@ != k);
            assert(list_counter_of(cur, k) == list_counter_of(pre, k));
        }
    }
}

/// With unique ids the map's domain is finite and counts the entries.
proof fn lemma_model_dom_len(s: Seq<(BlockId, ErrorCounter)>)
    requires
        unique_ids(s),
    ensures
        Set::new(|k: Seq<u8>| list_has_id(s, k)).finite(),
        Set::new(|k: Seq<u8>| list_has_id(s, k)).len() == s.len(),
    decreases s.len(),
{
    let d = Set::new(|k: Seq<u8>| list_has_id(s, k));
    if s.len() == 0 {
        assert(d =~= Set::<Seq<u8>>::empty());
    } else {
        let pre = s.drop_last();
        let dp = Set::new(|k: Seq<u8>| list_has_id(pre, k));
        assert forall|k: Seq<u8>| #[trigger] list_has_id(s, k) <==> (list_has_id(pre, k) || k
            == s.last().0@) by {
            if list_has_id(pre, k) {
                let j = choose|j: int| 0 <= j < pre.len() && pre[j].0@ == k;
                assert(s[j].0@ == k);
            }
            if list_has_id(s, k) {
                let j = choose|j: int| 0 <= j < s.len() && s[j].0@ == k;
                if j < pre.len() {
                    assert(pre[j].0@ == k);
                }
            }
            if k == s.last().0@ {
                assert(s[s.len() - 1].0@ == k);
            }
        }
        assert(d =~= dp.insert(s.last().0@));
        lemma_model_dom_len(pre);
        if list_has_id(pre, s.last().0@) {
            let j = choose|j: int| 0 <= j < pre.len() && pre[j].0@ == s.last().0@;
            assert(s[j].0@ == s[s.len() - 1].0@);
            assert(false);
        }
    }
}

} // verus!
