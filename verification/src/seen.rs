//! The broadcast service's store: the set of distinct integers this node has
//! observed. Values are only ever added, never removed, and membership is the
//! only observable property.

use vstd::prelude::*;

verus! {

/// Set of distinct 64-bit integers observed by this node.
///
/// Held as a vector without duplicates; its mathematical view is the set of
/// its elements.
pub struct SeenSet {
    values: Vec<i64>,
}

impl View for SeenSet {
    type V = Set<i64>;

    closed spec fn view(&self) -> Set<i64> {
        self.values@.to_set()
    }
}

impl SeenSet {
    /// The vector holds each observed value exactly once.
    pub closed spec fn wf(&self) -> bool {
        self.values@.no_duplicates()
    }

    /// An empty store, as created at node start.
    pub fn new() -> (s: SeenSet)
        ensures
            s.wf(),
            s@ == Set::<i64>::empty(),
    {
        let values: Vec<i64> = Vec::new();
        proof {
            assert(values@.to_set() =~= Set::<i64>::empty());
        }
        SeenSet { values }
    }

    /// Whether `v` has been observed.
    pub fn contains(&self, v: i64) -> (r: bool)
        ensures
            r == self@.contains(v),
    {
        let mut i: usize = 0;
        while i < self.values.len()
            invariant
                i <= self.values.len(),
                forall|j: int| 0 <= j < i ==> self.values@[j] != v,
            decreases self.values.len() - i,
        {
            if self.values[i] == v {
                proof {
                    assert(self.values@.contains(v)) by {
                        assert(self.values@[i as int] == v);
                    }
                }
                return true;
            }
            i += 1;
        }
        proof {
            assert(!self.values@.contains(v));
        }
        false
    }

    /// Record `v` as observed. Duplicate inserts are no-ops.
    pub fn insert(&mut self, v: i64)
        requires
            old(self).wf(),
        ensures
            final(self).wf(),
            final(self)@ == old(self)@.insert(v),
    {
        if !self.contains(v) {
            proof {
                assert(forall|j: int|
                    0 <= j < self.values@.len() ==> self.values@[j] != v);
            }
            self.values.push(v);
            proof {
                let prior = old(self).values@;
                assert(self.values@ == prior.push(v));
                assert(self.values@.no_duplicates());
                prior.lemma_push_to_set_commute(v);
                assert(self@ == old(self)@.insert(v));
            }
        } else {
            proof {
                assert(old(self)@.insert(v) =~= old(self)@);
            }
        }
    }

    /// Union a batch of values into the store, as after a successful pull of
    /// the leader's set. Merging never removes anything.
    pub fn merge(&mut self, vs: &Vec<i64>)
        requires
            old(self).wf(),
        ensures
            final(self).wf(),
            final(self)@ == old(self)@.union(vs@.to_set()),
    {
        let ghost base = old(self)@;
        let mut i: usize = 0;
        while i < vs.len()
            invariant
                i <= vs.len(),
                self.wf(),
                self@ == base.union(vs@.take(i as int).to_set()),
            decreases vs.len() - i,
        {
            let ghost before = self@;
            self.insert(vs[i]);
            proof {
                let part = vs@.take(i as int);
                assert(vs@.take(i + 1).drop_last() =~= part);
                assert(vs@.take(i + 1).last() == vs@[i as int]);
                part.lemma_push_to_set_commute(vs@[i as int]);
                assert(part.push(vs@[i as int]) =~= vs@.take(i + 1));
                assert(before.insert(vs@[i as int])
                    =~= base.union(vs@.take(i + 1).to_set()));
            }
            i += 1;
        }
        proof {
            assert(vs@.take(vs@.len() as int) =~= vs@);
        }
    }

    /// A snapshot of everything observed so far: each value exactly once, in
    /// no promised order.
    pub fn snapshot(&self) -> (r: Vec<i64>)
        requires
            self.wf(),
        ensures
            r@.to_set() == self@,
            r@.no_duplicates(),
    {
        let mut r: Vec<i64> = Vec::new();
        let mut i: usize = 0;
        while i < self.values.len()
            invariant
                i <= self.values.len(),
                r@ == self.values@.take(i as int),
            decreases self.values.len() - i,
        {
            r.push(self.values[i]);
            proof {
                assert(self.values@.take(i + 1)
                    =~= self.values@.take(i as int).push(self.values@[i as int]));
            }
            i += 1;
        }
        proof {
            assert(r@ =~= self.values@);
        }
        r
    }
}

} // verus!
