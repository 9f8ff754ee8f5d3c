//! The log service's commit tracker: a per-key watermark holding the highest
//! committed offset seen for that key. Watermarks never decrease, and a key
//! with no recorded commit is omitted from listings rather than defaulted.

use vstd::prelude::*;
use vstd::map::*;

verus! {

/// The watermark recorded for key `k`; a key with no prior commit counts as 0
/// for the purpose of taking a maximum.
pub open spec fn committed_of(m: Map<Seq<char>, u64>, k: Seq<char>) -> u64 {
    if m.contains_key(k) {
        m[k]
    } else {
        0
    }
}

/// The committed map after a commit of offset `off` for key `k`: the key
/// becomes recorded, at the maximum of the requested offset and its prior
/// watermark.
pub open spec fn commit_spec(m: Map<Seq<char>, u64>, k: Seq<char>, off: u64) -> Map<Seq<char>, u64> {
    m.insert(
        k,
        if off > committed_of(m, k) {
            off
        } else {
            committed_of(m, k)
        },
    )
}

/// The committed map after a batch of commits, applied in request order.
pub open spec fn commit_all(m: Map<Seq<char>, u64>, reqs: Seq<(Seq<char>, u64)>) -> Map<Seq<char>, u64>
    decreases reqs.len(),
{
    if reqs.len() == 0 {
        m
    } else {
        commit_spec(commit_all(m, reqs.drop_last()), reqs.last().0, reqs.last().1)
    }
}

/// The listing for a batch of requested keys, in request order: one entry per
/// requested key that has a recorded commit, carrying its watermark; keys
/// never committed contribute nothing.
pub open spec fn list_spec(m: Map<Seq<char>, u64>, keys: Seq<Seq<char>>) -> Seq<(Seq<char>, u64)>
    decreases keys.len(),
{
    if keys.len() == 0 {
        Seq::empty()
    } else {
        let rest = list_spec(m, keys.drop_last());
        if m.contains_key(keys.last()) {
            rest.push((keys.last(), m[keys.last()]))
        } else {
            rest
        }
    }
}

spec fn keys_unique(s: Seq<(String, u64)>) -> bool {
    forall|i: int, j: int| 0 <= i < j < s.len() ==> s[i].0@ != s[j].0@
}

spec fn map_of(s: Seq<(String, u64)>) -> Map<Seq<char>, u64>
    decreases s.len(),
{
    if s.len() == 0 {
        Map::empty()
    } else {
        map_of(s.drop_last()).insert(s.last().0@, s.last().1)
    }
}

proof fn lemma_keys_unique_drop_last(s: Seq<(String, u64)>)
    requires
        keys_unique(s),
        s.len() > 0,
    ensures
        keys_unique(s.drop_last()),
{
    assert forall|i: int, j: int| 0 <= i < j < s.drop_last().len() implies
        s.drop_last()[i].0@ != s.drop_last()[j].0@ by {
        assert(s[i].0@ != s[j].0@);
    }
}

proof fn lemma_map_of_index(s: Seq<(String, u64)>, i: int)
    requires
        keys_unique(s),
        0 <= i < s.len(),
    ensures
        map_of(s).contains_key(s[i].0@),
        map_of(s)[s[i].0@] == s[i].1,
    decreases s.len(),
{
    if i < s.len() - 1 {
        lemma_keys_unique_drop_last(s);
        lemma_map_of_index(s.drop_last(), i);
        assert(s[i].0@ != s.last().0@);
    }
}

proof fn lemma_map_of_absent(s: Seq<(String, u64)>, k: Seq<char>)
    requires
        forall|i: int| 0 <= i < s.len() ==> s[i].0@ != k,
    ensures
        !map_of(s).contains_key(k),
    decreases s.len(),
{
    if s.len() > 0 {
        assert(forall|i: int| 0 <= i < s.drop_last().len() ==> s.drop_last()[i].0@ != k);
        lemma_map_of_absent(s.drop_last(), k);
        assert(s.last().0@ != k);
    }
}

proof fn lemma_map_of_update(s: Seq<(String, u64)>, i: int, p: (String, u64))
    requires
        keys_unique(s),
        0 <= i < s.len(),
        p.0@ == s[i].0@,
    ensures
        keys_unique(s.update(i, p)),
        map_of(s.update(i, p)) == map_of(s).insert(p.0@, p.1),
    decreases s.len(),
{
    assert forall|a: int, b: int| 0 <= a < b < s.update(i, p).len() implies
        s.update(i, p)[a].0@ != s.update(i, p)[b].0@ by {
        assert(s[a].0@ != s[b].0@);
    }
    if i == s.len() - 1 {
        assert(s.update(i, p).drop_last() =~= s.drop_last());
        assert(s.update(i, p).last() == p);
        assert(map_of(s.drop_last()).insert(s.last().0@, s.last().1).insert(p.0@, p.1)
            =~= map_of(s.drop_last()).insert(p.0@, p.1));
    } else {
        lemma_keys_unique_drop_last(s);
        assert(s.update(i, p).drop_last() =~= s.drop_last().update(i, p));
        lemma_map_of_update(s.drop_last(), i, p);
        assert(s.update(i, p).last() == s.last());
        assert(s.last().0@ != p.0@);
        assert(map_of(s.drop_last()).insert(p.0@, p.1).insert(s.last().0@, s.last().1)
            =~= map_of(s.drop_last()).insert(s.last().0@, s.last().1).insert(p.0@, p.1));
    }
}

proof fn lemma_map_of_push(s: Seq<(String, u64)>, p: (String, u64))
    requires
        keys_unique(s),
        forall|i: int| 0 <= i < s.len() ==> s[i].0@ != p.0@,
    ensures
        keys_unique(s.push(p)),
        map_of(s.push(p)) == map_of(s).insert(p.0@, p.1),
{
    assert forall|a: int, b: int| 0 <= a < b < s.push(p).len() implies
        s.push(p)[a].0@ != s.push(p)[b].0@ by {
        if b < s.len() {
            assert(s[a].0@ != s[b].0@);
        } else {
            assert(s[a].0@ != p.0@);
        }
    }
    assert(s.push(p).drop_last() =~= s);
    assert(s.push(p).last() == p);
}

/// Mapping from key to the highest committed offset seen for that key.
///
/// Held as an association vector with pairwise distinct keys; its
/// mathematical view is the induced map.
pub struct CommittedOffsets {
    entries: Vec<(String, u64)>,
}

impl View for CommittedOffsets {
    type V = Map<Seq<char>, u64>;

    closed spec fn view(&self) -> Map<Seq<char>, u64> {
        map_of(self.entries@)
    }
}

impl CommittedOffsets {
    /// No two entries share a key.
    pub closed spec fn wf(&self) -> bool {
        keys_unique(self.entries@)
    }

    /// An empty tracker, as created at node start.
    pub fn new() -> (c: CommittedOffsets)
        ensures
            c.wf(),
            c@ == Map::<Seq<char>, u64>::empty(),
    {
        CommittedOffsets { entries: Vec::new() }
    }

    fn find(&self, key: &String) -> (r: Option<usize>)
        ensures
            match r {
                Some(i) => i < self.entries@.len() && self.entries@[i as int].0@ == key@,
                None => forall|i: int|
                    0 <= i < self.entries@.len() ==> self.entries@[i].0@ != key@,
            },
    {
        let mut i: usize = 0;
        while i < self.entries.len()
            invariant
                i <= self.entries.len(),
                forall|j: int| 0 <= j < i ==> self.entries@[j].0@ != key@,
            decreases self.entries.len() - i,
        {
            if self.entries[i].0 == *key {
                return Some(i);
            }
            i += 1;
        }
        None
    }

    /// Raise the watermark of `key` to `off` if that is higher than what is
    /// recorded; a commit below the recorded watermark is a no-op, never a
    /// rollback. Either way the key has a recorded commit afterwards.
    pub fn commit(&mut self, key: String, off: u64)
        requires
            old(self).wf(),
        ensures
            final(self).wf(),
            final(self)@ == commit_spec(old(self)@, key@, off),
    {
        match self.find(&key) {
            Some(i) => {
                proof {
                    lemma_map_of_index(self.entries@, i as int);
                }
                if off > self.entries[i].1 {
                    self.entries[i].1 = off;
                    proof {
                        let prior = old(self).entries@;
                        let p = self.entries@[i as int];
                        assert(self.entries@ == prior.update(i as int, p));
                        lemma_map_of_update(prior, i as int, p);
                    }
                } else {
                    proof {
                        assert(old(self)@.insert(key@, old(self)@[key@]) =~= old(self)@);
                    }
                }
            },
            None => {
                proof {
                    lemma_map_of_absent(self.entries@, key@);
                }
                self.entries.push((key, off));
                proof {
                    let prior = old(self).entries@;
                    let p = self.entries@.last();
                    assert(self.entries@ == prior.push(p));
                    lemma_map_of_push(prior, p);
                }
            },
        }
    }

    /// The recorded watermark of `key`: `Some` exactly when some commit for
    /// `key` has been recorded.
    pub fn get(&self, key: &String) -> (r: Option<u64>)
        requires
            self.wf(),
        ensures
            (match r {
                Some(off) => self@.contains_key(key@) && off == self@[key@],
                None => !self@.contains_key(key@),
            }),
    {
        match self.find(key) {
            Some(i) => {
                proof {
                    lemma_map_of_index(self.entries@, i as int);
                }
                Some(self.entries[i].1)
            },
            None => {
                proof {
                    lemma_map_of_absent(self.entries@, key@);
                }
                None
            },
        }
    }

    /// The listing for a batch of requested keys: one `(key, watermark)` pair
    /// per requested key with a recorded commit, in request order; requested
    /// keys never committed are omitted.
    pub fn list(&self, keys: &Vec<String>) -> (r: Vec<(String, u64)>)
        requires
            self.wf(),
        ensures
            r@.map_values(|p: (String, u64)| (p.0@, p.1))
                == list_spec(self@, keys@.map_values(|s: String| s@)),
    {
        let ghost kv = keys@.map_values(|s: String| s@);
        let mut r: Vec<(String, u64)> = Vec::new();
        let mut i: usize = 0;
        while i < keys.len()
            invariant
                i <= keys.len(),
                self.wf(),
                kv == keys@.map_values(|s: String| s@),
                r@.map_values(|p: (String, u64)| (p.0@, p.1)) == list_spec(self@, kv.take(i as int)),
            decreases keys.len() - i,
        {
            let ghost r_pre = r@;
            match self.get(&keys[i]) {
                Some(off) => {
                    r.push((keys[i].clone(), off));
                    proof {
                        assert(r@ == r_pre.push((keys@[i as int], off)));
                        assert(r@.map_values(|p: (String, u64)| (p.0@, p.1))
                            =~= r_pre.map_values(|p: (String, u64)| (p.0@, p.1))
                                .push((keys@[i as int]@, off)));
                    }
                },
                None => {},
            }
            proof {
                assert(kv.take(i + 1).drop_last() =~= kv.take(i as int));
                assert(kv.take(i + 1).last() == kv[i as int]);
                assert(kv[i as int] == keys@[i as int]@);
            }
            i += 1;
        }
        proof {
            assert(kv.take(kv.len() as int) =~= kv);
        }
        r
    }
}

/// A commit never lowers a key's watermark: afterwards it is at least what
/// was recorded before, and at least the offset just committed.
pub proof fn lemma_commit_never_regresses(m: Map<Seq<char>, u64>, k: Seq<char>, off: u64)
    ensures
        committed_of(commit_spec(m, k, off), k) >= committed_of(m, k),
        committed_of(commit_spec(m, k, off), k) >= off,
{
}

/// Monotonic commit: committing a lower offset `a` after a higher offset `b`
/// for the same key leaves the committed map exactly as it stood after `b` —
/// in particular the key's watermark stays at least `b`.
pub proof fn lemma_commit_monotonic(m: Map<Seq<char>, u64>, k: Seq<char>, a: u64, b: u64)
    requires
        a < b,
    ensures
        commit_spec(commit_spec(m, k, b), k, a) == commit_spec(m, k, b),
        committed_of(commit_spec(m, k, b), k) >= b,
{
    let m1 = commit_spec(m, k, b);
    assert(m1[k] >= b);
    assert(m1.insert(k, m1[k]) =~= m1);
}

/// Every entry the listing yields belongs to a key with a recorded commit and
/// carries exactly its watermark.
pub proof fn lemma_list_entries_recorded(m: Map<Seq<char>, u64>, keys: Seq<Seq<char>>)
    ensures
        forall|j: int| 0 <= j < list_spec(m, keys).len() ==>
            m.contains_key(#[trigger] list_spec(m, keys)[j].0)
                && list_spec(m, keys)[j].1 == m[list_spec(m, keys)[j].0],
    decreases keys.len(),
{
    if keys.len() > 0 {
        lemma_list_entries_recorded(m, keys.drop_last());
        let rest = list_spec(m, keys.drop_last());
        assert forall|j: int| 0 <= j < list_spec(m, keys).len() implies
            m.contains_key(#[trigger] list_spec(m, keys)[j].0)
                && list_spec(m, keys)[j].1 == m[list_spec(m, keys)[j].0] by {
            if j < rest.len() {
                assert(list_spec(m, keys)[j] == rest[j]);
            }
        }
    }
}

/// List-committed omission: a key never committed yields no entry at all in a
/// listing, whatever keys were requested — it is not reported as 0.
pub proof fn lemma_list_committed_omission(m: Map<Seq<char>, u64>, keys: Seq<Seq<char>>, k: Seq<char>)
    requires
        !m.contains_key(k),
    ensures
        forall|j: int| 0 <= j < list_spec(m, keys).len() ==>
            #[trigger] list_spec(m, keys)[j].0 != k,
{
    lemma_list_entries_recorded(m, keys);
}

} // verus!
