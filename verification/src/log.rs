//! The log service's store: a mapping from key to an append-only sequence of
//! opaque values. Offsets are dense and zero-based: the offset assigned to an
//! append is the length of the key's sequence just before it.

use vstd::prelude::*;
use vstd::map::*;
use serde_json::Value;

verus! {

/// The sequence stored for key `k`; a key that is absent from the map holds
/// the implicit empty sequence.
pub open spec fn log_of(m: Map<Seq<char>, Seq<Value>>, k: Seq<char>) -> Seq<Value> {
    if m.contains_key(k) {
        m[k]
    } else {
        Seq::empty()
    }
}

/// The log map after appending each element of `vals`, in order, to key `k`.
/// Each step extends the key's sequence by one value, exactly as one append
/// does.
pub open spec fn append_all(
    m: Map<Seq<char>, Seq<Value>>,
    k: Seq<char>,
    vals: Seq<Value>,
) -> Map<Seq<char>, Seq<Value>>
    decreases vals.len(),
{
    if vals.len() == 0 {
        m
    } else {
        let prev = append_all(m, k, vals.drop_last());
        prev.insert(k, log_of(prev, k).push(vals.last()))
    }
}

spec fn keys_unique(s: Seq<(String, Vec<Value>)>) -> bool {
    forall|i: int, j: int| 0 <= i < j < s.len() ==> s[i].0@ != s[j].0@
}

spec fn map_of(s: Seq<(String, Vec<Value>)>) -> Map<Seq<char>, Seq<Value>>
    decreases s.len(),
{
    if s.len() == 0 {
        Map::empty()
    } else {
        map_of(s.drop_last()).insert(s.last().0@, s.last().1@)
    }
}

proof fn lemma_keys_unique_drop_last(s: Seq<(String, Vec<Value>)>)
    requires
        keys_unique(s),
        s.len() > 0,
    ensures
        keys_unique(s.drop_last()),
{
    assert forall|i: int, j: int| 0 <= i < j < s.drop_last().len() implies
        s.drop_last()[i].0@ != s.drop_last()[j].0@ by {
        assert(s[i].0@ != s[j].0@);
    }
}

proof fn lemma_map_of_index(s: Seq<(String, Vec<Value>)>, i: int)
    requires
        keys_unique(s),
        0 <= i < s.len(),
    ensures
        map_of(s).contains_key(s[i].0@),
        map_of(s)[s[i].0@] == s[i].1@,
    decreases s.len(),
{
    if i < s.len() - 1 {
        lemma_keys_unique_drop_last(s);
        lemma_map_of_index(s.drop_last(), i);
        assert(s[i].0@ != s.last().0@);
    }
}

proof fn lemma_map_of_absent(s: Seq<(String, Vec<Value>)>, k: Seq<char>)
    requires
        forall|i: int| 0 <= i < s.len() ==> s[i].0@ != k,
    ensures
        !map_of(s).contains_key(k),
    decreases s.len(),
{
    if s.len() > 0 {
        assert(forall|i: int| 0 <= i < s.drop_last().len() ==> s.drop_last()[i].0@ != k);
        lemma_map_of_absent(s.drop_last(), k);
        assert(s.last().0@ != k);
    }
}

proof fn lemma_map_of_update(s: Seq<(String, Vec<Value>)>, i: int, p: (String, Vec<Value>))
    requires
        keys_unique(s),
        0 <= i < s.len(),
        p.0@ == s[i].0@,
    ensures
        keys_unique(s.update(i, p)),
        map_of(s.update(i, p)) == map_of(s).insert(p.0@, p.1@),
    decreases s.len(),
{
    assert forall|a: int, b: int| 0 <= a < b < s.update(i, p).len() implies
        s.update(i, p)[a].0@ != s.update(i, p)[b].0@ by {
        assert(s[a].0@ != s[b].0@);
    }
    if i == s.len() - 1 {
        assert(s.update(i, p).drop_last() =~= s.drop_last());
        assert(s.update(i, p).last() == p);
        assert(map_of(s.drop_last()).insert(s.last().0@, s.last().1@).insert(p.0@, p.1@)
            =~= map_of(s.drop_last()).insert(p.0@, p.1@));
    } else {
        lemma_keys_unique_drop_last(s);
        assert(s.update(i, p).drop_last() =~= s.drop_last().update(i, p));
        lemma_map_of_update(s.drop_last(), i, p);
        assert(s.update(i, p).last() == s.last());
        assert(s.last().0@ != p.0@);
        assert(map_of(s.drop_last()).insert(p.0@, p.1@).insert(s.last().0@, s.last().1@)
            =~= map_of(s.drop_last()).insert(s.last().0@, s.last().1@).insert(p.0@, p.1@));
    }
}

proof fn lemma_map_of_push(s: Seq<(String, Vec<Value>)>, p: (String, Vec<Value>))
    requires
        keys_unique(s),
        forall|i: int| 0 <= i < s.len() ==> s[i].0@ != p.0@,
    ensures
        keys_unique(s.push(p)),
        map_of(s.push(p)) == map_of(s).insert(p.0@, p.1@),
{
    assert forall|a: int, b: int| 0 <= a < b < s.push(p).len() implies
        s.push(p)[a].0@ != s.push(p)[b].0@ by {
        if b < s.len() {
            assert(s[a].0@ != s[b].0@);
        } else {
            assert(s[a].0@ != p.0@);
        }
    }
    assert(s.push(p).drop_last() =~= s);
    assert(s.push(p).last() == p);
}

/// Mapping from key to an ordered, append-only sequence of opaque values.
///
/// Held as an association vector with pairwise distinct keys; its
/// mathematical view is the induced map.
pub struct KeyedLog {
    entries: Vec<(String, Vec<Value>)>,
}

impl View for KeyedLog {
    type V = Map<Seq<char>, Seq<Value>>;

    closed spec fn view(&self) -> Map<Seq<char>, Seq<Value>> {
        map_of(self.entries@)
    }
}

impl KeyedLog {
    /// No two entries share a key.
    pub closed spec fn wf(&self) -> bool {
        keys_unique(self.entries@)
    }

    /// An empty log, as created at node start.
    pub fn new() -> (l: KeyedLog)
        ensures
            l.wf(),
            l@ == Map::<Seq<char>, Seq<Value>>::empty(),
    {
        KeyedLog { entries: Vec::new() }
    }

    fn find(&self, key: &String) -> (r: Option<usize>)
        ensures
            match r {
                Some(i) => i < self.entries@.len() && self.entries@[i as int].0@ == key@,
                None => forall|i: int|
                    0 <= i < self.entries@.len() ==> self.entries@[i].0@ != key@,
            },
    {
        let mut i: usize = 0;
        while i < self.entries.len()
            invariant
                i <= self.entries.len(),
                forall|j: int| 0 <= j < i ==> self.entries@[j].0@ != key@,
            decreases self.entries.len() - i,
        {
            if self.entries[i].0 == *key {
                return Some(i);
            }
            i += 1;
        }
        None
    }

    /// Append `v` to the sequence for `key`, creating the sequence if the key
    /// is fresh. Returns the assigned offset: the length of the key's
    /// sequence before the append, so a fresh key's first value gets offset 0.
    pub fn append(&mut self, key: String, v: Value) -> (off: usize)
        requires
            old(self).wf(),
        ensures
            final(self).wf(),
            off == log_of(old(self)@, key@).len(),
            final(self)@ == old(self)@.insert(key@, log_of(old(self)@, key@).push(v)),
    {
        match self.find(&key) {
            Some(i) => {
                proof {
                    lemma_map_of_index(self.entries@, i as int);
                }
                let off = self.entries[i].1.len();
                self.entries[i].1.push(v);
                proof {
                    let prior = old(self).entries@;
                    let p = self.entries@[i as int];
                    assert(self.entries@ == prior.update(i as int, p));
                    assert(p.0@ == prior[i as int].0@);
                    assert(p.1@ == prior[i as int].1@.push(v));
                    lemma_map_of_update(prior, i as int, p);
                }
                off
            },
            None => {
                proof {
                    lemma_map_of_absent(self.entries@, key@);
                }
                let mut list: Vec<Value> = Vec::new();
                list.push(v);
                self.entries.push((key, list));
                proof {
                    let prior = old(self).entries@;
                    let p = self.entries@.last();
                    assert(self.entries@ == prior.push(p));
                    lemma_map_of_push(prior, p);
                    assert(p.1@ =~= log_of(old(self)@, key@).push(v));
                }
                0
            },
        }
    }

    /// Look up the entry of `key` at offset `off`: `Some` exactly when the
    /// key's sequence reaches past `off`, and then the entry at `off` itself.
    pub fn get(&self, key: &String, off: u64) -> (r: Option<&Value>)
        requires
            self.wf(),
        ensures
            (match r {
                Some(v) => off < log_of(self@, key@).len()
                    && *v == log_of(self@, key@)[off as int],
                None => off >= log_of(self@, key@).len(),
            }),
    {
        match self.find(key) {
            Some(i) => {
                proof {
                    lemma_map_of_index(self.entries@, i as int);
                }
                let list = &self.entries[i].1;
                if off < list.len() as u64 {
                    Some(&list[off as usize])
                } else {
                    None
                }
            },
            None => {
                proof {
                    lemma_map_of_absent(self.entries@, key@);
                }
                None
            },
        }
    }
}

/// Appending a batch to one key extends exactly that key's sequence, in
/// order, and leaves every other key's sequence unchanged.
pub proof fn lemma_append_all(m: Map<Seq<char>, Seq<Value>>, k: Seq<char>, vals: Seq<Value>)
    ensures
        log_of(append_all(m, k, vals), k) == log_of(m, k) + vals,
        forall|k2: Seq<char>| k2 != k ==>
            #[trigger] log_of(append_all(m, k, vals), k2) == log_of(m, k2),
    decreases vals.len(),
{
    if vals.len() == 0 {
        assert(log_of(m, k) + vals =~= log_of(m, k));
    } else {
        lemma_append_all(m, k, vals.drop_last());
        assert((log_of(m, k) + vals.drop_last()).push(vals.last()) =~= log_of(m, k) + vals);
        assert forall|k2: Seq<char>| k2 != k implies
            #[trigger] log_of(append_all(m, k, vals), k2) == log_of(m, k2) by {
            assert(log_of(append_all(m, k, vals.drop_last()), k2) == log_of(m, k2));
        }
    }
}

/// Dense offsets: during a run of sequential appends of `vals` to key `k`,
/// the offset assigned to the `i`-th append — the length of `k`'s sequence
/// once the first `i` values are in — is the starting length plus `i`. From
/// a fresh key the run is assigned exactly the offsets `0 .. vals.len() - 1`,
/// in order, with no gap and no duplicate.
pub proof fn lemma_dense_offsets(
    m: Map<Seq<char>, Seq<Value>>,
    k: Seq<char>,
    vals: Seq<Value>,
    i: int,
)
    requires
        0 <= i <= vals.len(),
    ensures
        log_of(append_all(m, k, vals.take(i)), k).len() == log_of(m, k).len() + i,
{
    lemma_append_all(m, k, vals.take(i));
}

/// Poll exactness: after a run of appends of `vals` to a previously unknown
/// key `k`, the sequence held for `k` is exactly `vals` — so a lookup at
/// offset `i < vals.len()` yields precisely `vals[i]`, and a lookup at or
/// past `vals.len()` yields nothing.
pub proof fn lemma_poll_after_appends(
    m: Map<Seq<char>, Seq<Value>>,
    k: Seq<char>,
    vals: Seq<Value>,
)
    requires
        !m.contains_key(k),
    ensures
        log_of(append_all(m, k, vals), k) == vals,
{
    lemma_append_all(m, k, vals);
    assert(log_of(m, k) + vals =~= vals);
}

} // verus!
