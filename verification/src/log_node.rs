//! The log coordinator: a per-key append-only log with offset-addressed
//! polling, beside an independently tracked monotonic commit watermark per
//! key. "What has been written" and "what has been consumed" are deliberately
//! separate structures. All state is node-local: the log service does not
//! replicate across nodes.

use vstd::prelude::*;
use serde_json::Value;
use crate::commits::{commit_all, CommittedOffsets, list_spec};
use crate::log::{log_of, KeyedLog};
use crate::values::clone_value;

verus! {

/// The log coordinator of one node: the per-key log and the per-key
/// committed watermarks.
pub struct LogNode {
    log: KeyedLog,
    commits: CommittedOffsets,
}

impl LogNode {
    /// Both stores are well-formed.
    pub closed spec fn wf(&self) -> bool {
        self.log.wf() && self.commits.wf()
    }

    /// The mapping from key to its appended sequence.
    pub closed spec fn log_map(&self) -> Map<Seq<char>, Seq<Value>> {
        self.log@
    }

    /// The mapping from key to its committed watermark.
    pub closed spec fn committed_map(&self) -> Map<Seq<char>, u64> {
        self.commits@
    }

    /// A fresh coordinator: no key holds anything, nothing is committed.
    pub fn new() -> (n: LogNode)
        ensures
            n.wf(),
            n.log_map() == Map::<Seq<char>, Seq<Value>>::empty(),
            n.committed_map() == Map::<Seq<char>, u64>::empty(),
    {
        LogNode { log: KeyedLog::new(), commits: CommittedOffsets::new() }
    }

    /// Handle `send`: append the value to the key's sequence and return the
    /// assigned offset — the sequence's length just before the append, so a
    /// fresh key's first value gets offset 0 and offsets stay dense.
    pub fn on_send(&mut self, key: String, value: Value) -> (off: usize)
        requires
            old(self).wf(),
        ensures
            final(self).wf(),
            off == log_of(old(self).log_map(), key@).len(),
            final(self).log_map() == old(self).log_map().insert(
                key@,
                log_of(old(self).log_map(), key@).push(value),
            ),
            final(self).committed_map() == old(self).committed_map(),
    {
        self.log.append(key, value)
    }

    /// Handle `poll`: for each requested key, exactly the single entry at the
    /// requested offset — not the remainder of the log — or nothing when the
    /// key is unknown or the offset is past the end. Results come in request
    /// order, one per requested key.
    pub fn on_poll(&self, requests: &Vec<(String, u64)>) -> (r: Vec<(String, Option<(u64, Value)>)>)
        requires
            self.wf(),
        ensures
            r@.len() == requests@.len(),
            forall|i: int| 0 <= i < r@.len() ==> (#[trigger] r@[i]).0@ == requests@[i].0@,
            forall|i: int| 0 <= i < r@.len() ==> (match (#[trigger] r@[i]).1 {
                Some(p) => requests@[i].1 < log_of(self.log_map(), requests@[i].0@).len()
                    && p.0 == requests@[i].1
                    && p.1 == log_of(self.log_map(), requests@[i].0@)[requests@[i].1 as int],
                None => requests@[i].1 >= log_of(self.log_map(), requests@[i].0@).len(),
            }),
    {
        let mut r: Vec<(String, Option<(u64, Value)>)> = Vec::new();
        let mut i: usize = 0;
        while i < requests.len()
            invariant
                i <= requests.len(),
                self.wf(),
                r@.len() == i,
                forall|j: int| 0 <= j < i ==> (#[trigger] r@[j]).0@ == requests@[j].0@,
                forall|j: int| 0 <= j < i ==> (match (#[trigger] r@[j]).1 {
                    Some(p) => requests@[j].1 < log_of(self.log_map(), requests@[j].0@).len()
                        && p.0 == requests@[j].1
                        && p.1 == log_of(self.log_map(), requests@[j].0@)[requests@[j].1 as int],
                    None => requests@[j].1 >= log_of(self.log_map(), requests@[j].0@).len(),
                }),
            decreases requests.len() - i,
        {
            let key = &requests[i].0;
            let off = requests[i].1;
            match self.log.get(key, off) {
                Some(v) => {
                    let entry = clone_value(v);
                    r.push((key.clone(), Some((off, entry))));
                },
                None => {
                    r.push((key.clone(), None));
                },
            }
            i += 1;
        }
        r
    }

    /// Handle `commit_offsets`: raise each requested key's watermark to the
    /// requested offset where that is higher, in request order; no watermark
    /// ever decreases, and the log itself is untouched.
    pub fn on_commit_offsets(&mut self, requests: &Vec<(String, u64)>)
        requires
            old(self).wf(),
        ensures
            final(self).wf(),
            final(self).log_map() == old(self).log_map(),
            final(self).committed_map() == commit_all(
                old(self).committed_map(),
                requests@.map_values(|p: (String, u64)| (p.0@, p.1)),
            ),
    {
        let ghost rv = requests@.map_values(|p: (String, u64)| (p.0@, p.1));
        let mut i: usize = 0;
        while i < requests.len()
            invariant
                i <= requests.len(),
                self.wf(),
                rv == requests@.map_values(|p: (String, u64)| (p.0@, p.1)),
                self.log_map() == old(self).log_map(),
                self.committed_map() == commit_all(old(self).committed_map(), rv.take(i as int)),
            decreases requests.len() - i,
        {
            self.commits.commit(requests[i].0.clone(), requests[i].1);
            proof {
                assert(rv.take(i + 1).drop_last() =~= rv.take(i as int));
                assert(rv.take(i + 1).last() == rv[i as int]);
                assert(rv[i as int] == (requests@[i as int].0@, requests@[i as int].1));
            }
            i += 1;
        }
        proof {
            assert(rv.take(rv.len() as int) =~= rv);
        }
    }

    /// Handle `list_committed_offsets`: the watermark of each requested key
    /// that has one recorded, in request order; keys never committed are
    /// omitted, not defaulted to 0.
    pub fn on_list_committed(&self, keys: &Vec<String>) -> (r: Vec<(String, u64)>)
        requires
            self.wf(),
        ensures
            r@.map_values(|p: (String, u64)| (p.0@, p.1))
                == list_spec(self.committed_map(), keys@.map_values(|s: String| s@)),
    {
        self.commits.list(keys)
    }
}

} // verus!
