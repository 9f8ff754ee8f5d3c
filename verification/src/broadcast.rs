//! The broadcast coordinator: disseminates integer values through a single
//! fixed leader node and answers reads with everything locally known.
//!
//! The cluster is a star: a non-leader node inserts each broadcast value into
//! its own seen set before replying, forwards values received from clients to
//! the leader on a best-effort basis, and refreshes its set from the leader
//! before serving a read. A timed-out forward or refresh is swallowed: the
//! local state and the reply never depend on the remote outcome, which is why
//! every decision here is a function of the local state and the request alone.

use vstd::prelude::*;
use crate::seen::SeenSet;

verus! {

/// An outbound `broadcast` request the coordinator asks the runtime to issue
/// to the node named `target`, awaited under a short deadline whose expiry is
/// swallowed.
pub struct Forward {
    pub target: String,
    pub value: i64,
}

/// The broadcast coordinator of one node: its identity, the cluster's fixed
/// leader, and the set of values observed so far.
pub struct BroadcastNode {
    node_id: String,
    leader_id: String,
    seen: SeenSet,
}

impl BroadcastNode {
    /// The seen store is well-formed.
    pub closed spec fn wf(&self) -> bool {
        self.seen.wf()
    }

    /// The set of values this node has observed.
    pub closed spec fn seen_set(&self) -> Set<i64> {
        self.seen@
    }

    /// This node's identity.
    pub closed spec fn node_id_view(&self) -> Seq<char> {
        self.node_id@
    }

    /// The fixed leader's identity.
    pub closed spec fn leader_id_view(&self) -> Seq<char> {
        self.leader_id@
    }

    /// Whether this node is itself the leader.
    pub open spec fn is_leader(&self) -> bool {
        self.node_id_view() == self.leader_id_view()
    }

    /// A fresh coordinator: nothing observed yet. The leader identity is
    /// injected at node start and fixed for the cluster's lifetime.
    pub fn new(node_id: String, leader_id: String) -> (n: BroadcastNode)
        ensures
            n.wf(),
            n.seen_set() == Set::<i64>::empty(),
            n.node_id_view() == node_id@,
            n.leader_id_view() == leader_id@,
    {
        BroadcastNode { node_id, leader_id, seen: SeenSet::new() }
    }

    /// Handle an inbound `broadcast`: insert the value locally — always, and
    /// before any reply is sent — and decide whether to forward it. A forward
    /// to the leader is requested exactly when the request came from a client
    /// and this node is not the leader; its loss is acceptable and changes
    /// nothing here.
    pub fn on_broadcast(&mut self, value: i64, from_client: bool) -> (fwd: Option<Forward>)
        requires
            old(self).wf(),
        ensures
            final(self).wf(),
            final(self).seen_set() == old(self).seen_set().insert(value),
            final(self).node_id_view() == old(self).node_id_view(),
            final(self).leader_id_view() == old(self).leader_id_view(),
            (match fwd {
                Some(f) => from_client && !old(self).is_leader()
                    && f.target@ == old(self).leader_id_view() && f.value == value,
                None => !from_client || old(self).is_leader(),
            }),
    {
        self.seen.insert(value);
        if from_client && !(self.node_id == self.leader_id) {
            Some(Forward { target: self.leader_id.clone(), value })
        } else {
            None
        }
    }

    /// Whether a read must first try to pull the leader's full set: every
    /// non-leader node does, under a deadline; the leader already holds the
    /// authoritative set.
    pub fn needs_read_refresh(&self) -> (r: bool)
        ensures
            r == !self.is_leader(),
    {
        !(self.node_id == self.leader_id)
    }

    /// The node to pull reads from and forward values to.
    pub fn leader(&self) -> (r: &String)
        ensures
            r@ == self.leader_id_view(),
    {
        &self.leader_id
    }

    /// Merge the values of a successful pull from the leader into the local
    /// set. Nothing is ever removed, so the merge is always safe.
    pub fn absorb(&mut self, values: &Vec<i64>)
        requires
            old(self).wf(),
        ensures
            final(self).wf(),
            final(self).seen_set() == old(self).seen_set().union(values@.to_set()),
            final(self).node_id_view() == old(self).node_id_view(),
            final(self).leader_id_view() == old(self).leader_id_view(),
    {
        self.seen.merge(values);
    }

    /// The snapshot served by `read_ok`: every locally known value exactly
    /// once, as an unordered collection.
    pub fn read(&self) -> (r: Vec<i64>)
        requires
            self.wf(),
        ensures
            r@.to_set() == self.seen_set(),
            r@.no_duplicates(),
    {
        self.seen.snapshot()
    }
}

/// Idempotent insert: broadcasting a value twice leaves exactly the set that
/// broadcasting it once leaves, a broadcast grows the set by at most one
/// value, and a value already known grows it by nothing.
pub proof fn lemma_broadcast_idempotent(s: Set<i64>, v: i64)
    requires
        s.finite(),
    ensures
        s.insert(v).insert(v) == s.insert(v),
        s.insert(v).len() <= s.len() + 1,
        s.contains(v) ==> s.insert(v) == s,
{
    assert(s.insert(v).insert(v) =~= s.insert(v));
    if s.contains(v) {
        assert(s.insert(v) =~= s);
    }
}

} // verus!
