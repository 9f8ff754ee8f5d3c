use star_node::broadcast::BroadcastNode;
use star_node::dispatch::{classify, RequestKind};

fn follower() -> BroadcastNode {
    BroadcastNode::new("n2".to_string(), "n1".to_string())
}

fn leader() -> BroadcastNode {
    BroadcastNode::new("n1".to_string(), "n1".to_string())
}

fn sorted(mut v: Vec<i64>) -> Vec<i64> {
    v.sort();
    v
}

#[test]
fn broadcast_from_client_on_follower_forwards_and_is_readable() {
    // A non-leader node receives broadcast{message:42} from a client: the
    // local insert happens unconditionally, and a forward to the leader is
    // requested. Whatever becomes of the forward, a local read immediately
    // after returns {messages:[42]}.
    let mut n = follower();
    let fwd = n.on_broadcast(42, true);
    let fwd = fwd.expect("a follower must forward a client broadcast");
    assert_eq!(fwd.target, "n1".to_string());
    assert_eq!(fwd.value, 42);
    // The forward's outcome (acknowledged or timed out) is discarded: the
    // node state cannot depend on it, so the read is the same either way.
    assert_eq!(n.read(), vec![42]);
}

#[test]
fn broadcast_from_peer_does_not_forward() {
    let mut n = follower();
    assert!(n.on_broadcast(7, false).is_none());
    assert_eq!(n.read(), vec![7]);
}

#[test]
fn broadcast_on_leader_does_not_forward() {
    let mut n = leader();
    assert!(n.on_broadcast(7, true).is_none());
    assert_eq!(n.read(), vec![7]);
}

#[test]
fn broadcast_twice_reads_as_once() {
    // Idempotent insert: broadcasting a value twice yields the same read
    // result as broadcasting it once, and the set grows by at most one per
    // distinct value.
    let mut once = follower();
    once.on_broadcast(5, true);

    let mut twice = follower();
    twice.on_broadcast(5, true);
    let size_after_first = twice.read().len();
    twice.on_broadcast(5, true);

    assert_eq!(twice.read(), once.read());
    assert_eq!(twice.read().len(), size_after_first);
    assert_eq!(size_after_first, 1);
}

#[test]
fn distinct_values_accumulate() {
    let mut n = follower();
    n.on_broadcast(1, true);
    n.on_broadcast(2, false);
    n.on_broadcast(1, true);
    n.on_broadcast(3, true);
    assert_eq!(sorted(n.read()), vec![1, 2, 3]);
}

#[test]
fn read_refresh_policy_is_leader_based() {
    let f = follower();
    assert!(f.needs_read_refresh());
    assert_eq!(f.leader(), &"n1".to_string());
    let l = leader();
    assert!(!l.needs_read_refresh());
}

#[test]
fn absorb_unions_leader_values() {
    // A successful read pull from the leader merges its set into ours; a
    // timed-out pull merges nothing and the read is served locally either
    // way.
    let mut n = follower();
    n.on_broadcast(10, true);
    n.absorb(&vec![10, 20, 30]);
    assert_eq!(sorted(n.read()), vec![10, 20, 30]);
    // Merging is idempotent too: nothing is ever removed or duplicated.
    n.absorb(&vec![20, 30]);
    assert_eq!(sorted(n.read()), vec![10, 20, 30]);
}

#[test]
fn classify_maps_each_known_type() {
    assert_eq!(classify(&"broadcast".to_string()), RequestKind::Broadcast);
    assert_eq!(classify(&"read".to_string()), RequestKind::Read);
    assert_eq!(classify(&"topology".to_string()), RequestKind::Topology);
    assert_eq!(classify(&"send".to_string()), RequestKind::Send);
    assert_eq!(classify(&"poll".to_string()), RequestKind::Poll);
    assert_eq!(classify(&"commit_offsets".to_string()), RequestKind::CommitOffsets);
    assert_eq!(
        classify(&"list_committed_offsets".to_string()),
        RequestKind::ListCommittedOffsets
    );
}

#[test]
fn classify_leaves_unknown_types_to_the_default_handler() {
    assert_eq!(classify(&"echo".to_string()), RequestKind::Unknown);
    assert_eq!(classify(&"".to_string()), RequestKind::Unknown);
    assert_eq!(classify(&"Broadcast".to_string()), RequestKind::Unknown);
}
