//! The request dispatcher: maps an inbound request's declared type string to
//! the coordinator operation that handles it. Dispatch is stateless and
//! retains nothing between requests; a type neither coordinator recognises is
//! left to the runtime's default handling.

use vstd::prelude::*;

verus! {

/// The operations the two coordinators handle, plus `Unknown` for every
/// other declared type.
#[derive(Clone, Copy, Debug, PartialEq, Eq, Structural)]
pub enum RequestKind {
    Broadcast,
    Read,
    Topology,
    Send,
    Poll,
    CommitOffsets,
    ListCommittedOffsets,
    Unknown,
}

/// The kind a declared request type names.
pub open spec fn classify_spec(t: Seq<char>) -> RequestKind {
    if t == "broadcast"@ {
        RequestKind::Broadcast
    } else if t == "read"@ {
        RequestKind::Read
    } else if t == "topology"@ {
        RequestKind::Topology
    } else if t == "send"@ {
        RequestKind::Send
    } else if t == "poll"@ {
        RequestKind::Poll
    } else if t == "commit_offsets"@ {
        RequestKind::CommitOffsets
    } else if t == "list_committed_offsets"@ {
        RequestKind::ListCommittedOffsets
    } else {
        RequestKind::Unknown
    }
}

/// Map an inbound request's declared type to the operation that handles it.
pub fn classify(t: &String) -> (k: RequestKind)
    ensures
        k == classify_spec(t@),
{
    if *t == "broadcast".to_owned() {
        RequestKind::Broadcast
    } else if *t == "read".to_owned() {
        RequestKind::Read
    } else if *t == "topology".to_owned() {
        RequestKind::Topology
    } else if *t == "send".to_owned() {
        RequestKind::Send
    } else if *t == "poll".to_owned() {
        RequestKind::Poll
    } else if *t == "commit_offsets".to_owned() {
        RequestKind::CommitOffsets
    } else if *t == "list_committed_offsets".to_owned() {
        RequestKind::ListCommittedOffsets
    } else {
        RequestKind::Unknown
    }
}

} // verus!
