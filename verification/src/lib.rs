//! Node-local coordinators for a small cluster protocol: a value-broadcast
//! service that disseminates integers through a fixed leader, and a per-key
//! append-only log with offset-based polling and monotonic commit watermarks.
//!
//! The coordinators hold the node's state and decide, for each inbound
//! request, how the state changes and what must be sent; the surrounding
//! runtime performs the actual message transport.

pub mod broadcast;
pub mod commits;
pub mod dispatch;
pub mod log;
pub mod log_node;
pub mod seen;
pub mod values;
