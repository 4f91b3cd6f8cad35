//! A Raft node's replicated log, elections and request handling, with the
//! decisions of every role stated and proved.

use vstd::prelude::*;

pub mod fsm;
pub mod http_server;
pub mod laws;
pub mod node;
pub mod raft_proto;
pub mod trusted;

verus! {

/// Identifier of a node of the cluster.
pub type NodeId = i32;

/// How often a leader sends append requests, in milliseconds.
pub const RAFT_APPEND_ENTRIES_INTERVAL_MS: u64 = 100;

/// How often a node commits and applies entries, in milliseconds.
pub const RAFT_COMMIT_INTERVAL_MS: u64 = 100;

/// How often followers and candidates check their election timer, and how
/// long a failed vote request waits before it is sent again, in
/// milliseconds.
pub const RAFT_COMMON_INTERVAL_MS: u64 = 50;

/// How long a candidate keeps asking a peer for its vote, in milliseconds.
pub const RAFT_ELECT_REQUEST_TIMEOUT_MS: u64 = 300;

} // verus!
