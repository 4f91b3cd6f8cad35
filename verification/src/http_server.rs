//! The requests and answers of the node's client-facing interface.

use vstd::prelude::*;

use crate::raft_proto::Entry;

verus! {

/// A node's term and whether it leads.
#[derive(Debug, Clone, Copy, PartialEq, Eq, Structural)]
pub struct RaftNodeStatusResponse {
    pub current_term: u32,
    pub is_leader: bool,
}

/// The answer to a request that adds a command to the log.
#[derive(Debug, Clone, Copy, PartialEq, Eq, Structural)]
pub struct RaftAddLogResponse {
    pub log_index: u32,
    pub current_term: u32,
    pub is_leader: bool,
}

/// A client's request to add a command to the log.
#[derive(Debug)]
pub struct RaftAddLogRequest {
    pub command_type: String,
    pub key: String,
    pub value: String,
}

/// A node's whole log with its commit and apply positions.
#[derive(Debug)]
pub struct RaftLogListResponse {
    pub last_applied: u32,
    pub commit_index: u32,
    pub logs: Vec<Entry>,
}

} // verus!
