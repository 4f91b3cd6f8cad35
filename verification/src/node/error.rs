//! The errors of a node.

use vstd::prelude::*;

use crate::trusted::is_transport_error_text;
use crate::trusted::status_text;
use crate::trusted::status_display;
use crate::trusted::status_text_prefix;
use crate::trusted::transport_error_display;
use crate::trusted::transport_error_text;

verus! {

/// An error of a node: a failure to reach a peer, or any other.
#[derive(Debug)]
pub enum RaftError {
    Other(String),
    PeerNetworkError(String),
}

/// The text that describes an error, as `message` writes it.
pub open spec fn raft_error_message(e: RaftError) -> Seq<char> {
    match e {
        RaftError::Other(err) => "Other Error: "@ + err@,
        RaftError::PeerNetworkError(err) => "PeerNetwork Error: "@ + err@,
    }
}

impl RaftError {
    /// The text that describes this error: its kind, then what went wrong.
    pub fn message(&self) -> (res: String)
        ensures
            res@ == raft_error_message(*self),
    {
        match self {
            RaftError::Other(err) => String::from_str("Other Error: ").concat(err.as_str()),
            RaftError::PeerNetworkError(err) => String::from_str("PeerNetwork Error: ").concat(
                err.as_str(),
            ),
        }
    }

    /// A failure to reach a peer, from the status that a call answered: the
    /// status as tonic displays it.
    pub fn from_status(err: &tonic::Status) -> (res: RaftError)
        ensures
            res matches RaftError::PeerNetworkError(text) && text@ == status_display(*err),
            res matches RaftError::PeerNetworkError(text) && status_text_prefix().is_prefix_of(text@),
    {
        RaftError::PeerNetworkError(status_text(err))
    }

    /// A failure to reach a peer, from a transport error: the description of
    /// its kind, as tonic displays it.
    pub fn from_transport_error(err: &tonic::transport::Error) -> (res: RaftError)
        ensures
            res matches RaftError::PeerNetworkError(text) && text@ == transport_error_display(*err),
            res matches RaftError::PeerNetworkError(text) && is_transport_error_text(text@),
    {
        RaftError::PeerNetworkError(transport_error_text(err))
    }
}

} // verus!
