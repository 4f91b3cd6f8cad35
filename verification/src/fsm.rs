//! The state machine that committed entries are applied to.

use vstd::prelude::*;

use crate::raft_proto::Entry;

verus! {

/// A state machine that users of the library provide: the node hands it each
/// committed entry once, in log order.
pub trait FinishedStateMachine {
    /// Apply one committed entry.
    fn apply(&mut self, entry: Entry);
}

} // verus!
