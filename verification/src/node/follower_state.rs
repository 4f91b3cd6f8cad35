//! A follower: it answers requests, applies what its leader committed, and
//! stands for election when it hears from no leader in time.

use vstd::prelude::*;

use crate::node::RaftCore;
use crate::node::RaftNodeStatus;
use crate::node::RaftState;
use crate::raft_proto::entries_view;
use crate::raft_proto::Entry;
use crate::raft_proto::EntryView;

verus! {

/// The entries a follower hands to the state machine: those after the last
/// applied one up to the commit position.
pub open spec fn follower_applied_entries(s: RaftState) -> Seq<EntryView> {
    if s.commit_index > s.last_applied {
        s.log.subrange(s.last_applied + 1, s.commit_index + 1)
    } else {
        Seq::empty()
    }
}

/// The state once a follower applied what was committed.
pub open spec fn follower_applied_state(s: RaftState) -> RaftState {
    if s.commit_index > s.last_applied {
        RaftState { last_applied: s.commit_index, ..s }
    } else {
        s
    }
}

/// A follower applies committed entries only from its own log: the commit
/// position lies in it, or nothing is left to apply.
pub open spec fn follower_can_apply(s: RaftState) -> bool {
    s.commit_index <= s.last_applied || s.commit_index < s.log.len()
}

/// The state once a follower's election timer ran out: it is a candidate.
pub open spec fn follower_timed_out(s: RaftState) -> RaftState {
    RaftState { status: RaftNodeStatus::Candidate, ..s }
}

/// The role of a follower; all its state is the node's shared state.
pub struct RaftFollowerState {}

impl RaftFollowerState {
    /// A follower.
    pub fn new() -> (s: RaftFollowerState) {
        RaftFollowerState {}
    }

    /// Hand the committed entries that were not applied yet to the state
    /// machine, in log order, and record them as applied.
    pub fn commit_and_apply(&self, core: &mut RaftCore) -> (applied: Vec<Entry>)
        requires
            old(core)@.wf(),
            follower_can_apply(old(core)@),
        ensures
            final(core)@ == follower_applied_state(old(core)@),
            entries_view(applied@) == follower_applied_entries(old(core)@),
            final(core)@.wf(),
    {
        let ghost s0 = core@;
        let mut applied: Vec<Entry> = Vec::new();
        let mut apply_index = core.last_applied + 1;
        while apply_index <= core.commit_index
            invariant
                s0.wf(),
                follower_can_apply(s0),
                core@.log == s0.log,
                core.commit_index == s0.commit_index,
                s0.last_applied + 1 <= apply_index,
                apply_index <= s0.commit_index + 1 || apply_index == s0.last_applied + 1,
                apply_index == s0.last_applied + 1 ==> core@ == s0 && applied@.len() == 0,
                apply_index > s0.last_applied + 1 ==> {
                    &&& core@ == (RaftState { last_applied: (apply_index - 1) as u32, ..s0 })
                    &&& entries_view(applied@) == s0.log.subrange(
                        s0.last_applied + 1,
                        apply_index as int,
                    )
                },
            decreases s0.commit_index + 1 - apply_index,
        {
            let entry = core.logs[apply_index as usize].duplicate();
            let ghost before = applied@;
            applied.push(entry);
            proof {
                assert(entries_view(applied@) =~= entries_view(before).push(entry@));
                assert(entries_view(applied@) =~= s0.log.subrange(
                    s0.last_applied + 1,
                    apply_index + 1,
                ));
            }
            core.last_applied = apply_index;
            apply_index = apply_index + 1;
        }
        proof {
            if s0.commit_index <= s0.last_applied {
                assert(entries_view(applied@) =~= Seq::<EntryView>::empty());
            }
        }
        applied
    }

    /// Whether the committed entries that are not applied yet all lie in the
    /// log.
    pub fn can_commit_and_apply(&self, core: &RaftCore) -> (res: bool)
        ensures
            res == follower_can_apply(core@),
    {
        core.commit_index <= core.last_applied || (core.commit_index as usize) < core.logs.len()
    }

    /// The election timer ran out: become a candidate.
    pub fn handle_elect_timeout(&self, core: &mut RaftCore)
        ensures
            final(core)@ == follower_timed_out(old(core)@),
    {
        core.status = RaftNodeStatus::Candidate;
    }
}

} // verus!
