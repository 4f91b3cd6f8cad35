//! A candidate: it starts elections, asks its peers for votes, and becomes
//! leader once more than half of the cluster voted for it.

use std::collections::HashMap;
use vstd::prelude::*;

use crate::node::tally::count_granted;
use crate::node::tally::count_where;
use crate::node::tally::is_granted;
use crate::node::RaftCore;
use crate::node::RaftNodeStatus;
use crate::node::RaftState;
use crate::raft_proto::RequestVoteArgs;
use crate::raft_proto::RequestVoteReply;
use crate::NodeId;

verus! {

broadcast use vstd::std_specs::hash::group_hash_axioms;

/// `others` peers that agree, together with this node, make more than half
/// of a cluster of `cluster` nodes.
pub open spec fn is_majority(others: nat, cluster: nat) -> bool {
    2 * (others + 1) - 1 >= cluster
}

/// The peers that a candidate asks for a vote: all but itself and those that
/// already answered in this term.
pub open spec fn vote_targets(s: RaftState, votes: Map<NodeId, bool>) -> Seq<NodeId> {
    s.peers.filter(|p: NodeId| p != s.me && !votes.dom().contains(p))
}

/// The vote request that a candidate sends in its current term.
pub open spec fn vote_request(s: RaftState) -> RequestVoteArgs {
    RequestVoteArgs {
        term: s.current_term,
        candidate_id: s.me,
        last_log_index: s.last_index() as u32,
        last_log_term: s.last_term(),
    }
}

/// Each target paired with the vote request it is sent.
pub open spec fn vote_requests(s: RaftState, votes: Map<NodeId, bool>) -> Seq<(NodeId, RequestVoteArgs)> {
    vote_targets(s, votes).map_values(|p: NodeId| (p, vote_request(s)))
}

/// The state once a candidate starts a new election: the next term, voting
/// for itself.
pub open spec fn election_started(s: RaftState) -> RaftState {
    RaftState {
        current_term: (s.current_term + 1) as u32,
        status: RaftNodeStatus::Candidate,
        voted_for: Some(s.me),
        ..s
    }
}

/// The gRPC status code of an unknown failure.
pub const GRPC_CODE_UNKNOWN: i32 = 2;

/// The gRPC status code of a call that ran out of time.
pub const GRPC_CODE_DEADLINE_EXCEEDED: i32 = 4;

/// The gRPC status code of a peer that cannot be reached.
pub const GRPC_CODE_UNAVAILABLE: i32 = 14;

/// A failed vote request is sent again when the failure is the network's:
/// the peer is unreachable, the call ran out of time, or the failure is
/// unknown. Any other failure ends the request.
pub open spec fn vote_request_retryable(code: i32) -> bool {
    code == GRPC_CODE_UNAVAILABLE || code == GRPC_CODE_DEADLINE_EXCEEDED || code == GRPC_CODE_UNKNOWN
}

/// The votes a candidate has received in its current term.
pub struct RaftCandidateState {
    pub votes: HashMap<NodeId, bool>,
}

impl RaftCandidateState {
    /// A candidate with no votes yet.
    pub fn new() -> (s: RaftCandidateState)
        ensures
            s.votes@ == Map::<NodeId, bool>::empty(),
    {
        RaftCandidateState { votes: HashMap::new() }
    }

    /// Whether the granted votes and the candidate's own make more than half
    /// of the cluster.
    pub fn can_to_leader(&self, core: &RaftCore) -> (res: bool)
        ensures
            res == is_majority(count_where(self.votes@, is_granted()), core@.peers.len()),
    {
        let all = core.peers.len();
        let granted = count_granted(&self.votes);
        if granted >= all {
            true
        } else {
            granted + 1 > all - granted - 1
        }
    }

    /// Whether a vote request that failed with gRPC status code `code` is
    /// sent again.
    pub fn should_retry_request_vote(code: i32) -> (res: bool)
        ensures
            res == vote_request_retryable(code),
    {
        code == GRPC_CODE_UNAVAILABLE || code == GRPC_CODE_DEADLINE_EXCEEDED || code == GRPC_CODE_UNKNOWN
    }

    /// Start a new election: move to the next term as a candidate that votes
    /// for itself, and forget the votes of the last one.
    pub fn start_election(&mut self, core: &mut RaftCore)
        requires
            old(core).current_term < u32::MAX,
        ensures
            final(core)@ == election_started(old(core)@),
            final(self).votes@ == Map::<NodeId, bool>::empty(),
    {
        core.current_term = core.current_term + 1;
        core.status = RaftNodeStatus::Candidate;
        core.voted_for = Some(core.me);
        self.votes.clear();
    }

    /// The vote requests to send: one to each peer other than this node that
    /// has not answered yet, in the order of the peers.
    pub fn broadcast_request_vote(&self, core: &RaftCore) -> (reqs: Vec<(NodeId, RequestVoteArgs)>)
        requires
            core@.wf(),
        ensures
            reqs@ == vote_requests(core@, self.votes@),
    {
        let ghost pred = |p: NodeId| p != core@.me && !self.votes@.dom().contains(p);
        let mut reqs: Vec<(NodeId, RequestVoteArgs)> = Vec::new();
        let n = core.peers.len();
        let mut i: usize = 0;
        while i < n
            invariant
                n == core.peers.len(),
                i <= n,
                core@.wf(),
                pred == (|p: NodeId| p != core@.me && !self.votes@.dom().contains(p)),
                reqs@ == core@.peers.take(i as int).filter(pred).map_values(
                    |p: NodeId| (p, vote_request(core@)),
                ),
            decreases n - i,
        {
            let peer = core.peers[i];
            proof {
                assert(core@.peers.take(i + 1) =~= core@.peers.take(i as int).push(peer));
                core@.peers.take(i as int).lemma_filter_push(peer, pred);
            }
            if peer == core.me || self.votes.contains_key(&peer) {
                i = i + 1;
                continue;
            }
            let (last_log_term, last_log_index) = core.get_last_log_term_and_index();
            let args = RequestVoteArgs {
                term: core.current_term,
                candidate_id: core.me,
                last_log_index: last_log_index,
                last_log_term: last_log_term,
            };
            let ghost before = reqs@;
            reqs.push((peer, args));
            proof {
                assert(reqs@ =~= core@.peers.take(i + 1).filter(pred).map_values(
                    |p: NodeId| (p, vote_request(core@)),
                ));
            }
            i = i + 1;
        }
        assert(core@.peers.take(n as int) =~= core@.peers);
        reqs
    }

    /// Count a peer's answer to a vote request of the current term, and lead
    /// once the votes suffice. Answers from other terms change nothing.
    pub fn handle_vote_reply(&mut self, core: &mut RaftCore, node_id: NodeId, reply: RequestVoteReply)
        ensures
            reply.term == old(core).current_term ==> {
                &&& final(self).votes@ == old(self).votes@.insert(node_id, reply.vote_granted)
                &&& final(core)@ == if is_majority(
                    count_where(final(self).votes@, is_granted()),
                    old(core)@.peers.len(),
                ) {
                    RaftState { status: RaftNodeStatus::Leader, ..old(core)@ }
                } else {
                    old(core)@
                }
            },
            reply.term != old(core).current_term ==> {
                &&& final(self).votes@ == old(self).votes@
                &&& final(core)@ == old(core)@
            },
    {
        if core.current_term == reply.term {
            self.votes.insert(node_id, reply.vote_granted);
            if self.can_to_leader(core) {
                core.status = RaftNodeStatus::Leader;
            }
        }
    }
}

} // verus!
