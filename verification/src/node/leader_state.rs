//! A leader: it ships its log to each peer from the position the peer is
//! known to need, and commits the entries of its term that more than half of
//! the cluster holds.

use std::collections::HashMap;
use vstd::prelude::*;

use crate::node::candidate_state::is_majority;
use crate::node::tally::count_reaching;
use crate::node::tally::count_where;
use crate::node::tally::reaches;
use crate::node::RaftCore;
use crate::node::RaftState;
use crate::raft_proto::copy_entries_from;
use crate::raft_proto::entries_view;
use crate::raft_proto::AppendEntriesArgs;
use crate::raft_proto::AppendEntriesArgsView;
use crate::raft_proto::AppendEntriesReply;
use crate::raft_proto::Entry;
use crate::raft_proto::EntryView;
use crate::NodeId;

verus! {

broadcast use vstd::std_specs::hash::group_hash_axioms;

/// The peers a leader replicates to: all but itself.
pub open spec fn is_follower_peer(s: RaftState, p: NodeId) -> bool {
    s.peers.contains(p) && p != s.me
}

/// The peers a leader replicates to, in the order of the peers.
pub open spec fn follower_peers(s: RaftState) -> Seq<NodeId> {
    s.peers.filter(|p: NodeId| p != s.me)
}

/// What a leader sends to a peer whose next needed position is `next`: the
/// term and position of the entry before, and the entries from `next` on.
/// A peer that already has everything gets an empty heartbeat after the
/// last entry.
pub open spec fn append_window(s: RaftState, next: u32) -> (u32, u32, Seq<EntryView>) {
    if next > s.last_index() {
        (s.last_term(), s.last_index() as u32, Seq::empty())
    } else {
        (s.log[next - 1].term, (next - 1) as u32, s.log.subrange(next as int, s.log.len() as int))
    }
}

/// The append request a leader sends to a peer whose next needed position is
/// `next`.
pub open spec fn append_request(s: RaftState, next: u32) -> AppendEntriesArgsView {
    let (prev_log_term, prev_log_index, entries) = append_window(s, next);
    AppendEntriesArgsView {
        term: s.current_term,
        leader_id: s.me,
        prev_log_index,
        prev_log_term,
        entries,
        leader_commit: s.commit_index,
    }
}

/// Entry `ci` may be committed: it is of the leader's term, and the peers
/// whose match index reaches it make, with the leader, more than half of
/// the cluster.
pub open spec fn committable(s: RaftState, match_index: Map<NodeId, u32>, ci: int) -> bool {
    &&& s.log[ci].term == s.current_term
    &&& is_majority(count_where(match_index, reaches(ci as u32)), s.peers.len())
}

/// The highest committable position up to `k`, or the commit position if
/// none lies above it.
pub open spec fn commit_upto(s: RaftState, match_index: Map<NodeId, u32>, k: int) -> int
    decreases k,
{
    if k <= s.commit_index {
        s.commit_index as int
    } else if committable(s, match_index, k) {
        k
    } else {
        commit_upto(s, match_index, k - 1)
    }
}

/// The commit position a leader reaches from state `s`.
pub open spec fn leader_commit_target(s: RaftState, match_index: Map<NodeId, u32>) -> int {
    commit_upto(s, match_index, s.last_index())
}

/// Whether committing up to `target` hands entries to the state machine:
/// something was committed and it lies past what was applied.
pub open spec fn applies_up_to(s: RaftState, target: int) -> bool {
    target > s.commit_index && target > s.last_applied
}

/// The state once a leader commits up to `target`.
pub open spec fn committed_state(s: RaftState, target: int) -> RaftState {
    RaftState {
        commit_index: target as u32,
        last_applied: if applies_up_to(s, target) {
            target as u32
        } else {
            s.last_applied
        },
        ..s
    }
}

/// The entries handed to the state machine when a leader commits up to
/// `target`, in log order.
pub open spec fn applied_entries(s: RaftState, target: int) -> Seq<EntryView> {
    if applies_up_to(s, target) {
        s.log.subrange(s.last_applied + 1, target + 1)
    } else {
        Seq::empty()
    }
}

/// Where a leader stands with each peer: the next position to send and the
/// highest position known to be replicated there.
pub struct RaftLeaderState {
    pub next_index: HashMap<NodeId, u32>,
    pub match_index: HashMap<NodeId, u32>,
}

impl RaftLeaderState {
    /// Both maps cover exactly the peers other than the leader, every next
    /// position is past the first entry, and each peer's match position lies
    /// below its next position.
    pub open spec fn wf_for(&self, s: RaftState) -> bool {
        &&& forall|p: NodeId| #[trigger] self.next_index@.contains_key(p) <==> is_follower_peer(s, p)
        &&& forall|p: NodeId| #[trigger] self.match_index@.contains_key(p) <==> is_follower_peer(s, p)
        &&& forall|p: NodeId| #[trigger] self.next_index@.contains_key(p) ==> self.next_index@[p] >= 1
        &&& forall|p: NodeId| #[trigger] self.match_index@.contains_key(p) ==> self.match_index@[p] < self.next_index@[p]
    }

    /// A new leader: it will next send each peer the position after its
    /// last entry, and knows nothing to be replicated.
    pub fn new(core: &RaftCore) -> (s: RaftLeaderState)
        requires
            core@.wf(),
        ensures
            s.next_index@ == Map::new(
                |p: NodeId| is_follower_peer(core@, p),
                |p: NodeId| core@.log.len() as u32,
            ),
            s.match_index@ == Map::new(|p: NodeId| is_follower_peer(core@, p), |p: NodeId| 0u32),
            s.wf_for(core@),
    {
        let raft_node_cnt = core.peers.len();
        let mut next_index: HashMap<NodeId, u32> = HashMap::with_capacity(raft_node_cnt);
        let mut match_index: HashMap<NodeId, u32> = HashMap::with_capacity(raft_node_cnt);
        let next = core.logs.len() as u32;
        let mut i: usize = 0;
        while i < raft_node_cnt
            invariant
                raft_node_cnt == core.peers.len(),
                i <= raft_node_cnt,
                core@.wf(),
                next == core@.log.len(),
                next_index@ == Map::new(
                    |p: NodeId| core@.peers.take(i as int).contains(p) && p != core@.me,
                    |p: NodeId| next,
                ),
                match_index@ == Map::new(
                    |p: NodeId| core@.peers.take(i as int).contains(p) && p != core@.me,
                    |p: NodeId| 0u32,
                ),
            decreases raft_node_cnt - i,
        {
            let peer = core.peers[i];
            let ghost prefix = core@.peers.take(i + 1);
            assert(prefix =~= core@.peers.take(i as int).push(peer));
            assert(forall|p: NodeId| prefix.contains(p) <==> (core@.peers.take(i as int).contains(p) || p == peer)) by {
                assert forall|p: NodeId| prefix.contains(p) implies (core@.peers.take(i as int).contains(p) || p == peer) by {
                    let j = choose|j: int| 0 <= j < prefix.len() && prefix[j] == p;
                    if j < i {
                        assert(core@.peers.take(i as int)[j] == p);
                    }
                }
                assert forall|p: NodeId| core@.peers.take(i as int).contains(p) implies prefix.contains(p) by {
                    let j = choose|j: int| 0 <= j < i && core@.peers.take(i as int)[j] == p;
                    assert(prefix[j] == p);
                }
                assert(prefix[i as int] == peer);
            }
            if core.me != peer {
                next_index.insert(peer, next);
                match_index.insert(peer, 0);
            }
            assert(next_index@ =~= Map::new(
                |p: NodeId| prefix.contains(p) && p != core@.me,
                |p: NodeId| next,
            ));
            assert(match_index@ =~= Map::new(
                |p: NodeId| prefix.contains(p) && p != core@.me,
                |p: NodeId| 0u32,
            ));
            i = i + 1;
        }
        assert(core@.peers.take(raft_node_cnt as int) =~= core@.peers);
        let s = RaftLeaderState { next_index, match_index };
        assert(s.next_index@ =~= Map::new(
            |p: NodeId| is_follower_peer(core@, p),
            |p: NodeId| core@.log.len() as u32,
        ));
        assert(s.match_index@ =~= Map::new(|p: NodeId| is_follower_peer(core@, p), |p: NodeId| 0u32));
        s
    }

    /// What to send to `peer`: the term and position of the entry before its
    /// next needed position, and copies of the entries from there on.
    pub fn get_append_logs(&self, core: &RaftCore, peer_index: &NodeId) -> (res: (u32, u32, Vec<Entry>))
        requires
            core@.wf(),
            self.next_index@.contains_key(*peer_index),
            self.next_index@[*peer_index] >= 1,
        ensures
            (res.0, res.1, entries_view(res.2@)) == append_window(core@, self.next_index@[*peer_index]),
    {
        let next_index = *self.next_index.get(peer_index).unwrap();
        let (last_log_term, last_log_index) = core.get_last_log_term_and_index();
        if next_index > last_log_index {
            (last_log_term, last_log_index, Vec::new())
        } else {
            let logs = copy_entries_from(&core.logs, next_index as usize);
            let prev_log_index = next_index.checked_sub(1).unwrap();
            let prev_log_term = core.logs[prev_log_index as usize].term;
            (prev_log_term, prev_log_index, logs)
        }
    }

    /// The append requests to send: one to each peer other than this node, in
    /// the order of the peers, each carrying the entries that peer needs.
    pub fn broadcast_append_entries(&self, core: &RaftCore) -> (reqs: Vec<(NodeId, AppendEntriesArgs)>)
        requires
            core@.wf(),
            self.wf_for(core@),
        ensures
            reqs@.len() == follower_peers(core@).len(),
            forall|i: int| 0 <= i < reqs@.len() ==> {
                &&& (#[trigger] reqs@[i]).0 == follower_peers(core@)[i]
                &&& reqs@[i].1@ == append_request(core@, self.next_index@[follower_peers(core@)[i]])
            },
    {
        let ghost pred = |p: NodeId| p != core@.me;
        let mut reqs: Vec<(NodeId, AppendEntriesArgs)> = Vec::new();
        let n = core.peers.len();
        let mut i: usize = 0;
        while i < n
            invariant
                n == core.peers.len(),
                i <= n,
                core@.wf(),
                self.wf_for(core@),
                pred == (|p: NodeId| p != core@.me),
                reqs@.len() == core@.peers.take(i as int).filter(pred).len(),
                forall|j: int| 0 <= j < reqs@.len() ==> {
                    &&& (#[trigger] reqs@[j]).0 == core@.peers.take(i as int).filter(pred)[j]
                    &&& reqs@[j].1@ == append_request(
                        core@,
                        self.next_index@[core@.peers.take(i as int).filter(pred)[j]],
                    )
                },
            decreases n - i,
        {
            let peer = core.peers[i];
            proof {
                assert(core@.peers.take(i + 1) =~= core@.peers.take(i as int).push(peer));
                core@.peers.take(i as int).lemma_filter_push(peer, pred);
            }
            if peer == core.me {
                i = i + 1;
                continue;
            }
            assert(core@.peers.contains(peer)) by {
                assert(core@.peers[i as int] == peer);
            }
            assert(self.next_index@.contains_key(peer));
            let (prev_log_term, prev_log_index, logs) = self.get_append_logs(core, &peer);
            let args = AppendEntriesArgs {
                term: core.current_term,
                leader_id: core.me,
                leader_commit: core.commit_index,
                prev_log_index: prev_log_index,
                prev_log_term: prev_log_term,
                entries: logs,
            };
            reqs.push((peer, args));
            i = i + 1;
        }
        assert(core@.peers.take(n as int) =~= core@.peers);
        reqs
    }

    /// Whether an answer from `node_id` to a request that carried
    /// `send_log_cnt` entries can be taken in: when it counts, the peer is
    /// known and its next position stays within `u32`.
    pub fn can_handle_append_reply(
        &self,
        core: &RaftCore,
        node_id: NodeId,
        send_log_cnt: usize,
        reply: &AppendEntriesReply,
    ) -> (res: bool)
        ensures
            res == ((reply.success && reply.term == core.current_term && send_log_cnt > 0) ==> {
                &&& self.next_index@.contains_key(node_id)
                &&& self.next_index@[node_id] + send_log_cnt <= u32::MAX
            }),
    {
        if !(reply.success && reply.term == core.current_term && send_log_cnt > 0) {
            return true;
        }
        match self.next_index.get(&node_id) {
            Some(next) => send_log_cnt <= (u32::MAX - *next) as usize,
            None => false,
        }
    }

    /// Take in a peer's answer to an append request that carried
    /// `send_log_cnt` entries: when it succeeded in the current term, the
    /// peer holds those entries, so its next position moves past them and
    /// its match position to the last of them.
    pub fn handle_append_reply(
        &mut self,
        core: &RaftCore,
        node_id: NodeId,
        send_log_cnt: usize,
        reply: AppendEntriesReply,
    )
        requires
            old(self).wf_for(core@),
            (reply.success && reply.term == core.current_term && send_log_cnt > 0) ==> {
                &&& old(self).next_index@.contains_key(node_id)
                &&& old(self).next_index@[node_id] + send_log_cnt <= u32::MAX
            },
        ensures
            final(self).wf_for(core@),
            if reply.success && reply.term == core.current_term && send_log_cnt > 0 {
                let next = (old(self).next_index@[node_id] + send_log_cnt) as u32;
                &&& final(self).next_index@ == old(self).next_index@.insert(node_id, next)
                &&& final(self).match_index@ == old(self).match_index@.insert(node_id, (next - 1) as u32)
            } else {
                &&& final(self).next_index@ == old(self).next_index@
                &&& final(self).match_index@ == old(self).match_index@
            },
    {
        if reply.success && reply.term == core.current_term && send_log_cnt > 0 {
            let next_index = *self.next_index.get(&node_id).unwrap() + send_log_cnt as u32;
            self.next_index.insert(node_id, next_index);
            self.match_index.insert(node_id, next_index - 1);
        }
    }

    /// Commit, one position after the other up to the last entry, each entry
    /// of the current term that more than half of the cluster holds, and hand
    /// the newly committed entries that were not applied yet to the state
    /// machine, in log order.
    pub fn try_commit_and_apply(&self, core: &mut RaftCore) -> (applied: Vec<Entry>)
        requires
            old(core)@.wf(),
        ensures
            final(core)@ == committed_state(old(core)@, leader_commit_target(old(core)@, self.match_index@)),
            entries_view(applied@) == applied_entries(
                old(core)@,
                leader_commit_target(old(core)@, self.match_index@),
            ),
            final(core)@.wf(),
    {
        let ghost s0 = core@;
        let ghost m = self.match_index@;
        let mut applied: Vec<Entry> = Vec::new();
        let last_log_index = core.get_last_log_term_and_index().1;
        let mut commit_index = core.commit_index + 1;
        while commit_index <= last_log_index
            invariant
                s0.wf(),
                m == self.match_index@,
                last_log_index == s0.last_index(),
                s0.commit_index < commit_index,
                commit_index <= last_log_index + 1 || commit_index == s0.commit_index + 1,
                core@ == committed_state(s0, commit_upto(s0, m, commit_index - 1)),
                entries_view(applied@) == applied_entries(s0, commit_upto(s0, m, commit_index - 1)),
                s0.commit_index <= commit_upto(s0, m, commit_index - 1) < commit_index,
            decreases last_log_index + 1 - commit_index,
        {
            let ghost prev_target = commit_upto(s0, m, commit_index - 1);
            if core.logs[commit_index as usize].term != core.current_term {
                assert(!committable(s0, m, commit_index as int));
                commit_index = commit_index + 1;
                continue;
            }
            let match_cnt = count_reaching(&self.match_index, commit_index);
            let all = core.peers.len();
            let enough = if match_cnt >= all {
                true
            } else {
                match_cnt + 1 > all - match_cnt - 1
            };
            if !enough {
                assert(!committable(s0, m, commit_index as int));
                commit_index = commit_index + 1;
                continue;
            }
            assert(committable(s0, m, commit_index as int));
            assert(commit_upto(s0, m, commit_index as int) == commit_index);
            core.commit_index = commit_index;
            let mut apply_index = core.last_applied + 1;
            let ghost la0 = core.last_applied;
            let ghost applied0 = entries_view(applied@);
            while apply_index <= commit_index
                invariant
                    s0.wf(),
                    core@.log == s0.log,
                    core.commit_index == commit_index,
                    commit_index <= s0.last_index(),
                    la0 + 1 <= apply_index,
                    apply_index <= commit_index + 1 || apply_index == la0 + 1,
                    apply_index > la0 + 1 ==> core.last_applied == apply_index - 1,
                    apply_index == la0 + 1 ==> core.last_applied == la0,
                    apply_index == la0 + 1 ==> entries_view(applied@) == applied0,
                    apply_index > la0 + 1 ==> entries_view(applied@) == applied0 + s0.log.subrange(
                        la0 + 1,
                        apply_index as int,
                    ),
                    core@.peers == s0.peers,
                    core@.current_term == s0.current_term,
                    core@.voted_for == s0.voted_for,
                    core@.me == s0.me,
                    core@.status == s0.status,
                decreases commit_index + 1 - apply_index,
            {
                let entry = core.logs[apply_index as usize].duplicate();
                let ghost before = applied@;
                applied.push(entry);
                assert(entries_view(applied@) =~= entries_view(before).push(entry@));
                proof {
                    if apply_index > la0 + 1 {
                        assert(s0.log.subrange(la0 + 1, apply_index + 1) =~= s0.log.subrange(
                            la0 + 1,
                            apply_index as int,
                        ).push(s0.log[apply_index as int]));
                        assert(entries_view(applied@) =~= applied0 + s0.log.subrange(la0 + 1, apply_index + 1));
                    } else {
                        assert(entries_view(applied@) =~= applied0 + s0.log.subrange(la0 + 1, apply_index + 1));
                    }
                }
                core.last_applied = apply_index;
                apply_index = apply_index + 1;
            }
            proof {
                if applies_up_to(s0, prev_target) {
                    assert(entries_view(applied@) =~= s0.log.subrange(s0.last_applied + 1, commit_index + 1));
                } else {
                    assert(entries_view(applied@) =~= applied_entries(s0, commit_index as int));
                }
            }
            assert(core@ == committed_state(s0, commit_index as int));
            commit_index = commit_index + 1;
        }
        assert(commit_upto(s0, m, commit_index - 1) == commit_upto(s0, m, s0.last_index()));
        applied
    }
}

} // verus!
