//! Properties of the node's handlers that span several calls or hold of
//! every state.

use vstd::prelude::*;
use vstd::set_lib::lemma_len_union;
use vstd::utf8::encode_utf8;
use vstd::utf8::encode_utf8_decode_utf8;
use vstd::utf8::encode_utf8_valid_utf8;

use crate::node::candidate_state::election_started;
use crate::node::candidate_state::is_majority;
use crate::node::leader_state::append_request;
use crate::node::leader_state::commit_upto;
use crate::node::leader_state::committable;
use crate::node::leader_state::leader_commit_target;
use crate::node::merge_entries;
use crate::node::merge_entry;
use crate::node::entries_keep_head;
use crate::node::leader_state::is_follower_peer;
use crate::node::leader_state::RaftLeaderState;
use crate::node::log_indexed;
use crate::node::merges_fit;
use crate::node::RaftState;
use crate::node::RaftNodeStatus;
use crate::node::follower_state::follower_applied_entries;
use crate::node::follower_state::follower_applied_state;
use crate::node::tally::count_where;
use crate::node::candidate_state::vote_requests;
use crate::node::leader_state::applied_entries;
use crate::node::leader_state::committed_state;
use crate::node::tally::reaches;
use crate::raft_proto::command_type_named;
use crate::raft_proto::command_type_number;
use crate::raft_proto::value_text_of;
use crate::raft_proto::AppendEntriesArgsView;
use crate::raft_proto::EntryView;
use crate::raft_proto::RequestVoteArgs;
use crate::NodeId;

verus! {

/// No request moves a node to an earlier term, and every reply carries the
/// term the node is in afterwards.
pub proof fn lemma_terms_never_decrease(s: RaftState, a: AppendEntriesArgsView, v: RequestVoteArgs)
    ensures
        s.append_entries_result(a).0.current_term >= s.current_term,
        s.append_entries_result(a).1.term == s.append_entries_result(a).0.current_term,
        s.request_vote_result(v).0.current_term >= s.current_term,
        s.request_vote_result(v).1.term == s.request_vote_result(v).0.current_term,
{
}

/// A request from an earlier term changes nothing and is refused with the
/// node's term.
pub proof fn lemma_stale_requests_refused(s: RaftState, a: AppendEntriesArgsView, v: RequestVoteArgs)
    ensures
        a.term < s.current_term ==> s.append_entries_result(a) == (s, crate::raft_proto::AppendEntriesReply {
            term: s.current_term,
            success: false,
        }),
        v.term < s.current_term ==> s.request_vote_result(v) == (s, crate::raft_proto::RequestVoteReply {
            term: s.current_term,
            vote_granted: false,
        }),
{
}

/// Once a node granted its vote in a term, it refuses every other candidate
/// of that term.
pub proof fn lemma_one_vote_per_term(s: RaftState, first: RequestVoteArgs, second: RequestVoteArgs)
    requires
        s.request_vote_result(first).1.vote_granted,
        second.term == first.term,
        second.candidate_id != first.candidate_id,
    ensures
        !s.request_vote_result(first).0.request_vote_result(second).1.vote_granted,
        s.request_vote_result(first).0.voted_for == Some(first.candidate_id),
        s.request_vote_result(first).0.current_term == first.term,
{
}

/// A log is at least as up to date as itself.
pub proof fn lemma_own_log_up_to_date(s: RaftState)
    requires
        s.wf(),
    ensures
        s.log_up_to_date(s.last_term(), s.last_index() as u32),
{
}

/// Of two logs, described by their last term and position, one is always at
/// least as up to date as the other.
pub proof fn lemma_up_to_date_total(s: RaftState, t: RaftState)
    requires
        s.wf(),
        t.wf(),
    ensures
        s.log_up_to_date(t.last_term(), t.last_index() as u32) || t.log_up_to_date(
            s.last_term(),
            s.last_index() as u32,
        ),
{
}

/// Two groups that each hold more than half of a cluster share a member:
/// with one vote per node and term, two candidates cannot both win a term.
pub proof fn lemma_majorities_intersect(cluster: Set<NodeId>, x: Set<NodeId>, y: Set<NodeId>)
    requires
        cluster.finite(),
        x.subset_of(cluster),
        y.subset_of(cluster),
        2 * x.len() > cluster.len(),
        2 * y.len() > cluster.len(),
    ensures
        exists|n: NodeId| x.contains(n) && y.contains(n),
{
    vstd::set_lib::lemma_len_subset(x, cluster);
    vstd::set_lib::lemma_len_subset(y, cluster);
    lemma_len_union(x, y);
    vstd::set_lib::lemma_len_subset(x.union(y), cluster);
    if !(exists|n: NodeId| x.contains(n) && y.contains(n)) {
        assert(x.intersect(y) =~= Set::empty());
        vstd::set_lib::lemma_set_intersect_union_lens(x, y);
        assert(false);
    }
}

/// A candidate's count of agreeing peers makes a majority exactly when,
/// with the candidate itself, they are more than half of the cluster.
pub proof fn lemma_majority_is_more_than_half(others: nat, cluster: nat)
    ensures
        is_majority(others, cluster) <==> 2 * (others + 1) > cluster,
{
}

/// Starting an election moves to the very next term, as a candidate that
/// voted for itself.
pub proof fn lemma_election_advances_term(s: RaftState)
    requires
        s.current_term < u32::MAX,
    ensures
        election_started(s).current_term == s.current_term + 1,
        election_started(s).voted_for == Some(s.me),
        election_started(s).log == s.log,
{
}

/// Merging a leader's entries from position `next` on into a log that
/// agrees with the leader's up to its own length (at least `next`) yields
/// the leader's log up to `k`, or leaves a log that already reaches past
/// `k` unchanged.
proof fn lemma_merge_leader_suffix(f: Seq<EntryView>, l: Seq<EntryView>, next: int, k: int)
    requires
        log_indexed(l),
        f.len() <= l.len(),
        f == l.take(f.len() as int),
        1 <= next <= f.len(),
        next <= k <= l.len(),
    ensures
        merge_entries(f, l.subrange(next, k)) == if k <= f.len() {
            f
        } else {
            l.take(k)
        },
    decreases k - next,
{
    if k == next {
        assert(l.subrange(next, k) =~= Seq::<EntryView>::empty());
    } else {
        lemma_merge_leader_suffix(f, l, next, k - 1);
        let es = l.subrange(next, k);
        assert(es.drop_last() =~= l.subrange(next, k - 1));
        assert(es.last() == l[k - 1]);
        let cur = merge_entries(f, l.subrange(next, k - 1));
        assert(l[k - 1].index == k - 1);
        if k - 1 < f.len() {
            assert(cur == f);
            assert(f[k - 1] == l[k - 1]);
            assert(merge_entry(cur, l[k - 1]) == f);
        } else if k - 1 == f.len() {
            assert(cur == f);
            assert(merge_entry(cur, l[k - 1]) =~= l.take(k));
        } else {
            assert(cur == l.take(k - 1));
            assert(merge_entry(cur, l[k - 1]) =~= l.take(k));
        }
    }
}

/// A follower whose log is a prefix of the leader's, reaching the position
/// before the one the leader sends from, accepts the leader's append request
/// and ends up with exactly the leader's log.
pub proof fn lemma_replication_catches_up(leader: RaftState, follower: RaftState, next: u32)
    requires
        leader.wf(),
        follower.wf(),
        next >= 1,
        follower.log.len() <= leader.log.len(),
        follower.log == leader.log.take(follower.log.len() as int),
        next <= follower.log.len() || follower.log.len() == leader.log.len(),
        leader.current_term >= follower.current_term,
    ensures
        follower.append_entries_result(append_request(leader, next)).1.success,
        follower.append_entries_result(append_request(leader, next)).0.log == leader.log,
        follower.append_entries_result(append_request(leader, next)).0.current_term
            == leader.current_term,
{
    let a = append_request(leader, next);
    if next > leader.last_index() {
        assert(follower.log =~= leader.log);
        assert(a.entries =~= Seq::<EntryView>::empty());
    } else {
        assert(follower.log[next - 1] == leader.log[next - 1]);
        lemma_merge_leader_suffix(follower.log, leader.log, next as int, leader.log.len() as int);
        assert(leader.log.take(leader.log.len() as int) =~= leader.log);
        if follower.log.len() == leader.log.len() {
            assert(follower.log =~= leader.log);
        }
    }
}

/// Merging entries numbered on from just after `prev` keeps the log up to
/// `prev`, reaches past the last of them, and leaves at each of their
/// positions an entry with their position and term.
proof fn lemma_merge_contiguous(log: Seq<EntryView>, es: Seq<EntryView>, prev: int)
    requires
        log_indexed(log),
        0 <= prev < log.len(),
        forall|i: int| 0 <= i < es.len() ==> (#[trigger] es[i]).index == prev + 1 + i,
    ensures
        ({
            let out = merge_entries(log, es);
            &&& log_indexed(out)
            &&& out.len() >= prev + 1 + es.len()
            &&& out.take(prev + 1) == log.take(prev + 1)
            &&& forall|i: int| 0 <= i < es.len() ==> {
                &&& (#[trigger] out[prev + 1 + i]).term == es[i].term
                &&& out[prev + 1 + i].index == es[i].index
            }
        }),
    decreases es.len(),
{
    if es.len() > 0 {
        let k = es.len() - 1;
        let front = es.drop_last();
        assert forall|i: int| 0 <= i < front.len() implies (#[trigger] front[i]).index == prev + 1 + i by {
            assert(front[i] == es[i]);
        }
        lemma_merge_contiguous(log, front, prev);
        let cur = merge_entries(log, front);
        let e = es.last();
        assert(e.index == prev + 1 + k);
        let out = merge_entry(cur, e);
        assert(out == merge_entries(log, es));
        assert(out.take(prev + 1) =~= log.take(prev + 1)) by {
            assert forall|j: int| 0 <= j < prev + 1 implies out[j] == cur[j] by {}
            assert(cur.take(prev + 1) == log.take(prev + 1));
        }
        assert forall|i: int| 0 <= i < es.len() implies {
            &&& (#[trigger] out[prev + 1 + i]).term == es[i].term
            &&& out[prev + 1 + i].index == es[i].index
        } by {
            if i < k {
                assert(front[i] == es[i]);
                assert(out[prev + 1 + i] == cur[prev + 1 + i]);
            }
        }
    }
}

/// Once a follower accepts an append request whose entries are numbered on
/// from just after the previous entry (as a leader sends them), its log keeps
/// everything up to the previous entry and holds, at each sent position, an
/// entry of the sent term.
pub proof fn lemma_accepted_entries_agree(s: RaftState, a: AppendEntriesArgsView)
    requires
        s.wf(),
        a.term >= s.current_term,
        s.prev_log_matches(a),
        forall|i: int| 0 <= i < a.entries.len() ==> (#[trigger] a.entries[i]).index == a.prev_log_index + 1 + i,
    ensures
        ({
            let (s2, reply) = s.append_entries_result(a);
            let p = a.prev_log_index as int;
            &&& reply.success
            &&& s2.log.take(p + 1) == s.log.take(p + 1)
            &&& s2.log.len() >= p + 1 + a.entries.len()
            &&& forall|i: int| 0 <= i < a.entries.len() ==> {
                &&& (#[trigger] s2.log[p + 1 + i]).term == a.entries[i].term
                &&& s2.log[p + 1 + i].index == a.entries[i].index
            }
        }),
{
    lemma_merge_contiguous(s.log, a.entries, a.prev_log_index as int);
}

/// Merging entries none of which would replace the first entry keeps the
/// log non-empty, its first entry in place, and every entry at its own
/// position.
proof fn lemma_merge_keeps_head(log: Seq<EntryView>, es: Seq<EntryView>)
    requires
        log_indexed(log),
        log.len() >= 1,
        entries_keep_head(log[0].term, es),
    ensures
        merge_entries(log, es).len() >= 1,
        merge_entries(log, es)[0] == log[0],
        log_indexed(merge_entries(log, es)),
    decreases es.len(),
{
    if es.len() > 0 {
        let front = es.drop_last();
        assert forall|i: int| 0 <= i < front.len() && (#[trigger] front[i]).index == 0 implies front[i].term == log[0].term by {
            assert(front[i] == es[i]);
        }
        lemma_merge_keeps_head(log, front);
        let e = es.last();
        assert(e == es[es.len() - 1]);
    }
}

/// Handling an append request never loses the first entry of the log: when
/// no incoming entry would replace it, the log stays non-empty, keeps its
/// first entry, and keeps every entry at its own position.
pub proof fn lemma_append_keeps_first_entry(s: RaftState, a: AppendEntriesArgsView)
    requires
        s.log.len() >= 1,
        log_indexed(s.log),
        entries_keep_head(s.log[0].term, a.entries),
    ensures
        s.append_entries_result(a).0.log.len() >= 1,
        s.append_entries_result(a).0.log[0] == s.log[0],
        log_indexed(s.append_entries_result(a).0.log),
        s.wf() && merges_fit(s.log, a.entries) ==> s.append_entries_allowed(a),
{
    lemma_merge_keeps_head(s.log, a.entries);
}

/// Merging entries that each already sit in the log at their own position
/// with their term changes nothing.
proof fn lemma_merge_present_is_noop(log: Seq<EntryView>, es: Seq<EntryView>)
    requires
        forall|i: int| 0 <= i < es.len() ==> {
            &&& ((#[trigger] es[i]).index as int) < log.len()
            &&& log[es[i].index as int].term == es[i].term
        },
    ensures
        merge_entries(log, es) == log,
    decreases es.len(),
{
    if es.len() > 0 {
        let front = es.drop_last();
        assert forall|i: int| 0 <= i < front.len() implies {
            &&& ((#[trigger] front[i]).index as int) < log.len()
            &&& log[front[i].index as int].term == front[i].term
        } by {
            assert(front[i] == es[i]);
        }
        lemma_merge_present_is_noop(log, front);
        assert(es.last() == es[es.len() - 1]);
    }
}

/// A retransmitted append request, whose entries are numbered on from just
/// after the previous entry, is answered as the first time and changes
/// nothing more: no entry is cut or appended twice, and the commit position
/// stays. A request that a node could handle once it can handle again.
pub proof fn lemma_append_retransmission_idempotent(s: RaftState, a: AppendEntriesArgsView)
    requires
        s.log.len() >= 1,
        log_indexed(s.log),
        forall|i: int| 0 <= i < a.entries.len() ==> (#[trigger] a.entries[i]).index == a.prev_log_index + 1 + i,
    ensures
        ({
            let (s1, r1) = s.append_entries_result(a);
            s1.append_entries_result(a) == (s1, r1)
        }),
        s.append_entries_allowed(a) ==> s.append_entries_result(a).0.append_entries_allowed(a),
{
    let (s1, r1) = s.append_entries_result(a);
    if a.term >= s.current_term && s.prev_log_matches(a) {
        lemma_merge_contiguous(s.log, a.entries, a.prev_log_index as int);
        let p = a.prev_log_index as int;
        assert(s1.log[p] == s.log[p]) by {
            assert(s1.log.take(p + 1)[p] == s.log.take(p + 1)[p]);
        }
        assert(s1.prev_log_matches(a));
        assert forall|i: int| 0 <= i < a.entries.len() implies {
            &&& ((#[trigger] a.entries[i]).index as int) < s1.log.len()
            &&& s1.log[a.entries[i].index as int].term == a.entries[i].term
        } by {
            assert(s1.log[p + 1 + i].term == a.entries[i].term);
        }
        lemma_merge_present_is_noop(s1.log, a.entries);
        if s.append_entries_allowed(a) {
            assert(a.entries.take(a.entries.len() as int) =~= a.entries);
            assert(merge_entries(s.log, a.entries.take(a.entries.len() as int)).len() <= u32::MAX);
            assert(s1.log[0] == s.log[0]) by {
                assert(s1.log.take(p + 1)[0] == s.log.take(p + 1)[0]);
            }
            assert forall|k: int| 0 <= k <= a.entries.len() implies #[trigger] merge_entries(
                s1.log,
                a.entries.take(k),
            ).len() <= u32::MAX by {
                let front = a.entries.take(k);
                assert forall|i: int| 0 <= i < front.len() implies {
                    &&& ((#[trigger] front[i]).index as int) < s1.log.len()
                    &&& s1.log[front[i].index as int].term == front[i].term
                } by {
                    assert(front[i] == a.entries[i]);
                    assert(s1.log[p + 1 + i].term == a.entries[i].term);
                }
                lemma_merge_present_is_noop(s1.log, front);
            }
            assert(s1.wf());
        }
    }
}

/// Every peer a leader replicates to has a match position below its next
/// position, for as long as the leader's state stays well formed (which
/// `RaftLeaderState::new` establishes and `handle_append_reply` keeps).
pub proof fn lemma_match_below_next(leader: RaftLeaderState, s: RaftState, p: NodeId)
    requires
        leader.wf_for(s),
        is_follower_peer(s, p),
    ensures
        leader.next_index@.contains_key(p),
        leader.match_index@.contains_key(p),
        leader.match_index@[p] < leader.next_index@[p],
{
    assert(leader.next_index@.contains_key(p));
    assert(leader.match_index@.contains_key(p));
}

/// A leader's commit position never goes down, and when it moves, it moves
/// to an entry of the leader's term that more than half of the cluster
/// holds.
pub proof fn lemma_leader_commit_safe(s: RaftState, match_index: Map<NodeId, u32>)
    requires
        s.wf(),
    ensures
        leader_commit_target(s, match_index) >= s.commit_index,
        leader_commit_target(s, match_index) > s.commit_index ==> {
            &&& leader_commit_target(s, match_index) <= s.last_index()
            &&& committable(s, match_index, leader_commit_target(s, match_index))
        },
{
    lemma_commit_upto_bounds(s, match_index, s.last_index());
}

proof fn lemma_commit_upto_bounds(s: RaftState, m: Map<NodeId, u32>, k: int)
    ensures
        commit_upto(s, m, k) >= s.commit_index,
        commit_upto(s, m, k) > s.commit_index ==> commit_upto(s, m, k) <= k && committable(
            s,
            m,
            commit_upto(s, m, k),
        ),
    decreases k,
{
    if k > s.commit_index && !committable(s, m, k) {
        lemma_commit_upto_bounds(s, m, k - 1);
    }
}

/// A follower's commit position does not go down on an accepted append,
/// as long as its log still reaches the old commit position afterwards.
pub proof fn lemma_follower_commit_monotone(s: RaftState, a: AppendEntriesArgsView)
    requires
        s.wf(),
        merge_entries(s.log, a.entries).len() > s.commit_index,
    ensures
        s.append_entries_result(a).0.commit_index >= s.commit_index,
{
}

/// A command that a leader adds is in its log at the position the answer
/// names, with the leader's term, the command's type and key, and a value
/// that reads back as the text the client sent; the entries before it are
/// untouched.
pub proof fn lemma_added_command_is_listed(s: RaftState, command_type: Seq<char>, key: Seq<char>, value: Seq<char>)
    requires
        s.add_log_allowed(command_type),
        s.status == RaftNodeStatus::Leader,
    ensures
        ({
            let (s2, r) = s.add_log_result(command_type, key, value);
            &&& r.is_leader
            &&& r.log_index == s2.last_index()
            &&& s2.log[r.log_index as int].index == r.log_index
            &&& s2.log[r.log_index as int].term == s.current_term
            &&& s2.log[r.log_index as int].command_type == command_type_number(
                command_type_named(command_type).unwrap(),
            )
            &&& s2.log[r.log_index as int].key == key
            &&& value_text_of(s2.log[r.log_index as int].value) == value
            &&& s2.log.take(s.log.len() as int) == s.log
            &&& s2.wf()
        }),
{
    let (s2, r) = s.add_log_result(command_type, key, value);
    encode_utf8_valid_utf8(value);
    encode_utf8_decode_utf8(value);
    assert(s2.log.take(s.log.len() as int) =~= s.log);
    assert(s2.log[r.log_index as int].value == encode_utf8(value));
}

/// A vote request from a later term always makes the node a follower in
/// that term, granted or not; the vote goes to the candidate exactly when its
/// log ends in a later term, or in the same term at a position at least as
/// far, and otherwise the node has voted for no one in the new term.
pub proof fn lemma_later_vote_request_demotes(s: RaftState, v: RequestVoteArgs)
    requires
        v.term > s.current_term,
    ensures
        ({
            let (s2, r) = s.request_vote_result(v);
            let last = s.log.len() - 1;
            let last_term = s.log[last].term;
            let behind_or_equal = v.last_log_term > last_term || (v.last_log_term == last_term
                && v.last_log_index >= last);
            &&& s2.status == RaftNodeStatus::Follower
            &&& s2.current_term == v.term
            &&& r.term == v.term
            &&& r.vote_granted == behind_or_equal
            &&& s2.voted_for == if behind_or_equal { Some(v.candidate_id) } else { None }
            &&& s2.log == s.log
            &&& s2.commit_index == s.commit_index
        }),
{
}

/// An append request of at least the node's term always makes the node a
/// follower of that leader in that term, whether or not the entry before the
/// sent ones matches; it succeeds exactly when the node holds that entry with
/// the leader's term, and otherwise leaves the log and commit position as
/// they were.
pub proof fn lemma_current_append_demotes(s: RaftState, a: AppendEntriesArgsView)
    requires
        a.term >= s.current_term,
    ensures
        ({
            let (s2, r) = s.append_entries_result(a);
            let holds_prev = (a.prev_log_index as int) < s.log.len() && s.log[a.prev_log_index as int].term
                == a.prev_log_term;
            &&& s2.status == RaftNodeStatus::Follower
            &&& s2.current_term == a.term
            &&& s2.voted_for == Some(a.leader_id)
            &&& r.term == a.term
            &&& r.success == holds_prev
            &&& !holds_prev ==> s2.log == s.log && s2.commit_index == s.commit_index
            &&& holds_prev && a.leader_commit > s.commit_index && 1 <= s2.log.len() <= u32::MAX ==> s2.commit_index == if (a.leader_commit as int)
                < s2.log.len() - 1 {
                a.leader_commit as int
            } else {
                s2.log.len() - 1
            }
            &&& holds_prev && a.leader_commit <= s.commit_index ==> s2.commit_index == s.commit_index
            &&& s2.last_applied == s.last_applied
        }),
{
}

/// Every append request a leader builds carries the leader's term and id and
/// its commit position, never more; the entry before the sent ones is the
/// leader's own entry at that position, and the sent entries are the
/// leader's entries from the peer's next position on.
pub proof fn lemma_append_request_carries_commit(s: RaftState, next: u32)
    requires
        s.wf(),
        next >= 1,
    ensures
        ({
            let a = append_request(s, next);
            &&& a.leader_commit == s.commit_index
            &&& a.term == s.current_term
            &&& a.leader_id == s.me
            &&& (a.prev_log_index as int) < s.log.len()
            &&& a.prev_log_term == s.log[a.prev_log_index as int].term
            &&& a.prev_log_index + 1 + a.entries.len() == s.log.len()
            &&& forall|i: int| 0 <= i < a.entries.len() ==> #[trigger] a.entries[i] == s.log[a.prev_log_index + 1 + i]
        }),
{
}

/// An entry may be committed exactly when it is of the leader's term and the
/// leader with the peers whose match position reaches it are more than half
/// of the cluster.
pub proof fn lemma_committable_is_majority(s: RaftState, match_index: Map<NodeId, u32>, ci: int)
    ensures
        committable(s, match_index, ci) <==> (s.log[ci].term == s.current_term && 2 * (count_where(
            match_index,
            reaches(ci as u32),
        ) + 1) > s.peers.len()),
{
}

/// A leader commits up to the highest entry it may commit: no committable
/// entry lies past its new commit position.
pub proof fn lemma_commit_target_is_highest(s: RaftState, match_index: Map<NodeId, u32>, ci: int)
    requires
        s.commit_index < ci <= s.last_index(),
        s.log[ci].term == s.current_term,
        2 * (count_where(match_index, reaches(ci as u32)) + 1) > s.peers.len(),
    ensures
        leader_commit_target(s, match_index) >= ci,
{
    lemma_commit_upto_reaches(s, match_index, ci, s.last_index());
}

proof fn lemma_commit_upto_reaches(s: RaftState, m: Map<NodeId, u32>, ci: int, k: int)
    requires
        s.commit_index < ci <= k,
        committable(s, m, ci),
    ensures
        commit_upto(s, m, k) >= ci,
    decreases k,
{
    if k > ci && !committable(s, m, k) {
        lemma_commit_upto_reaches(s, m, ci, k - 1);
    }
}

/// A leader alone in its cluster commits every entry of its term by itself:
/// when its last entry is of its term and not yet committed, it commits up
/// to that entry, whatever it knows of peers.
pub proof fn lemma_single_node_commits_own_entries(s: RaftState, match_index: Map<NodeId, u32>)
    requires
        s.peers.len() <= 1,
        s.commit_index < s.last_index(),
        s.log[s.last_index()].term == s.current_term,
    ensures
        leader_commit_target(s, match_index) == s.last_index(),
{
}

/// A follower's apply step applies everything committed and not yet applied,
/// in log order: afterwards its applied position is the larger of the old one
/// and the commit position, and the applied entries are exactly the log's
/// entries after the old applied position up to the commit position.
pub proof fn lemma_follower_applies_all_committed(s: RaftState)
    requires
        s.commit_index <= s.last_applied || s.commit_index < s.log.len(),
    ensures
        follower_applied_state(s).last_applied == if s.commit_index > s.last_applied {
            s.commit_index
        } else {
            s.last_applied
        },
        follower_applied_state(s).commit_index == s.commit_index,
        follower_applied_state(s).log == s.log,
        follower_applied_entries(s).len() == if s.commit_index > s.last_applied {
            s.commit_index - s.last_applied
        } else {
            0
        },
        forall|i: int| 0 <= i < follower_applied_entries(s).len() ==> #[trigger] follower_applied_entries(s)[i]
            == s.log[s.last_applied + 1 + i],
{
}

/// A vote request of the node's own term is granted exactly when the node
/// has voted for no one yet and the candidate's log is at least as up to
/// date (it ends in a later term, or in the same term at a position at least
/// as far), or when the node already voted for that candidate; a granted
/// vote is recorded, and nothing else changes.
pub proof fn lemma_same_term_vote_rule(s: RaftState, v: RequestVoteArgs)
    requires
        v.term == s.current_term,
    ensures
        ({
            let (s2, r) = s.request_vote_result(v);
            let last = s.log.len() - 1;
            let last_term = s.log[last].term;
            let up_to_date = v.last_log_term > last_term || (v.last_log_term == last_term
                && v.last_log_index >= last);
            let grant = (s.voted_for is None && up_to_date) || s.voted_for == Some(v.candidate_id);
            &&& r.vote_granted == grant
            &&& r.term == s.current_term
            &&& s2.voted_for == if grant { Some(v.candidate_id) } else { s.voted_for }
            &&& s2.status == s.status
            &&& s2.current_term == s.current_term
            &&& s2.log == s.log
            &&& s2.commit_index == s.commit_index
            &&& s2.last_applied == s.last_applied
        }),
{
}

/// The status the client interface reports: the node's term, and whether
/// it leads.
pub proof fn lemma_status_reports_leadership(s: RaftState)
    ensures
        s.status_response().current_term == s.current_term,
        s.status_response().is_leader <==> s.status == RaftNodeStatus::Leader,
{
}

/// Starting an election makes the node a candidate of the next term that
/// voted for itself, and changes nothing else.
pub proof fn lemma_election_makes_candidate(s: RaftState)
    requires
        s.current_term < u32::MAX,
    ensures
        election_started(s).status == RaftNodeStatus::Candidate,
        election_started(s).current_term == s.current_term + 1,
        election_started(s).voted_for == Some(s.me),
        election_started(s).log == s.log,
        election_started(s).commit_index == s.commit_index,
        election_started(s).last_applied == s.last_applied,
        election_started(s).peers == s.peers,
{
}

/// A candidate asks each peer other than itself that has not answered yet,
/// once, and only those; every request carries the candidate's term, its id,
/// and the position and term of its last entry.
pub proof fn lemma_vote_requests_cover_peers(s: RaftState, votes: Map<NodeId, bool>)
    requires
        s.wf(),
    ensures
        ({
            let reqs = vote_requests(s, votes);
            let last = s.log.len() - 1;
            &&& forall|i: int| 0 <= i < reqs.len() ==> {
                &&& (#[trigger] reqs[i]).0 != s.me
                &&& !votes.dom().contains(reqs[i].0)
                &&& s.peers.contains(reqs[i].0)
                &&& reqs[i].1.term == s.current_term
                &&& reqs[i].1.candidate_id == s.me
                &&& reqs[i].1.last_log_index == last
                &&& reqs[i].1.last_log_term == s.log[last].term
            }
            &&& forall|p: NodeId| s.peers.contains(p) && p != s.me && !votes.dom().contains(p) ==> exists|i: int|
                0 <= i < reqs.len() && (#[trigger] reqs[i]).0 == p
            &&& forall|i: int, j: int| 0 <= i < j < reqs.len() ==> (#[trigger] reqs[i]).0 != (#[trigger] reqs[j]).0
        }),
{
    broadcast use vstd::seq_lib::group_filter_ensures;

    let pred = |p: NodeId| p != s.me && !votes.dom().contains(p);
    let t = s.peers.filter(pred);
    let reqs = vote_requests(s, votes);
    assert forall|i: int| 0 <= i < reqs.len() implies s.peers.contains((#[trigger] reqs[i]).0) by {
        assert(t.contains(t[i]));
        s.peers.lemma_filter_contains_rev(pred, t[i]);
    }
    assert forall|p: NodeId| s.peers.contains(p) && p != s.me && !votes.dom().contains(p) implies exists|i: int|
        0 <= i < reqs.len() && (#[trigger] reqs[i]).0 == p by {
        let k = choose|k: int| 0 <= k < s.peers.len() && s.peers[k] == p;
        assert(pred(s.peers[k]));
        assert(t.contains(p));
        let i = choose|i: int| 0 <= i < t.len() && t[i] == p;
        assert(reqs[i].0 == p);
    }
    assert forall|i: int, j: int| 0 <= i < j < reqs.len() implies (#[trigger] reqs[i]).0 != (#[trigger] reqs[j]).0 by {
        lemma_filter_no_duplicates(s.peers, pred);
        assert(t[i] != t[j]);
    }
}

proof fn lemma_filter_no_duplicates(s: Seq<NodeId>, pred: spec_fn(NodeId) -> bool)
    requires
        s.no_duplicates(),
    ensures
        s.filter(pred).no_duplicates(),
    decreases s.len(),
{
    broadcast use vstd::seq_lib::group_filter_ensures;

    reveal(Seq::filter);
    if s.len() > 0 {
        let front = s.drop_last();
        assert(front.no_duplicates());
        lemma_filter_no_duplicates(front, pred);
        if pred(s.last()) {
            let f = front.filter(pred);
            assert forall|i: int| 0 <= i < f.len() implies f[i] != s.last() by {
                assert(f.contains(f[i]));
                front.lemma_filter_contains_rev(pred, f[i]);
                let k = choose|k: int| 0 <= k < front.len() && front[k] == f[i];
                assert(s[k] == front[k]);
                assert(s[s.len() - 1] == s.last());
            }
            assert(s.filter(pred) == f.push(s.last()));
            assert forall|i: int, j: int| 0 <= i < s.filter(pred).len() && 0 <= j < s.filter(pred).len() && i != j
                implies s.filter(pred)[i] != s.filter(pred)[j] by {
                if i < f.len() && j < f.len() {
                } else if i < f.len() {
                    assert(s.filter(pred)[j] == s.last());
                } else {
                    assert(s.filter(pred)[i] == s.last());
                }
            }
        } else {
            assert(s.filter(pred) == front.filter(pred));
        }
    }
}

/// A leader's commit step applies everything it newly commits that was not
/// applied yet, in log order: when the commit position rises past what was
/// applied, the applied position becomes the new commit position and the
/// applied entries are exactly the log's entries after the old applied
/// position up to it; otherwise nothing is applied.
pub proof fn lemma_leader_applies_all_committed(s: RaftState, match_index: Map<NodeId, u32>)
    requires
        s.wf(),
    ensures
        ({
            let t = leader_commit_target(s, match_index);
            let s2 = committed_state(s, t);
            let out = applied_entries(s, t);
            &&& s2.commit_index == t
            &&& s2.log == s.log
            &&& (t > s.commit_index && t > s.last_applied) ==> {
                &&& s2.last_applied == t
                &&& out.len() == t - s.last_applied
                &&& forall|i: int| 0 <= i < out.len() ==> #[trigger] out[i] == s.log[s.last_applied + 1 + i]
            }
            &&& !(t > s.commit_index && t > s.last_applied) ==> s2.last_applied == s.last_applied && out.len()
                == 0
        }),
{
    lemma_leader_commit_safe(s, match_index);
}

} // verus!
