use raft_kv_rs::node::candidate_state::RaftCandidateState;
use raft_kv_rs::node::follower_state::RaftFollowerState;
use raft_kv_rs::node::leader_state::RaftLeaderState;
use raft_kv_rs::node::RaftCore;
use raft_kv_rs::node::RaftGrpcHandler;
use raft_kv_rs::node::RaftHttpHandle;
use raft_kv_rs::node::RaftNodeStatus;
use raft_kv_rs::http_server::RaftAddLogRequest;
use raft_kv_rs::raft_proto::AppendEntriesReply;
use raft_kv_rs::raft_proto::Entry;
use raft_kv_rs::raft_proto::RequestVoteReply;

fn entry(index: u32, term: u32, key: &str) -> Entry {
    Entry {
        index,
        term,
        command_type: 1,
        key: key.to_string(),
        value: key.as_bytes().to_vec(),
    }
}

fn keys(entries: &[Entry]) -> Vec<String> {
    entries.iter().map(|e| e.key.clone()).collect()
}

fn leader_with_log(terms: &[u32], current_term: u32) -> RaftCore {
    let mut core = RaftCore::new(0, vec![0, 1, 2]);
    for (i, t) in terms.iter().enumerate() {
        core.logs.push(entry(i as u32 + 1, *t, &format!("k{}", i + 1)));
    }
    core.current_term = current_term;
    core.status = RaftNodeStatus::Leader;
    core
}

#[test]
fn follower_applies_committed_entries_in_order() {
    let mut core = RaftCore::new(0, vec![0, 1, 2]);
    core.logs.push(entry(1, 1, "a"));
    core.logs.push(entry(2, 1, "b"));
    core.logs.push(entry(3, 1, "c"));
    core.commit_index = 2;
    let follower = RaftFollowerState::new();
    assert!(follower.can_commit_and_apply(&core));
    let applied = follower.commit_and_apply(&mut core);
    assert_eq!(keys(&applied), vec!["a", "b"]);
    assert_eq!(core.last_applied, 2);
    // nothing more until the commit position moves
    assert!(follower.commit_and_apply(&mut core).is_empty());
    core.commit_index = 3;
    assert_eq!(keys(&follower.commit_and_apply(&mut core)), vec!["c"]);
    assert_eq!(core.last_applied, 3);
}

#[test]
fn follower_cannot_apply_past_its_log() {
    let mut core = RaftCore::new(0, vec![0, 1, 2]);
    core.commit_index = 4;
    assert!(!RaftFollowerState::new().can_commit_and_apply(&core));
}

#[test]
fn follower_times_out_into_a_candidate() {
    let mut core = RaftCore::new(0, vec![0, 1, 2]);
    RaftFollowerState::new().handle_elect_timeout(&mut core);
    assert_eq!(core.status, RaftNodeStatus::Candidate);
}

#[test]
fn election_starts_a_new_term_voting_for_itself() {
    let mut core = RaftCore::new(1, vec![0, 1, 2]);
    core.current_term = 4;
    let mut candidate = RaftCandidateState::new();
    candidate.votes.insert(2, true);
    candidate.start_election(&mut core);
    assert_eq!(core.current_term, 5);
    assert_eq!(core.status, RaftNodeStatus::Candidate);
    assert_eq!(core.voted_for, Some(1));
    assert!(candidate.votes.is_empty());
}

#[test]
fn vote_requests_go_to_every_other_peer() {
    let mut core = RaftCore::new(1, vec![0, 1, 2]);
    core.logs.push(entry(1, 3, "a"));
    core.current_term = 4;
    let candidate = RaftCandidateState::new();
    let reqs = candidate.broadcast_request_vote(&core);
    let targets: Vec<i32> = reqs.iter().map(|r| r.0).collect();
    assert_eq!(targets, vec![0, 2]);
    for (_, args) in &reqs {
        assert_eq!(args.term, 4);
        assert_eq!(args.candidate_id, 1);
        assert_eq!(args.last_log_index, 1);
        assert_eq!(args.last_log_term, 3);
    }
}

#[test]
fn peers_that_answered_are_not_asked_again() {
    let core = RaftCore::new(1, vec![0, 1, 2]);
    let mut candidate = RaftCandidateState::new();
    candidate.votes.insert(0, false);
    let reqs = candidate.broadcast_request_vote(&core);
    let targets: Vec<i32> = reqs.iter().map(|r| r.0).collect();
    assert_eq!(targets, vec![2]);
}

#[test]
fn one_granted_vote_wins_a_three_node_election() {
    let mut core = RaftCore::new(1, vec![0, 1, 2]);
    core.current_term = 2;
    let mut candidate = RaftCandidateState::new();
    assert!(!candidate.can_to_leader(&core));
    candidate.handle_vote_reply(&mut core, 0, RequestVoteReply { term: 2, vote_granted: false });
    assert_eq!(core.status, RaftNodeStatus::Follower);
    candidate.handle_vote_reply(&mut core, 2, RequestVoteReply { term: 2, vote_granted: true });
    assert_eq!(core.status, RaftNodeStatus::Leader);
}

#[test]
fn five_node_election_needs_two_granted_votes() {
    let mut core = RaftCore::new(0, vec![0, 1, 2, 3, 4]);
    core.current_term = 1;
    core.status = RaftNodeStatus::Candidate;
    let mut candidate = RaftCandidateState::new();
    candidate.handle_vote_reply(&mut core, 1, RequestVoteReply { term: 1, vote_granted: true });
    assert_eq!(core.status, RaftNodeStatus::Candidate);
    // the same peer counts once
    candidate.handle_vote_reply(&mut core, 1, RequestVoteReply { term: 1, vote_granted: true });
    assert_eq!(core.status, RaftNodeStatus::Candidate);
    candidate.handle_vote_reply(&mut core, 3, RequestVoteReply { term: 1, vote_granted: true });
    assert_eq!(core.status, RaftNodeStatus::Leader);
}

#[test]
fn answers_from_other_terms_are_ignored() {
    let mut core = RaftCore::new(1, vec![0, 1, 2]);
    core.current_term = 3;
    core.status = RaftNodeStatus::Candidate;
    let mut candidate = RaftCandidateState::new();
    candidate.handle_vote_reply(&mut core, 0, RequestVoteReply { term: 2, vote_granted: true });
    assert!(candidate.votes.is_empty());
    assert_eq!(core.status, RaftNodeStatus::Candidate);
}

#[test]
fn single_node_candidate_wins_alone() {
    let core = RaftCore::new(0, vec![0]);
    assert!(RaftCandidateState::new().can_to_leader(&core));
}

#[test]
fn new_leader_starts_past_its_log() {
    let core = leader_with_log(&[1, 1], 2);
    let leader = RaftLeaderState::new(&core);
    assert_eq!(leader.next_index.len(), 2);
    assert_eq!(leader.next_index.get(&1), Some(&3));
    assert_eq!(leader.next_index.get(&2), Some(&3));
    assert_eq!(leader.next_index.get(&0), None);
    assert_eq!(leader.match_index.get(&1), Some(&0));
    assert_eq!(leader.match_index.get(&2), Some(&0));
}

#[test]
fn leader_sends_heartbeat_to_up_to_date_peer() {
    let core = leader_with_log(&[1, 2], 2);
    let leader = RaftLeaderState::new(&core);
    let (prev_term, prev_index, entries) = leader.get_append_logs(&core, &1);
    assert_eq!((prev_term, prev_index), (2, 2));
    assert!(entries.is_empty());
}

#[test]
fn leader_sends_missing_entries() {
    let core = leader_with_log(&[1, 2, 2], 2);
    let mut leader = RaftLeaderState::new(&core);
    leader.next_index.insert(2, 2);
    let (prev_term, prev_index, entries) = leader.get_append_logs(&core, &2);
    assert_eq!((prev_term, prev_index), (1, 1));
    assert_eq!(keys(&entries), vec!["k2", "k3"]);
    let reqs = leader.broadcast_append_entries(&core);
    assert_eq!(reqs.len(), 2);
    assert_eq!(reqs[0].0, 1);
    assert!(reqs[0].1.entries.is_empty());
    assert_eq!(reqs[1].0, 2);
    assert_eq!(reqs[1].1.prev_log_index, 1);
    assert_eq!(reqs[1].1.term, 2);
    assert_eq!(reqs[1].1.leader_id, 0);
    assert_eq!(keys(&reqs[1].1.entries), vec!["k2", "k3"]);
}

#[test]
fn successful_reply_advances_the_peer() {
    let core = leader_with_log(&[1, 2, 2], 2);
    let mut leader = RaftLeaderState::new(&core);
    leader.next_index.insert(2, 2);
    let ok = AppendEntriesReply { term: 2, success: true };
    assert!(leader.can_handle_append_reply(&core, 2, 2, &ok));
    leader.handle_append_reply(&core, 2, 2, ok);
    assert_eq!(leader.next_index.get(&2), Some(&4));
    assert_eq!(leader.match_index.get(&2), Some(&3));
    // failures, other terms and heartbeats move nothing
    leader.handle_append_reply(&core, 1, 2, AppendEntriesReply { term: 2, success: false });
    leader.handle_append_reply(&core, 1, 2, AppendEntriesReply { term: 1, success: true });
    leader.handle_append_reply(&core, 1, 0, AppendEntriesReply { term: 2, success: true });
    assert_eq!(leader.next_index.get(&1), Some(&4));
    assert_eq!(leader.match_index.get(&1), Some(&0));
    // an unknown peer cannot be taken in
    assert!(!leader.can_handle_append_reply(&core, 9, 1, &ok));
}

#[test]
fn leader_commits_majority_entries_of_its_term() {
    let mut core = leader_with_log(&[1, 2, 2], 2);
    let mut leader = RaftLeaderState::new(&core);
    // nobody holds anything yet
    assert!(leader.try_commit_and_apply(&mut core).is_empty());
    assert_eq!(core.commit_index, 0);
    leader.match_index.insert(1, 2);
    let applied = leader.try_commit_and_apply(&mut core);
    // entry 1 is of an older term, so it is committed only through entry 2
    assert_eq!(core.commit_index, 2);
    assert_eq!(core.last_applied, 2);
    assert_eq!(keys(&applied), vec!["k1", "k2"]);
    leader.match_index.insert(2, 3);
    assert_eq!(keys(&leader.try_commit_and_apply(&mut core)), vec!["k3"]);
    assert_eq!(core.commit_index, 3);
}

#[test]
fn old_term_entries_alone_are_not_committed() {
    let mut core = leader_with_log(&[1, 1], 2);
    let mut leader = RaftLeaderState::new(&core);
    leader.match_index.insert(1, 2);
    leader.match_index.insert(2, 2);
    assert!(leader.try_commit_and_apply(&mut core).is_empty());
    assert_eq!(core.commit_index, 0);
}

#[test]
fn replication_brings_follower_to_leader_log() {
    let mut leader_core = RaftCore::new(0, vec![0, 1, 2]);
    leader_core.current_term = 1;
    leader_core.status = RaftNodeStatus::Leader;
    for (k, v) in [("a", "1"), ("b", "2"), ("c", "3")] {
        leader_core.handle_add_log(RaftAddLogRequest {
            command_type: "PUT".to_string(),
            key: k.to_string(),
            value: v.to_string(),
        });
    }
    let mut leader = RaftLeaderState::new(&leader_core);
    leader.next_index.insert(1, 1);
    let mut follower = RaftCore::new(1, vec![0, 1, 2]);
    let reqs = leader.broadcast_append_entries(&leader_core);
    let (peer, args) = reqs.into_iter().find(|r| r.0 == 1).unwrap();
    let sent = args.entries.len();
    let reply = follower.handle_append_entries(args);
    assert!(reply.success);
    assert_eq!(keys(&follower.logs), keys(&leader_core.logs));
    assert_eq!(follower.logs.len(), 4);
    leader.handle_append_reply(&leader_core, peer, sent, reply);
    assert_eq!(leader.match_index.get(&1), Some(&3));
    let applied = leader.try_commit_and_apply(&mut leader_core);
    assert_eq!(keys(&applied), vec!["a", "b", "c"]);
    // the next heartbeat carries the commit position to the follower
    let reqs = leader.broadcast_append_entries(&leader_core);
    let (_, args) = reqs.into_iter().find(|r| r.0 == 1).unwrap();
    assert!(args.entries.is_empty());
    assert!(follower.handle_append_entries(args).success);
    assert_eq!(follower.commit_index, 3);
}

#[test]
fn two_candidates_cannot_both_win_a_term() {
    let mut a = RaftCore::new(0, vec![0, 1, 2]);
    let mut b = RaftCore::new(1, vec![0, 1, 2]);
    let mut voter = RaftCore::new(2, vec![0, 1, 2]);
    let mut ca = RaftCandidateState::new();
    let mut cb = RaftCandidateState::new();
    ca.start_election(&mut a);
    cb.start_election(&mut b);
    assert_eq!(a.current_term, 1);
    assert_eq!(b.current_term, 1);
    let reqs_a = ca.broadcast_request_vote(&a);
    let reqs_b = cb.broadcast_request_vote(&b);
    // every node answers both candidates, the first one first
    for (target, args) in reqs_a.iter().chain(reqs_b.iter()) {
        let node = match target {
            0 => &mut a,
            1 => &mut b,
            _ => &mut voter,
        };
        let reply = node.handle_request_vote(*args);
        if args.candidate_id == 0 {
            ca.handle_vote_reply(&mut a, *target, reply);
        } else {
            cb.handle_vote_reply(&mut b, *target, reply);
        }
    }
    assert_eq!(a.status, RaftNodeStatus::Leader);
    assert_ne!(b.status, RaftNodeStatus::Leader);
    assert_eq!(voter.voted_for, Some(0));
}

#[test]
fn vote_requests_are_retried_only_on_network_failures() {
    assert!(RaftCandidateState::should_retry_request_vote(tonic::Code::Unavailable as i32));
    assert!(RaftCandidateState::should_retry_request_vote(tonic::Code::DeadlineExceeded as i32));
    assert!(RaftCandidateState::should_retry_request_vote(tonic::Code::Unknown as i32));
    assert!(!RaftCandidateState::should_retry_request_vote(tonic::Code::Aborted as i32));
    assert!(!RaftCandidateState::should_retry_request_vote(tonic::Code::Ok as i32));
}

#[test]
fn match_stays_below_next() {
    let core = leader_with_log(&[1, 1, 1], 1);
    let mut leader = RaftLeaderState::new(&core);
    for p in [1, 2] {
        assert!(leader.match_index[&p] < leader.next_index[&p]);
    }
    leader.handle_append_reply(&core, 1, 3, AppendEntriesReply { term: 1, success: true });
    leader.handle_append_reply(&core, 1, 3, AppendEntriesReply { term: 1, success: true });
    for p in [1, 2] {
        assert!(leader.match_index[&p] < leader.next_index[&p]);
    }
    assert_eq!(leader.next_index[&1], 10);
    assert_eq!(leader.match_index[&1], 9);
}
