use raft_kv_rs::http_server::RaftAddLogRequest;
use raft_kv_rs::node::error::RaftError;
use raft_kv_rs::node::RaftCore;
use raft_kv_rs::node::RaftGrpcHandler;
use raft_kv_rs::node::RaftHttpHandle;
use raft_kv_rs::node::RaftNodeStatus;
use raft_kv_rs::node::RaftRequest;
use raft_kv_rs::node::RaftResponse;
use raft_kv_rs::raft_proto::AppendEntriesArgs;
use raft_kv_rs::raft_proto::Entry;
use raft_kv_rs::raft_proto::RequestVoteArgs;

fn entry(index: u32, term: u32, key: &str) -> Entry {
    Entry {
        index,
        term,
        command_type: 1,
        key: key.to_string(),
        value: key.as_bytes().to_vec(),
    }
}

fn heartbeat(term: u32, leader_id: i32, prev_log_index: u32, prev_log_term: u32, leader_commit: u32) -> AppendEntriesArgs {
    AppendEntriesArgs {
        term,
        leader_id,
        prev_log_index,
        prev_log_term,
        entries: vec![],
        leader_commit,
    }
}

fn terms(core: &RaftCore) -> Vec<u32> {
    core.logs.iter().map(|e| e.term).collect()
}

fn add_request(command_type: &str, key: &str, value: &str) -> RaftAddLogRequest {
    RaftAddLogRequest {
        command_type: command_type.to_string(),
        key: key.to_string(),
        value: value.to_string(),
    }
}

#[test]
fn new_node_is_a_follower_in_term_zero() {
    let core = RaftCore::new(0, vec![0, 1, 2]);
    assert_eq!(core.current_term, 0);
    assert_eq!(core.voted_for, None);
    assert_eq!(core.status, RaftNodeStatus::Follower);
    assert_eq!(core.logs.len(), 1);
    assert_eq!(core.logs[0].index, 0);
    assert_eq!(core.logs[0].term, 0);
    assert_eq!(core.logs[0].command_type, 0);
    assert_eq!(core.commit_index, 0);
    assert_eq!(core.last_applied, 0);
    assert_eq!(core.get_last_log_term_and_index(), (0, 0));
}

#[test]
fn to_follower_sets_term_role_and_vote() {
    let mut core = RaftCore::new(0, vec![0, 1, 2]);
    core.status = RaftNodeStatus::Leader;
    core.to_follower(7, Some(2));
    assert_eq!(core.current_term, 7);
    assert_eq!(core.status, RaftNodeStatus::Follower);
    assert_eq!(core.voted_for, Some(2));
}

#[test]
fn up_to_date_compares_last_term_then_length() {
    let mut core = RaftCore::new(0, vec![0, 1, 2]);
    core.logs.push(entry(1, 2, "a"));
    core.logs.push(entry(2, 2, "b"));
    // later last term wins whatever the length
    assert!(core.is_request_log_newly(3, 0));
    // earlier last term loses whatever the length
    assert!(!core.is_request_log_newly(1, 100));
    // same last term: the longer or equal log wins
    assert!(core.is_request_log_newly(2, 2));
    assert!(core.is_request_log_newly(2, 5));
    assert!(!core.is_request_log_newly(2, 1));
}

#[test]
fn stale_vote_request_is_refused() {
    let mut core = RaftCore::new(0, vec![0, 1, 2]);
    core.current_term = 5;
    let reply = core.handle_request_vote(RequestVoteArgs { term: 4, candidate_id: 1, last_log_index: 9, last_log_term: 9 });
    assert_eq!(reply.term, 5);
    assert!(!reply.vote_granted);
    assert_eq!(core.voted_for, None);
}

#[test]
fn vote_is_granted_once_per_term() {
    let mut core = RaftCore::new(0, vec![0, 1, 2]);
    let first = core.handle_request_vote(RequestVoteArgs { term: 1, candidate_id: 1, last_log_index: 0, last_log_term: 0 });
    assert!(first.vote_granted);
    assert_eq!(first.term, 1);
    assert_eq!(core.voted_for, Some(1));
    assert_eq!(core.current_term, 1);
    let second = core.handle_request_vote(RequestVoteArgs { term: 1, candidate_id: 2, last_log_index: 0, last_log_term: 0 });
    assert!(!second.vote_granted);
    assert_eq!(core.voted_for, Some(1));
    // the same candidate asking again gets the vote again
    let again = core.handle_request_vote(RequestVoteArgs { term: 1, candidate_id: 1, last_log_index: 0, last_log_term: 0 });
    assert!(again.vote_granted);
}

#[test]
fn higher_term_vote_request_resets_vote() {
    let mut core = RaftCore::new(0, vec![0, 1, 2]);
    core.current_term = 1;
    core.voted_for = Some(1);
    core.status = RaftNodeStatus::Leader;
    let reply = core.handle_request_vote(RequestVoteArgs { term: 2, candidate_id: 2, last_log_index: 0, last_log_term: 0 });
    assert!(reply.vote_granted);
    assert_eq!(reply.term, 2);
    assert_eq!(core.status, RaftNodeStatus::Follower);
    assert_eq!(core.voted_for, Some(2));
}

#[test]
fn vote_refused_to_candidate_with_older_log() {
    let mut core = RaftCore::new(0, vec![0, 1, 2]);
    core.logs.push(entry(1, 3, "a"));
    core.current_term = 3;
    let reply = core.handle_request_vote(RequestVoteArgs { term: 4, candidate_id: 1, last_log_index: 5, last_log_term: 2 });
    assert!(!reply.vote_granted);
    assert_eq!(reply.term, 4);
    assert_eq!(core.current_term, 4);
    assert_eq!(core.voted_for, None);
}

#[test]
fn stale_append_is_refused() {
    let mut core = RaftCore::new(0, vec![0, 1, 2]);
    core.current_term = 3;
    let reply = core.handle_append_entries(heartbeat(2, 1, 0, 0, 0));
    assert_eq!(reply.term, 3);
    assert!(!reply.success);
    assert_eq!(core.voted_for, None);
}

#[test]
fn heartbeat_makes_a_follower() {
    let mut core = RaftCore::new(0, vec![0, 1, 2]);
    core.status = RaftNodeStatus::Candidate;
    let reply = core.handle_append_entries(heartbeat(2, 1, 0, 0, 0));
    assert!(reply.success);
    assert_eq!(reply.term, 2);
    assert_eq!(core.status, RaftNodeStatus::Follower);
    assert_eq!(core.voted_for, Some(1));
    assert_eq!(core.logs.len(), 1);
}

#[test]
fn append_with_unknown_prev_entry_fails_but_follows() {
    let mut core = RaftCore::new(0, vec![0, 1, 2]);
    let reply = core.handle_append_entries(AppendEntriesArgs {
        term: 1,
        leader_id: 2,
        prev_log_index: 3,
        prev_log_term: 1,
        entries: vec![entry(4, 1, "x")],
        leader_commit: 4,
    });
    assert!(!reply.success);
    assert_eq!(reply.term, 1);
    assert_eq!(core.current_term, 1);
    assert_eq!(core.voted_for, Some(2));
    assert_eq!(core.logs.len(), 1);
    assert_eq!(core.commit_index, 0);
}

#[test]
fn append_with_wrong_prev_term_fails() {
    let mut core = RaftCore::new(0, vec![0, 1, 2]);
    core.logs.push(entry(1, 1, "a"));
    let reply = core.handle_append_entries(AppendEntriesArgs {
        term: 2,
        leader_id: 2,
        prev_log_index: 1,
        prev_log_term: 2,
        entries: vec![entry(2, 2, "x")],
        leader_commit: 0,
    });
    assert!(!reply.success);
    assert_eq!(terms(&core), vec![0, 1]);
}

#[test]
fn append_adds_entries_and_commits_up_to_last() {
    let mut core = RaftCore::new(0, vec![0, 1, 2]);
    let reply = core.handle_append_entries(AppendEntriesArgs {
        term: 1,
        leader_id: 1,
        prev_log_index: 0,
        prev_log_term: 0,
        entries: vec![entry(1, 1, "a"), entry(2, 1, "b")],
        leader_commit: 10,
    });
    assert!(reply.success);
    assert_eq!(terms(&core), vec![0, 1, 1]);
    assert_eq!(core.logs[2].key, "b");
    // the commit position is the smaller of the leader's and the last entry
    assert_eq!(core.commit_index, 2);
}

#[test]
fn append_commit_follows_leader_when_smaller() {
    let mut core = RaftCore::new(0, vec![0, 1, 2]);
    let reply = core.handle_append_entries(AppendEntriesArgs {
        term: 1,
        leader_id: 1,
        prev_log_index: 0,
        prev_log_term: 0,
        entries: vec![entry(1, 1, "a"), entry(2, 1, "b")],
        leader_commit: 1,
    });
    assert!(reply.success);
    assert_eq!(core.commit_index, 1);
}

#[test]
fn conflicting_entry_cuts_the_log() {
    let mut core = RaftCore::new(0, vec![0, 1, 2]);
    core.current_term = 1;
    core.logs.push(entry(1, 1, "a"));
    core.logs.push(entry(2, 1, "b"));
    core.logs.push(entry(3, 1, "c"));
    let reply = core.handle_append_entries(AppendEntriesArgs {
        term: 2,
        leader_id: 2,
        prev_log_index: 1,
        prev_log_term: 1,
        entries: vec![entry(2, 2, "B")],
        leader_commit: 0,
    });
    assert!(reply.success);
    assert_eq!(terms(&core), vec![0, 1, 2]);
    assert_eq!(core.logs[2].key, "B");
}

#[test]
fn matching_entries_are_kept() {
    let mut core = RaftCore::new(0, vec![0, 1, 2]);
    core.logs.push(entry(1, 1, "a"));
    core.logs.push(entry(2, 1, "b"));
    let reply = core.handle_append_entries(AppendEntriesArgs {
        term: 1,
        leader_id: 2,
        prev_log_index: 0,
        prev_log_term: 0,
        entries: vec![entry(1, 1, "other")],
        leader_commit: 0,
    });
    assert!(reply.success);
    assert_eq!(terms(&core), vec![0, 1, 1]);
    assert_eq!(core.logs[1].key, "a");
}

#[test]
fn entry_beyond_the_end_is_skipped() {
    let mut core = RaftCore::new(0, vec![0, 1, 2]);
    let reply = core.handle_append_entries(AppendEntriesArgs {
        term: 1,
        leader_id: 2,
        prev_log_index: 0,
        prev_log_term: 0,
        entries: vec![entry(3, 1, "far")],
        leader_commit: 0,
    });
    assert!(reply.success);
    assert_eq!(core.logs.len(), 1);
}

#[test]
fn append_that_would_replace_first_entry_is_not_allowed() {
    let core = RaftCore::new(0, vec![0, 1, 2]);
    let bad = AppendEntriesArgs {
        term: 1,
        leader_id: 2,
        prev_log_index: 0,
        prev_log_term: 0,
        entries: vec![entry(0, 5, "x")],
        leader_commit: 0,
    };
    assert!(!core.can_handle_append_entries(&bad));
    assert!(core.can_handle_append_entries(&heartbeat(1, 2, 0, 0, 0)));
    // a stale request is always handled: it is refused
    let mut stale = RaftCore::new(0, vec![0, 1, 2]);
    stale.current_term = 3;
    assert!(stale.can_handle_append_entries(&bad));
}

#[test]
fn status_reports_term_and_leadership() {
    let mut core = RaftCore::new(0, vec![0, 1, 2]);
    core.current_term = 4;
    let status = core.handle_get_status();
    assert_eq!(status.current_term, 4);
    assert!(!status.is_leader);
    core.status = RaftNodeStatus::Leader;
    assert!(core.handle_get_status().is_leader);
}

#[test]
fn follower_does_not_add_commands() {
    let mut core = RaftCore::new(0, vec![0, 1, 2]);
    core.current_term = 2;
    let resp = core.handle_add_log(add_request("PUT", "k", "v"));
    assert!(!resp.is_leader);
    assert_eq!(resp.current_term, 2);
    assert_eq!(resp.log_index, 0);
    assert_eq!(core.logs.len(), 1);
}

#[test]
fn leader_adds_command_and_lists_it() {
    let mut core = RaftCore::new(0, vec![0, 1, 2]);
    core.current_term = 3;
    core.status = RaftNodeStatus::Leader;
    let resp = core.handle_add_log(add_request("PUT", "key1", "héllo"));
    assert!(resp.is_leader);
    assert_eq!(resp.log_index, 1);
    assert_eq!(resp.current_term, 3);
    let resp2 = core.handle_add_log(add_request("DELETE", "key1", ""));
    assert_eq!(resp2.log_index, 2);
    let list = core.handle_list_logs();
    assert_eq!(list.logs.len(), 3);
    assert_eq!(list.logs[1].index, 1);
    assert_eq!(list.logs[1].term, 3);
    assert_eq!(list.logs[1].command_type, 1);
    assert_eq!(list.logs[1].key, "key1");
    assert_eq!(list.logs[1].value, "héllo".as_bytes().to_vec());
    assert_eq!(list.logs[1].value_text(), "héllo");
    assert_eq!(list.logs[2].command_type, 2);
    assert_eq!(list.commit_index, 0);
    assert_eq!(list.last_applied, 0);
}

#[test]
fn add_log_needs_a_known_command_on_a_leader() {
    let mut core = RaftCore::new(0, vec![0, 1, 2]);
    assert!(core.can_handle_add_log(&"BOGUS".to_string()));
    core.status = RaftNodeStatus::Leader;
    assert!(!core.can_handle_add_log(&"BOGUS".to_string()));
    assert!(core.can_handle_add_log(&"EMPTY".to_string()));
}

#[test]
fn requests_are_dispatched_to_their_handlers() {
    let mut core = RaftCore::new(0, vec![0, 1, 2]);
    let (resp, reset) = core.handle_request(RaftRequest::AppendEntries(heartbeat(1, 1, 0, 0, 0)));
    assert!(reset);
    match resp {
        RaftResponse::AppendEntries(reply) => assert!(reply.success),
        other => panic!("unexpected {:?}", other),
    }
    let (resp, reset) = core.handle_request(RaftRequest::AppendEntries(heartbeat(0, 1, 0, 0, 0)));
    assert!(!reset);
    match resp {
        RaftResponse::AppendEntries(reply) => {
            assert!(!reply.success);
            assert_eq!(reply.term, 1);
        }
        other => panic!("unexpected {:?}", other),
    }
    let (resp, reset) = core.handle_request(RaftRequest::RequestVote(RequestVoteArgs {
        term: 1,
        candidate_id: 2,
        last_log_index: 0,
        last_log_term: 0,
    }));
    assert!(!reset);
    match resp {
        // this node follows leader 1 in term 1, whose id stands in its vote
        RaftResponse::RequestVote(reply) => assert!(!reply.vote_granted),
        other => panic!("unexpected {:?}", other),
    }
    let (resp, _) = core.handle_request(RaftRequest::GetStatus);
    match resp {
        RaftResponse::GetStatus(status) => assert_eq!(status.current_term, 1),
        other => panic!("unexpected {:?}", other),
    }
    let (resp, _) = core.handle_request(RaftRequest::AddLog(add_request("PUT", "a", "b")));
    match resp {
        RaftResponse::AddLog(answer) => assert!(!answer.is_leader),
        other => panic!("unexpected {:?}", other),
    }
    let (resp, _) = core.handle_request(RaftRequest::ListLogs);
    match resp {
        RaftResponse::ListLogs(list) => assert_eq!(list.logs.len(), 1),
        other => panic!("unexpected {:?}", other),
    }
}

#[test]
fn shutdown_stops_the_node() {
    let mut core = RaftCore::new(0, vec![0, 1, 2]);
    core.shutdown();
    assert_eq!(core.status, RaftNodeStatus::Shutdown);
}

#[test]
fn election_timeout_is_the_draw_past_150_ms() {
    assert_eq!(RaftCore::elect_timeout_from_draw(0), 150);
    assert_eq!(RaftCore::elect_timeout_from_draw(149), 299);
    assert_eq!(RaftCore::elect_timeout_from_draw(37), 187);
}

#[test]
fn election_timeout_is_between_150_and_300_ms() {
    for _ in 0..200 {
        let ms = RaftCore::gen_next_elect_timeout();
        assert!((150..300).contains(&ms));
    }
}

#[test]
fn error_messages_name_the_kind() {
    assert_eq!(RaftError::Other("boom".to_string()).message(), "Other Error: boom");
    assert_eq!(
        RaftError::PeerNetworkError("down".to_string()).message(),
        "PeerNetwork Error: down"
    );
}

#[test]
fn status_becomes_a_peer_network_error() {
    let status = tonic::Status::aborted("server shutdown");
    let err = RaftError::from_status(&status);
    match err {
        RaftError::PeerNetworkError(text) => {
            assert!(text.starts_with("status: "));
            assert_eq!(text, status.to_string());
            assert!(text.contains("server shutdown"));
        }
        other => panic!("unexpected {:?}", other),
    }
}

#[test]
fn commit_follows_a_shortened_log() {
    // entries 1..=3 committed in term 1, then a leader of term 2 replaces
    // entry 2 on: the commit position follows the shorter log down
    let mut core = RaftCore::new(0, vec![0, 1, 2]);
    core.logs.push(entry(1, 1, "a"));
    core.logs.push(entry(2, 1, "b"));
    core.logs.push(entry(3, 1, "c"));
    core.commit_index = 3;
    let reply = core.handle_append_entries(AppendEntriesArgs {
        term: 2,
        leader_id: 1,
        prev_log_index: 1,
        prev_log_term: 1,
        entries: vec![entry(2, 2, "x")],
        leader_commit: 4,
    });
    assert!(reply.success);
    assert_eq!(terms(&core), vec![0, 1, 2]);
    assert_eq!(core.commit_index, 2);
}

#[test]
fn replies_carry_the_term_after_handling() {
    let mut core = RaftCore::new(0, vec![0, 1, 2]);
    core.current_term = 2;
    let r = core.handle_append_entries(heartbeat(5, 1, 0, 0, 0));
    assert_eq!(r.term, 5);
    assert_eq!(core.current_term, 5);
    let v = core.handle_request_vote(RequestVoteArgs { term: 3, candidate_id: 2, last_log_index: 0, last_log_term: 0 });
    assert_eq!(v.term, 5);
    assert_eq!(core.current_term, 5);
}

#[test]
fn transport_error_becomes_a_peer_network_error() {
    let err = tonic::transport::Endpoint::from_shared("not a uri\u{7f}").unwrap_err();
    match RaftError::from_transport_error(&err) {
        RaftError::PeerNetworkError(text) => {
            assert_eq!(text, "invalid URI");
            assert_eq!(text, err.to_string());
        }
        other => panic!("unexpected {:?}", other),
    }
}

#[test]
fn retransmitted_append_changes_nothing() {
    let mut core = RaftCore::new(0, vec![0, 1, 2]);
    core.logs.push(entry(1, 1, "a"));
    core.logs.push(entry(2, 1, "b"));
    core.logs.push(entry(3, 1, "c"));
    let args = || AppendEntriesArgs {
        term: 2,
        leader_id: 1,
        prev_log_index: 1,
        prev_log_term: 1,
        entries: vec![entry(2, 2, "x"), entry(3, 2, "y")],
        leader_commit: 3,
    };
    let r1 = core.handle_append_entries(args());
    let after: Vec<(u32, u32, String)> = core.logs.iter().map(|e| (e.index, e.term, e.key.clone())).collect();
    let commit = core.commit_index;
    assert!(core.can_handle_append_entries(&args()));
    let r2 = core.handle_append_entries(args());
    assert_eq!(r1, r2);
    let again: Vec<(u32, u32, String)> = core.logs.iter().map(|e| (e.index, e.term, e.key.clone())).collect();
    assert_eq!(after, again);
    assert_eq!(core.commit_index, commit);
    assert_eq!(terms(&core), vec![0, 1, 2, 2]);
}

#[test]
fn first_entry_is_kept_by_every_append() {
    let mut core = RaftCore::new(0, vec![0, 1, 2]);
    core.logs.push(entry(1, 1, "a"));
    let reply = core.handle_append_entries(AppendEntriesArgs {
        term: 3,
        leader_id: 1,
        prev_log_index: 0,
        prev_log_term: 0,
        entries: vec![entry(0, 0, "same head"), entry(1, 3, "b")],
        leader_commit: 0,
    });
    assert!(reply.success);
    assert_eq!(core.logs[0].index, 0);
    assert_eq!(core.logs[0].term, 0);
    assert_eq!(core.logs[0].key, "");
    assert_eq!(terms(&core), vec![0, 3]);
}
