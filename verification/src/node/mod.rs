//! The state that every role of a node shares, and the handling of the
//! requests that every role answers the same way.

use vstd::prelude::*;
use vstd::utf8::encode_utf8;

use crate::http_server::RaftAddLogRequest;
use crate::http_server::RaftAddLogResponse;
use crate::http_server::RaftLogListResponse;
use crate::http_server::RaftNodeStatusResponse;
use crate::raft_proto::command_type_named;
use crate::raft_proto::command_type_number;
use crate::raft_proto::copy_entries_from;
use crate::raft_proto::empty_entry_view;
use crate::raft_proto::entries_view;
use crate::raft_proto::AppendEntriesArgs;
use crate::raft_proto::AppendEntriesArgsView;
use crate::raft_proto::AppendEntriesReply;
use crate::raft_proto::CommandType;
use crate::raft_proto::Entry;
use crate::raft_proto::EntryView;
use crate::raft_proto::RequestVoteArgs;
use crate::raft_proto::RequestVoteReply;
use crate::trusted::random_below;
use crate::trusted::string_into_bytes;
use crate::NodeId;

pub mod error;
pub mod tally;
pub mod candidate_state;
pub mod leader_state;
pub mod follower_state;

verus! {

/// The role a node plays, or that it has stopped.
#[derive(Debug, Clone, Copy, PartialEq, Eq, Structural)]
pub enum RaftNodeStatus {
    Leader,
    Candidate,
    Follower,
    Shutdown,
}

/// The state of a node, as specifications see it.
pub struct RaftState {
    pub current_term: u32,
    pub voted_for: Option<NodeId>,
    pub log: Seq<EntryView>,
    pub commit_index: u32,
    pub last_applied: u32,
    pub me: NodeId,
    pub status: RaftNodeStatus,
    pub peers: Seq<NodeId>,
}

/// Every entry of `log` records its own position.
pub open spec fn log_indexed(log: Seq<EntryView>) -> bool {
    forall|i: int| 0 <= i < log.len() ==> (#[trigger] log[i]).index == i
}

/// The log with one incoming entry merged in: an entry that conflicts with
/// the one at its position cuts the log there, and an entry that lands just
/// past the end is appended.
pub open spec fn merge_entry(log: Seq<EntryView>, e: EntryView) -> Seq<EntryView> {
    let kept = if (e.index as int) < log.len() && log[e.index as int].term != e.term {
        log.take(e.index as int)
    } else {
        log
    };
    if e.index as int == kept.len() {
        kept.push(e)
    } else {
        kept
    }
}

/// The log with the incoming entries merged in, in order.
pub open spec fn merge_entries(log: Seq<EntryView>, es: Seq<EntryView>) -> Seq<EntryView>
    decreases es.len(),
{
    if es.len() == 0 {
        log
    } else {
        merge_entry(merge_entries(log, es.drop_last()), es.last())
    }
}

/// No incoming entry would replace the first entry of a log whose first term
/// is `first_term`.
pub open spec fn entries_keep_head(first_term: u32, es: Seq<EntryView>) -> bool {
    forall|i: int| 0 <= i < es.len() && (#[trigger] es[i]).index == 0 ==> es[i].term == first_term
}

/// Every log along the way of merging `es` into `log` stays within `u32`
/// positions.
pub open spec fn merges_fit(log: Seq<EntryView>, es: Seq<EntryView>) -> bool {
    forall|k: int| 0 <= k <= es.len() ==> #[trigger] merge_entries(log, es.take(k)).len() <= u32::MAX
}

/// The terms of a log's entries.
pub open spec fn log_terms(log: Seq<EntryView>) -> Seq<u32> {
    log.map_values(|e: EntryView| e.term)
}

/// The state of a fresh node: term 0, no vote, the log holding only the
/// empty entry, a follower.
pub open spec fn initial_state(me: NodeId, peers: Seq<NodeId>) -> RaftState {
    RaftState {
        current_term: 0,
        voted_for: None,
        log: seq![empty_entry_view()],
        commit_index: 0,
        last_applied: 0,
        me,
        status: RaftNodeStatus::Follower,
        peers,
    }
}

impl RaftState {
    /// The log is never empty, its positions and the next one fit in `u32`,
    /// each entry records its position, the commit and apply positions leave
    /// room for one more, and no peer is listed twice.
    pub open spec fn wf(self) -> bool {
        &&& 1 <= self.log.len() <= u32::MAX
        &&& log_indexed(self.log)
        &&& self.commit_index < u32::MAX
        &&& self.last_applied < u32::MAX
        &&& self.peers.no_duplicates()
    }

    /// The position of the last entry.
    pub open spec fn last_index(self) -> int {
        self.log.len() - 1
    }

    /// The term of the last entry.
    pub open spec fn last_term(self) -> u32 {
        self.log.last().term
    }

    /// A log that ends with `(term, index)` is at least as up to date as this
    /// node's: a later last term wins, and on equal terms the longer log.
    pub open spec fn log_up_to_date(self, term: u32, index: u32) -> bool {
        if term != self.last_term() {
            term > self.last_term()
        } else {
            index >= self.last_index()
        }
    }

    /// This state once the node follows in `term`, with `voted_for` set to
    /// `leader`.
    pub open spec fn with_follower(self, term: u32, leader: Option<NodeId>) -> RaftState {
        RaftState { current_term: term, status: RaftNodeStatus::Follower, voted_for: leader, ..self }
    }

    /// The entry before the incoming ones is in this log with the leader's
    /// term.
    pub open spec fn prev_log_matches(self, a: AppendEntriesArgsView) -> bool {
        &&& a.prev_log_index <= self.last_index()
        &&& self.log[a.prev_log_index as int].term == a.prev_log_term
    }

    /// The inputs on which handling an append request does not fail: merging
    /// keeps the first entry, and the log stays within `u32` positions after
    /// each merged entry.
    pub open spec fn append_entries_allowed(self, a: AppendEntriesArgsView) -> bool {
        &&& self.wf()
        &&& (a.term >= self.current_term && self.prev_log_matches(a)) ==> {
            &&& entries_keep_head(self.log[0].term, a.entries)
            &&& merges_fit(self.log, a.entries)
        }
    }

    /// What handling an append request makes of the state, and the reply.
    pub open spec fn append_entries_result(self, a: AppendEntriesArgsView) -> (RaftState, AppendEntriesReply) {
        if a.term < self.current_term {
            (self, AppendEntriesReply { term: self.current_term, success: false })
        } else {
            let s1 = self.with_follower(a.term, Some(a.leader_id));
            if self.prev_log_matches(a) {
                let log2 = merge_entries(self.log, a.entries);
                let last2 = log2.len() - 1;
                let commit2 = if a.leader_commit > self.commit_index {
                    if (a.leader_commit as int) < last2 {
                        a.leader_commit
                    } else {
                        last2 as u32
                    }
                } else {
                    self.commit_index
                };
                (
                    RaftState { log: log2, commit_index: commit2, ..s1 },
                    AppendEntriesReply { term: a.term, success: true },
                )
            } else {
                (s1, AppendEntriesReply { term: a.term, success: false })
            }
        }
    }

    /// What handling a vote request makes of the state, and the reply.
    pub open spec fn request_vote_result(self, a: RequestVoteArgs) -> (RaftState, RequestVoteReply) {
        if a.term < self.current_term {
            (self, RequestVoteReply { term: self.current_term, vote_granted: false })
        } else {
            let s1 = if a.term > self.current_term {
                self.with_follower(a.term, None)
            } else {
                self
            };
            if (s1.voted_for is None && s1.log_up_to_date(a.last_log_term, a.last_log_index))
                || s1.voted_for == Some(a.candidate_id) {
                (
                    RaftState { voted_for: Some(a.candidate_id), ..s1 },
                    RequestVoteReply { term: s1.current_term, vote_granted: true },
                )
            } else {
                (s1, RequestVoteReply { term: s1.current_term, vote_granted: false })
            }
        }
    }

    /// The node's status as the client interface reports it.
    pub open spec fn status_response(self) -> RaftNodeStatusResponse {
        RaftNodeStatusResponse {
            current_term: self.current_term,
            is_leader: self.status == RaftNodeStatus::Leader,
        }
    }

    /// The entry that a leader appends for a client's command.
    pub open spec fn client_entry(self, command: CommandType, key: Seq<char>, value: Seq<char>) -> EntryView {
        EntryView {
            index: (self.last_index() + 1) as u32,
            term: self.current_term,
            command_type: command_type_number(command),
            key,
            value: encode_utf8(value),
        }
    }

    /// The inputs on which adding a client's command does not fail: a leader
    /// needs a known command type and room for one more entry.
    pub open spec fn add_log_allowed(self, command_type: Seq<char>) -> bool {
        &&& self.wf()
        &&& self.status == RaftNodeStatus::Leader ==> {
            &&& command_type_named(command_type) is Some
            &&& self.log.len() < u32::MAX
        }
    }

    /// What adding a client's command makes of the state, and the answer:
    /// only a leader appends it.
    pub open spec fn add_log_result(self, command_type: Seq<char>, key: Seq<char>, value: Seq<char>) -> (RaftState, RaftAddLogResponse) {
        if self.status != RaftNodeStatus::Leader {
            (
                self,
                RaftAddLogResponse {
                    current_term: self.current_term,
                    log_index: self.last_index() as u32,
                    is_leader: false,
                },
            )
        } else {
            let e = self.client_entry(command_type_named(command_type).unwrap(), key, value);
            (
                RaftState { log: self.log.push(e), ..self },
                RaftAddLogResponse {
                    current_term: self.current_term,
                    log_index: (self.last_index() + 1) as u32,
                    is_leader: true,
                },
            )
        }
    }
}

/// The shared state of a node: its term, vote, log, commit and apply
/// positions, identity, role, and the peers of the cluster (itself
/// included).
pub struct RaftCore {
    pub current_term: u32,
    pub voted_for: Option<NodeId>,
    pub logs: Vec<Entry>,
    pub commit_index: u32,
    pub last_applied: u32,
    pub me: NodeId,
    pub status: RaftNodeStatus,
    pub peers: Vec<NodeId>,
}

impl View for RaftCore {
    type V = RaftState;

    open spec fn view(&self) -> RaftState {
        RaftState {
            current_term: self.current_term,
            voted_for: self.voted_for,
            log: entries_view(self.logs@),
            commit_index: self.commit_index,
            last_applied: self.last_applied,
            me: self.me,
            status: self.status,
            peers: self.peers@,
        }
    }
}

/// The shortest election timeout, in milliseconds.
pub const ELECT_TIMEOUT_BASE_MS: u64 = 150;

/// The width of the range that election timeouts are drawn from, in
/// milliseconds.
pub const ELECT_TIMEOUT_SPREAD_MS: u64 = 150;

impl RaftCore {
    /// A fresh node `me` of the cluster made of `peers`.
    pub fn new(me: NodeId, peers: Vec<NodeId>) -> (core: RaftCore)
        requires
            peers@.no_duplicates(),
        ensures
            core@ == initial_state(me, peers@),
            core@.wf(),
    {
        let mut logs: Vec<Entry> = Vec::new();
        logs.push(Entry::empty());
        let core = RaftCore {
            current_term: 0,
            voted_for: None,
            logs,
            commit_index: 0,
            last_applied: 0,
            me,
            status: RaftNodeStatus::Follower,
            peers,
        };
        assert(core@.log =~= seq![empty_entry_view()]);
        core
    }

    /// The election timeout for a random draw below the spread: the draw
    /// past the shortest timeout.
    pub fn elect_timeout_from_draw(draw: u64) -> (ms: u64)
        requires
            draw < ELECT_TIMEOUT_SPREAD_MS,
        ensures
            ms == draw + ELECT_TIMEOUT_BASE_MS,
    {
        draw + ELECT_TIMEOUT_BASE_MS
    }

    /// A fresh election timeout, drawn at random: at least 150 ms and less
    /// than 300 ms.
    pub fn gen_next_elect_timeout() -> (ms: u64)
        ensures
            ELECT_TIMEOUT_BASE_MS <= ms < ELECT_TIMEOUT_BASE_MS + ELECT_TIMEOUT_SPREAD_MS,
    {
        let draw = random_below(ELECT_TIMEOUT_SPREAD_MS);
        Self::elect_timeout_from_draw(draw)
    }

    /// Follow in `term`, with `voted_for` set to `leader`.
    pub fn to_follower(&mut self, term: u32, leader: Option<NodeId>)
        ensures
            final(self)@ == old(self)@.with_follower(term, leader),
    {
        self.current_term = term;
        self.status = RaftNodeStatus::Follower;
        self.voted_for = leader;
    }

    /// The term and the position of the last entry of the log.
    pub fn get_last_log_term_and_index(&self) -> (res: (u32, u32))
        requires
            1 <= self@.log.len() <= u32::MAX,
        ensures
            res.0 == self@.last_term(),
            res.1 == self@.last_index(),
    {
        let len = self.logs.len();
        let term = self.logs[len - 1].term;
        (term, (len - 1) as u32)
    }

    /// Whether a log that ends with `(request_log_term, request_log_index)` is
    /// at least as up to date as this node's.
    pub fn is_request_log_newly(&self, request_log_term: u32, request_log_index: u32) -> (res: bool)
        requires
            1 <= self@.log.len() <= u32::MAX,
        ensures
            res == self@.log_up_to_date(request_log_term, request_log_index),
    {
        let (last_log_term, last_log_index) = self.get_last_log_term_and_index();
        if request_log_term != last_log_term {
            request_log_term > last_log_term
        } else {
            request_log_index >= last_log_index
        }
    }
}


/// The requests that other nodes send: appends and votes.
pub trait RaftGrpcHandler: View<V = RaftState> + Sized {
    /// Answer a leader's request to append entries.
    fn handle_append_entries(&mut self, args: AppendEntriesArgs) -> (reply: AppendEntriesReply)
        requires
            old(self)@.append_entries_allowed(args@),
        ensures
            (final(self)@, reply) == old(self)@.append_entries_result(args@),
            final(self)@.wf(),
    ;

    /// Answer a candidate's request for a vote.
    fn handle_request_vote(&mut self, args: RequestVoteArgs) -> (reply: RequestVoteReply)
        requires
            1 <= old(self)@.log.len() <= u32::MAX,
        ensures
            (final(self)@, reply) == old(self)@.request_vote_result(args),
            old(self)@.wf() ==> final(self)@.wf(),
    ;
}

impl RaftGrpcHandler for RaftCore {
    fn handle_append_entries(&mut self, args: AppendEntriesArgs) -> (reply: AppendEntriesReply) {
        if args.term < self.current_term {
            return AppendEntriesReply { term: self.current_term, success: false };
        }
        self.to_follower(args.term, Some(args.leader_id));
        let (_, mut last_log_index) = self.get_last_log_term_and_index();
        if last_log_index >= args.prev_log_index
            && self.logs[args.prev_log_index as usize].term == args.prev_log_term {
            let ghost s1 = self@;
            let ghost es = args@.entries;
            let n = args.entries.len();
            let mut i: usize = 0;
            while i < n
                invariant
                    n == args.entries.len(),
                    es == entries_view(args.entries@),
                    i <= n,
                    self@ == (RaftState { log: merge_entries(s1.log, es.take(i as int)), ..s1 }),
                    1 <= self@.log.len(),
                    merges_fit(s1.log, es),
                    log_indexed(self@.log),
                    self@.log[0] == s1.log[0],
                    entries_keep_head(s1.log[0].term, es),
                    last_log_index == self@.last_index(),
                decreases n - i,
            {
                let ghost before = self@.log;
                let entry_index = args.entries[i].index;
                let entry_term = args.entries[i].term;
                assert(es[i as int] == args.entries@[i as int]@);
                if last_log_index >= entry_index && self.logs[entry_index as usize].term != entry_term {
                    self.logs.truncate(entry_index as usize);
                    assert(entries_view(self.logs@) =~= before.take(entry_index as int));
                }
                let ghost kept = self@.log;
                last_log_index = self.get_last_log_term_and_index().1;
                if entry_index == last_log_index + 1 {
                    let e = args.entries[i].duplicate();
                    let ghost mid = self.logs@;
                    self.logs.push(e);
                    assert(entries_view(self.logs@) =~= entries_view(mid).push(e@));
                }
                assert(es.take(i + 1).drop_last() =~= es.take(i as int));
                assert(merge_entries(s1.log, es.take(i + 1)).len() <= u32::MAX);
                assert(self@.log == merge_entry(before, es[i as int]));
                assert(self@.log =~= merge_entries(s1.log, es.take(i + 1)));
                last_log_index = self.get_last_log_term_and_index().1;
                i = i + 1;
            }
            assert(es.take(n as int) =~= es);
            if args.leader_commit > self.commit_index {
                self.commit_index = if args.leader_commit < last_log_index {
                    args.leader_commit
                } else {
                    last_log_index
                };
            }
            AppendEntriesReply { term: self.current_term, success: true }
        } else {
            AppendEntriesReply { term: self.current_term, success: false }
        }
    }

    fn handle_request_vote(&mut self, args: RequestVoteArgs) -> (reply: RequestVoteReply) {
        if args.term < self.current_term {
            return RequestVoteReply { term: self.current_term, vote_granted: false };
        }
        if args.term > self.current_term {
            self.to_follower(args.term, None);
        }
        if (self.voted_for.is_none() && self.is_request_log_newly(args.last_log_term, args.last_log_index))
            || self.voted_for == Some(args.candidate_id) {
            self.voted_for = Some(args.candidate_id);
            RequestVoteReply { term: self.current_term, vote_granted: true }
        } else {
            RequestVoteReply { term: self.current_term, vote_granted: false }
        }
    }
}


/// The requests of the client interface: status, the log, and new commands.
pub trait RaftHttpHandle: View<V = RaftState> + Sized {
    /// The node's term and whether it leads.
    fn handle_get_status(&self) -> (res: RaftNodeStatusResponse)
        ensures
            res == self@.status_response(),
    ;

    /// The whole log with the commit and apply positions.
    fn handle_list_logs(&self) -> (res: RaftLogListResponse)
        ensures
            entries_view(res.logs@) == self@.log,
            res.commit_index == self@.commit_index,
            res.last_applied == self@.last_applied,
    ;

    /// Add a client's command to the log, if this node leads.
    fn handle_add_log(&mut self, request: RaftAddLogRequest) -> (res: RaftAddLogResponse)
        requires
            old(self)@.add_log_allowed(request.command_type@),
        ensures
            (final(self)@, res) == old(self)@.add_log_result(
                request.command_type@,
                request.key@,
                request.value@,
            ),
            final(self)@.wf(),
    ;
}

impl RaftHttpHandle for RaftCore {
    fn handle_get_status(&self) -> (res: RaftNodeStatusResponse) {
        RaftNodeStatusResponse {
            current_term: self.current_term,
            is_leader: self.status == RaftNodeStatus::Leader,
        }
    }

    fn handle_list_logs(&self) -> (res: RaftLogListResponse) {
        let logs = copy_entries_from(&self.logs, 0);
        assert(entries_view(self.logs@).subrange(0, self.logs@.len() as int) =~= self@.log);
        RaftLogListResponse {
            commit_index: self.commit_index,
            last_applied: self.last_applied,
            logs,
        }
    }

    fn handle_add_log(&mut self, request: RaftAddLogRequest) -> (res: RaftAddLogResponse) {
        let last_log_index = self.get_last_log_term_and_index().1;
        if self.status != RaftNodeStatus::Leader {
            return RaftAddLogResponse {
                current_term: self.current_term,
                log_index: last_log_index,
                is_leader: false,
            };
        }
        let command_type = CommandType::from_str_name(request.command_type.as_str()).unwrap();
        let next_log_index = last_log_index + 1;
        let entry = Entry {
            term: self.current_term,
            index: next_log_index,
            command_type: command_type.as_i32(),
            key: request.key.clone(),
            value: string_into_bytes(request.value),
        };
        let ghost before = self.logs@;
        self.logs.push(entry);
        assert(entries_view(self.logs@) =~= entries_view(before).push(entry@));
        RaftAddLogResponse {
            log_index: next_log_index,
            current_term: self.current_term,
            is_leader: true,
        }
    }
}


/// A request that reaches a node, in any role.
#[derive(Debug)]
pub enum RaftRequest {
    AppendEntries(AppendEntriesArgs),
    RequestVote(RequestVoteArgs),
    GetStatus,
    AddLog(RaftAddLogRequest),
    ListLogs,
}

/// A node's answer to a request.
#[derive(Debug)]
pub enum RaftResponse {
    AppendEntries(AppendEntriesReply),
    RequestVote(RequestVoteReply),
    GetStatus(RaftNodeStatusResponse),
    AddLog(RaftAddLogResponse),
    ListLogs(RaftLogListResponse),
}

/// The inputs on which a node can handle a request.
pub open spec fn request_allowed(s: RaftState, req: RaftRequest) -> bool {
    &&& s.wf()
    &&& match req {
        RaftRequest::AppendEntries(args) => s.append_entries_allowed(args@),
        RaftRequest::AddLog(r) => s.add_log_allowed(r.command_type@),
        _ => true,
    }
}

impl RaftCore {
    /// Stop: the node's role is over.
    pub fn shutdown(&mut self)
        ensures
            final(self)@ == (RaftState { status: RaftNodeStatus::Shutdown, ..old(self)@ }),
    {
        self.status = RaftNodeStatus::Shutdown;
    }

    /// Whether this node can handle the append request `args`.
    pub fn can_handle_append_entries(&self, args: &AppendEntriesArgs) -> (res: bool)
        requires
            self@.wf(),
        ensures
            res == self@.append_entries_allowed(args@),
    {
        if args.term < self.current_term {
            return true;
        }
        let last_log_index = self.get_last_log_term_and_index().1;
        if !(last_log_index >= args.prev_log_index
            && self.logs[args.prev_log_index as usize].term == args.prev_log_term) {
            return true;
        }
        let first_term = self.logs[0].term;
        let n = args.entries.len();
        let mut i: usize = 0;
        while i < n
            invariant
                n == args.entries.len(),
                i <= n,
                self@.wf(),
                first_term == self@.log[0].term,
                args.term >= self.current_term,
                self@.prev_log_matches(args@),
                forall|j: int| 0 <= j < i ==> (#[trigger] args@.entries[j]).index == 0 ==> args@.entries[j].term == first_term,
            decreases n - i,
        {
            assert(args@.entries[i as int] == args.entries@[i as int]@);
            if args.entries[i].index == 0 && args.entries[i].term != first_term {
                assert(!entries_keep_head(first_term, args@.entries)) by {
                    assert(args@.entries[i as int].index == 0);
                }
                return false;
            }
            i = i + 1;
        }
        let ghost es = args@.entries;
        let mut terms: Vec<u32> = Vec::new();
        let len = self.logs.len();
        let mut j: usize = 0;
        while j < len
            invariant
                len == self.logs.len(),
                j <= len,
                terms@ == log_terms(self@.log).take(j as int),
            decreases len - j,
        {
            terms.push(self.logs[j].term);
            assert(terms@ =~= log_terms(self@.log).take(j + 1));
            j = j + 1;
        }
        assert(log_terms(self@.log).take(len as int) =~= log_terms(self@.log));
        assert(es.take(0) =~= Seq::<EntryView>::empty());
        let mut i: usize = 0;
        while i < n
            invariant
                n == args.entries.len(),
                es == args@.entries,
                i <= n,
                terms@ == log_terms(merge_entries(self@.log, es.take(i as int))),
                args.term >= self.current_term,
                self@.prev_log_matches(args@),
                forall|k: int| 0 <= k <= i ==> #[trigger] merge_entries(self@.log, es.take(k)).len() <= u32::MAX,
            decreases n - i,
        {
            let ghost cur = merge_entries(self@.log, es.take(i as int));
            let e_index = args.entries[i].index as usize;
            let e_term = args.entries[i].term;
            assert(es[i as int] == args.entries@[i as int]@);
            let ghost e = es[i as int];
            assert(es.take(i + 1).drop_last() =~= es.take(i as int));
            assert(merge_entries(self@.log, es.take(i + 1)) == merge_entry(cur, e));
            if e_index < terms.len() && terms[e_index] != e_term {
                terms.truncate(e_index);
            }
            let ghost kept = if (e.index as int) < cur.len() && cur[e.index as int].term != e.term {
                cur.take(e.index as int)
            } else {
                cur
            };
            assert(terms@ =~= log_terms(kept));
            if e_index == terms.len() {
                if terms.len() >= (u32::MAX as usize) {
                    assert(merge_entries(self@.log, es.take(i + 1)).len() > u32::MAX);
                    assert(!merges_fit(self@.log, es));
                    return false;
                }
                terms.push(e_term);
            }
            assert(terms@ =~= log_terms(merge_entry(cur, e)));
            i = i + 1;
        }
        true
    }

    /// Whether this node can add a client's command of type `command_type`.
    pub fn can_handle_add_log(&self, command_type: &String) -> (res: bool)
        requires
            self@.wf(),
        ensures
            res == self@.add_log_allowed(command_type@),
    {
        if self.status != RaftNodeStatus::Leader {
            return true;
        }
        CommandType::from_str_name(command_type.as_str()).is_some() && self.logs.len() < (u32::MAX as usize)
    }

    /// Answer a request, whatever the role. The second result says whether
    /// the request came from a current leader, which restarts the election
    /// timer: an append request of at least this node's term.
    pub fn handle_request(&mut self, req: RaftRequest) -> (res: (RaftResponse, bool))
        requires
            request_allowed(old(self)@, req),
        ensures
            final(self)@.wf(),
            match req {
                RaftRequest::AppendEntries(args) => {
                    &&& res.0 == RaftResponse::AppendEntries(old(self)@.append_entries_result(args@).1)
                    &&& final(self)@ == old(self)@.append_entries_result(args@).0
                    &&& res.1 == (args.term >= old(self).current_term)
                },
                RaftRequest::RequestVote(args) => {
                    &&& res.0 == RaftResponse::RequestVote(old(self)@.request_vote_result(args).1)
                    &&& final(self)@ == old(self)@.request_vote_result(args).0
                    &&& !res.1
                },
                RaftRequest::GetStatus => {
                    &&& res.0 == RaftResponse::GetStatus(old(self)@.status_response())
                    &&& final(self)@ == old(self)@
                    &&& !res.1
                },
                RaftRequest::AddLog(r) => {
                    let (s2, answer) = old(self)@.add_log_result(r.command_type@, r.key@, r.value@);
                    &&& res.0 == RaftResponse::AddLog(answer)
                    &&& final(self)@ == s2
                    &&& !res.1
                },
                RaftRequest::ListLogs => {
                    &&& res.0 matches RaftResponse::ListLogs(list) && {
                        &&& entries_view(list.logs@) == old(self)@.log
                        &&& list.commit_index == old(self)@.commit_index
                        &&& list.last_applied == old(self)@.last_applied
                    }
                    &&& final(self)@ == old(self)@
                    &&& !res.1
                },
            },
    {
        match req {
            RaftRequest::AppendEntries(args) => {
                let current = args.term >= self.current_term;
                let reply = self.handle_append_entries(args);
                (RaftResponse::AppendEntries(reply), current)
            },
            RaftRequest::RequestVote(args) => {
                let reply = self.handle_request_vote(args);
                (RaftResponse::RequestVote(reply), false)
            },
            RaftRequest::GetStatus => {
                let reply = self.handle_get_status();
                (RaftResponse::GetStatus(reply), false)
            },
            RaftRequest::AddLog(r) => {
                let reply = self.handle_add_log(r);
                (RaftResponse::AddLog(reply), false)
            },
            RaftRequest::ListLogs => {
                let reply = self.handle_list_logs();
                (RaftResponse::ListLogs(reply), false)
            },
        }
    }
}

} // verus!
