# raft_kv_rs

A Raft node for a replicated key-value log, written in Verus. The library
(`src/`) holds the node's decisions with their contracts and proofs; `app/`
holds the I/O around them.

- `src/raft_proto.rs`: log entries, vote and append requests and replies.
- `src/node/mod.rs`: the node's shared state (`RaftCore`, viewed as
  `RaftState`), its well-formedness, and the handling of append, vote,
  status, add-command and list requests, each stated as a function of the
  state before.
- `src/node/follower_state.rs`, `candidate_state.rs`, `leader_state.rs`: what
  each role decides on its timers and on its peers' answers.
- `src/node/tally.rs`: counting the votes and match positions held in hash
  maps.
- `src/node/error.rs`, `src/http_server.rs`, `src/fsm.rs`: errors, the client
  interface's messages, and the state machine trait.
- `src/laws.rs`: properties across calls: terms never go back, one vote per
  term, majorities intersect, replication brings a follower to the leader's
  log, a leader commits only majority entries of its term, an added command
  is listed back.
- `src/trusted.rs`: the calls into `bytes`, `rand`, `tonic` and std that the
  proofs rely on.
- `app/`: the gRPC service (hand-written for the `raft.RaftService` protocol),
  the HTTP server, the event loops with their timers, and node start-up.
