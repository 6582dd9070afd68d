# rust_raft

A raft node whose logic is verified with Verus.

- `src/raft/raft_enum.rs`: roles, request kinds and reply words, with their texts.
- `src/raft/raft_conf.rs`: the configuration and the node's raft state; the
  snapshot of entry ids is bounded by its size and keeps the newest ids.
- `src/raft/db.rs`: strings and JSON sets of strings kept in a `sled` store.
- `src/raft/resp.rs`: the answers a node gives its peers, and their dispatch.
- `src/raft/req.rs`: what a node makes of its peers' answers, and vote counting.
- `src/raft/raft_run.rs`: the decisions of the periodic loop (separate deadlines for
  election, peer and id fetches, and clearing; the candidate step) and store clearing.
- `src/trans/`: request targets, the request form, node start-up.
- `src/wrappers.rs`: the contracts taken on trust for `sled`, `serde_json` and std.
- `app/`: the program: shared state, HTTPS server and client, the loop itself.
