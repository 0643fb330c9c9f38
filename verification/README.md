# flotilla

A Raft node for a replicated key-value store, written in Verus.

- `src/` is the verified library: the node's state and its decisions
  (`raft`), the key-value store (`kv`), the messages nodes and clients
  exchange (`messages`), log entries (`state`), the byte form of a log
  command (`codec`, on top of bincode), and properties that span several
  operations (`laws`).
- `app/` runs a node over gRPC (tonic, tokio) and holds the command-line
  client; it hands every event to the library and carries out what the
  library asks for.
- `tests/` exercises the library on concrete values.
