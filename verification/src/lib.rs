//! Raft consensus for a replicated key-value store: the node's decisions,
//! the store it replicates, and the byte encoding of its log commands.

pub mod codec;
pub mod kv;
pub mod messages;
pub mod state;
pub mod raft;

pub mod laws;
