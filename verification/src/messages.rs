//! The requests and replies that nodes and clients exchange, as plain values.
use vstd::prelude::*;

verus! {

/// A log entry as it travels between nodes; the command is in byte form.
#[derive(Debug, Clone, PartialEq, Eq)]
pub struct WireEntry {
    pub term: u64,
    pub index: u64,
    pub command: Vec<u8>,
}

/// A candidate asks for a vote.
#[derive(Debug, Clone, PartialEq, Eq)]
pub struct RequestVoteRequest {
    pub term: u64,
    pub candidate_id: String,
    pub last_log_index: u64,
    pub last_log_term: u64,
}

/// The answer to a vote request.
#[derive(Debug, Clone, Copy, PartialEq, Eq)]
pub struct RequestVoteResponse {
    pub term: u64,
    pub vote_granted: bool,
}

/// A leader replicates entries, or, with no entries, sends a heartbeat.
#[derive(Debug, Clone, PartialEq, Eq)]
pub struct AppendEntriesRequest {
    pub term: u64,
    pub leader_id: String,
    pub prev_log_index: u64,
    pub prev_log_term: u64,
    pub entries: Vec<WireEntry>,
    pub leader_commit: u64,
}

/// The answer to an append-entries request.
#[derive(Debug, Clone, Copy, PartialEq, Eq)]
pub struct AppendEntriesResponse {
    pub term: u64,
    pub success: bool,
}

/// Why a client request was refused.
#[derive(Debug, Clone, PartialEq, Eq)]
pub struct RpcError {
    pub message: String,
    pub leader_id: Option<String>,
    pub leader_addr: Option<String>,
}

/// The outcome of a client's write.
#[derive(Debug, Clone, PartialEq, Eq)]
pub enum SetResult {
    Success,
    Error(RpcError),
}

/// The reply to a client's write.
#[derive(Debug, Clone, PartialEq, Eq)]
pub struct SetResponse {
    pub result: Option<SetResult>,
}

/// The outcome of a client's read.
#[derive(Debug, Clone, PartialEq, Eq)]
pub enum GetResult {
    Value(String),
    NotFound,
    Error(RpcError),
}

/// The reply to a client's read.
#[derive(Debug, Clone, PartialEq, Eq)]
pub struct GetResponse {
    pub result: Option<GetResult>,
}

/// The outcome of a client's delete.
#[derive(Debug, Clone, PartialEq, Eq)]
pub enum DeleteResult {
    Success,
    Error(RpcError),
}

/// The reply to a client's delete.
#[derive(Debug, Clone, PartialEq, Eq)]
pub struct DeleteResponse {
    pub result: Option<DeleteResult>,
}

/// An error that carries `message` and no hint of where the leader is.
pub open spec fn plain_error(e: RpcError, message: Seq<char>) -> bool {
    &&& e.message@ == message
    &&& e.leader_id is None
    &&& e.leader_addr is None
}

/// Builds an error with `message` and no hint of where the leader is.
pub fn error_without_leader(message: &str) -> (e: RpcError)
    ensures
        plain_error(e, message@),
{
    RpcError { message: message.to_owned(), leader_id: None, leader_addr: None }
}

} // verus!
