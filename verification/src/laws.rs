//! Properties that span several of the node's operations.
use vstd::prelude::*;

use crate::messages::{AppendEntriesRequest, RequestVoteRequest, RequestVoteResponse};
use crate::raft::{
    after_append_entries, after_election_ends, after_start_election, after_vote_request,
    after_vote_response, after_write_replicated, after_write_request, apply_entries,
    decoded_entries, election_is_due, grants_vote, lemma_merge_entries, log_matches, majority,
    read_outcome, append_entries_succeeds, route, RaftView, ReadOutcome, Route,
};
use crate::state::{CommandView, LogEntryView, NodeState};

verus! {

/// A node grants its vote in a term to at most one candidate: once it has
/// granted a vote for some term, a request from another candidate for that
/// same term is refused.
pub proof fn lemma_one_vote_per_term(
    s: RaftView,
    first: RequestVoteRequest,
    second: RequestVoteRequest,
    now_ms: u64,
)
    requires
        first.term == second.term,
        first.candidate_id@ != second.candidate_id@,
    ensures
        grants_vote(s, first) ==> !grants_vote(after_vote_request(s, first, now_ms), second),
{
}

/// A node's term never goes down, whatever vote or append-entries request
/// arrives.
pub proof fn lemma_terms_never_decrease(
    s: RaftView,
    vote: RequestVoteRequest,
    append: AppendEntriesRequest,
    now_ms: u64,
)
    ensures
        after_vote_request(s, vote, now_ms).current_term >= s.current_term,
        after_append_entries(s, append, now_ms).current_term >= s.current_term,
        after_start_election(s, now_ms).current_term == s.current_term + 1 || s.current_term
            == u64::MAX,
{
}

/// Applying entries whose last command writes `value` under `key` leaves
/// `value` under `key`.
proof fn lemma_last_write_wins(
    store: Map<Seq<char>, Seq<char>>,
    es: Seq<LogEntryView>,
    key: Seq<char>,
    value: Seq<char>,
)
    requires
        es.len() > 0,
        es.last().command == (CommandView::Put { key, value }),
    ensures
        apply_entries(store, es).contains_key(key),
        apply_entries(store, es)[key] == value,
{
}

/// A leader whose committed entries are all in its log, and that commits a
/// write of `value` under `key`, then reads `value` under `key`; where it
/// had committed its whole log before, every other key reads as before.
pub proof fn lemma_read_after_committed_write(
    s: RaftView,
    key: Seq<char>,
    value: Seq<char>,
    other: Seq<char>,
)
    requires
        s.state == NodeState::Leader,
        s.commit_index <= s.log.len(),
        s.log.len() < u64::MAX,
    ensures
        read_outcome(
            after_write_replicated(
                after_write_request(s, CommandView::Put { key, value }),
                (s.log.len() + 1) as u64,
                true,
            ),
            key,
        ) == ReadOutcome::Found(value),
        s.commit_index == s.log.len() && other != key ==> read_outcome(
            after_write_replicated(
                after_write_request(s, CommandView::Put { key, value }),
                (s.log.len() + 1) as u64,
                true,
            ),
            other,
        ) == read_outcome(s, other),
{
    let s1 = after_write_request(s, CommandView::Put { key, value });
    let es = s1.log.subrange(s.commit_index as int, s1.log.len() as int);
    lemma_last_write_wins(s.store, es, key, value);
    if s.commit_index == s.log.len() {
        assert(es.drop_last() =~= Seq::<LogEntryView>::empty());
        assert(apply_entries(s.store, es.drop_last()) == s.store);
        assert(apply_entries(s.store, es) == s.store.insert(key, value));
    }
}

/// A write that a node refuses, or whose replication fails, changes nothing
/// that a read finds.
pub proof fn lemma_uncommitted_write_invisible(
    s: RaftView,
    command: CommandView,
    index: u64,
    any: Seq<char>,
)
    ensures
        read_outcome(after_write_replicated(after_write_request(s, command), index, false), any)
            == read_outcome(s, any),
{
}

/// A node that has just granted a vote, or heard from the leader of a term
/// not older than its own, does not start an election at that moment.
pub proof fn lemma_contact_defers_election(
    s: RaftView,
    vote: RequestVoteRequest,
    append: AppendEntriesRequest,
    now_ms: u64,
)
    requires
        append.term >= s.current_term,
    ensures
        grants_vote(s, vote) ==> !election_is_due(after_vote_request(s, vote, now_ms), now_ms),
        !election_is_due(after_append_entries(s, append, now_ms), now_ms),
{
}

/// In a cluster of one, a node that stands for election is leader at once.
pub proof fn lemma_single_member_elects_itself(s: RaftView, now_ms: u64)
    requires
        s.peers.len() <= 1,
    ensures
        after_start_election(s, now_ms).state == NodeState::Leader,
        after_start_election(s, now_ms).voted_for == Some(s.id),
{
}

/// Two majorities of the configured cluster together exceed its size, so
/// they share a member.
pub proof fn lemma_majorities_overlap(s: RaftView)
    ensures
        2 * majority(s) > s.peers.len(),
{
}

/// In every state a node reaches, its commit index lies within its log:
/// a node starts with both at 0, and every step keeps the commit index at
/// most the log's length.
pub proof fn lemma_commit_index_within_log(
    s: RaftView,
    vote: RequestVoteRequest,
    answer: RequestVoteResponse,
    append: AppendEntriesRequest,
    command: CommandView,
    index: u64,
    replicated: bool,
    now_ms: u64,
)
    requires
        s.commit_index <= s.log.len(),
    ensures
        after_vote_request(s, vote, now_ms).commit_index <= after_vote_request(
            s,
            vote,
            now_ms,
        ).log.len(),
        after_append_entries(s, append, now_ms).commit_index <= after_append_entries(
            s,
            append,
            now_ms,
        ).log.len(),
        after_start_election(s, now_ms).commit_index <= after_start_election(s, now_ms).log.len(),
        after_vote_response(s, answer, now_ms).commit_index <= after_vote_response(
            s,
            answer,
            now_ms,
        ).log.len(),
        after_election_ends(s).commit_index <= after_election_ends(s).log.len(),
        after_write_request(s, command).commit_index <= after_write_request(s, command).log.len(),
        index <= s.log.len() ==> after_write_replicated(s, index, replicated).commit_index
            <= after_write_replicated(s, index, replicated).log.len(),
{
    lemma_committed_entries_survive(s, append, now_ms);
}

/// Committed entries are never changed: whatever an append-entries request
/// carries, the node's first `commit_index` entries stay as they were.
pub proof fn lemma_committed_entries_survive(s: RaftView, m: AppendEntriesRequest, now_ms: u64)
    requires
        s.commit_index <= s.log.len(),
    ensures
        after_append_entries(s, m, now_ms).log.take(s.commit_index as int) == s.log.take(
            s.commit_index as int,
        ),
        after_append_entries(s, m, now_ms).commit_index <= after_append_entries(s, m, now_ms).log.len(),
{
    if m.term >= s.current_term && log_matches(s, m) {
        lemma_merge_entries(
            s.log,
            s.commit_index as int,
            m.prev_log_index as int,
            decoded_entries(m.entries@),
        );
    }
}

/// An append-entries request is taken only where the node's entry at the
/// request's previous index has exactly the request's previous term: where
/// the node holds an entry there with any other term, a request that
/// carries entries is refused and the log is left as it was; where the term
/// is the same, the request is taken and its entries are in the log.
pub proof fn lemma_previous_entry_must_match(s: RaftView, m: AppendEntriesRequest, now_ms: u64)
    requires
        m.term >= s.current_term,
        1 <= m.prev_log_index <= s.log.len(),
        m.entries@.len() > 0,
        s.commit_index <= s.log.len(),
    ensures
        s.log[m.prev_log_index - 1].term != m.prev_log_term ==> !append_entries_succeeds(s, m)
            && after_append_entries(s, m, now_ms).log == s.log,
        s.log[m.prev_log_index - 1].term == m.prev_log_term ==> append_entries_succeeds(s, m)
            && after_append_entries(s, m, now_ms).log.len() >= m.prev_log_index + m.entries@.len(),
{
    if s.log[m.prev_log_index - 1].term == m.prev_log_term {
        lemma_merge_entries(
            s.log,
            s.commit_index as int,
            m.prev_log_index as int,
            decoded_entries(m.entries@),
        );
    }
}

/// A vote request that is heard (not from an older term, and not claiming a
/// last entry of term 0) from a candidate whose last log term is later than
/// the node's is granted wherever the node has not voted for another
/// candidate in that term, however long either log is; one whose last log
/// term is earlier is refused.
pub proof fn lemma_later_last_term_wins_vote(s: RaftView, m: RequestVoteRequest, now_ms: u64)
    requires
        m.term >= s.current_term,
        !(m.last_log_index >= 1 && m.last_log_term == 0),
    ensures
        m.last_log_term > (if s.log.len() == 0 {
            0
        } else {
            s.log.last().term
        }) && (m.term > s.current_term || s.voted_for is None || s.voted_for == Some(
            m.candidate_id@,
        )) ==> grants_vote(s, m) && after_vote_request(s, m, now_ms).voted_for == Some(
            m.candidate_id@,
        ) && after_vote_request(s, m, now_ms).current_term == m.term,
        m.last_log_term < (if s.log.len() == 0 {
            0
        } else {
            s.log.last().term
        }) ==> !grants_vote(s, m),
{
}

/// A leader that takes a client's write grows its log by exactly one entry,
/// stamped with its current term and the next index and carrying the
/// command, and keeps the entries before it; any other node leaves its log
/// as it was.
pub proof fn lemma_write_appends_in_current_term(s: RaftView, c: CommandView)
    ensures
        s.state == NodeState::Leader ==> {
            let l = after_write_request(s, c).log;
            &&& l.len() == s.log.len() + 1
            &&& l.last().term == s.current_term
            &&& l.last().idx == s.log.len() + 1 || s.log.len() + 1 > u64::MAX
            &&& l.last().command == c
            &&& l.take(s.log.len() as int) == s.log
        },
        s.state != NodeState::Leader ==> after_write_request(s, c).log == s.log,
{
    if s.state == NodeState::Leader {
        let l = after_write_request(s, c).log;
        assert(l.take(s.log.len() as int) =~= s.log);
    }
}

/// The votes needed to win an election, and the members needed to commit an
/// entry, are the smallest strict majority of the configured cluster: more
/// than half of it, and no more than that.
pub proof fn lemma_majority_is_smallest(s: RaftView)
    ensures
        2 * majority(s) > s.peers.len(),
        2 * (majority(s) - 1) <= s.peers.len(),
{
}

/// A candidate that receives a vote granted in its own term becomes leader
/// exactly where its votes, with that one, are more than half the cluster.
pub proof fn lemma_leader_with_strict_majority(
    s: RaftView,
    resp: RequestVoteResponse,
    now_ms: u64,
)
    requires
        s.state == NodeState::Candidate,
        resp.vote_granted,
        resp.term == s.current_term,
        s.votes_received + 1 <= usize::MAX,
        s.votes_received + 1 <= u64::MAX,
    ensures
        after_vote_response(s, resp, now_ms).votes_received == s.votes_received + 1,
        (after_vote_response(s, resp, now_ms).state == NodeState::Leader) <==> 2 * (
        s.votes_received + 1) > s.peers.len(),
{
}

/// A follower that has heard nothing for longer than its election timeout
/// is due to start an election, whoever it voted for; a node that is not a
/// follower, or that heard from the cluster within its timeout, is not.
pub proof fn lemma_silent_follower_times_out(s: RaftView, now_ms: u64)
    ensures
        s.state == NodeState::Follower && now_ms >= s.last_heartbeat_ms && now_ms
            - s.last_heartbeat_ms > s.election_timeout_ms ==> election_is_due(s, now_ms),
        s.state != NodeState::Follower ==> !election_is_due(s, now_ms),
        now_ms >= s.last_heartbeat_ms && now_ms - s.last_heartbeat_ms <= s.election_timeout_ms
            ==> !election_is_due(s, now_ms),
{
}

/// A request from an older term changes nothing and fails; from any other
/// term the node takes up the larger of the two terms, counts the request
/// as contact, and answers a heartbeat (no entries) with success, leaving
/// its log as it was.
pub proof fn lemma_append_entries_terms_and_heartbeats(
    s: RaftView,
    m: AppendEntriesRequest,
    now_ms: u64,
)
    ensures
        m.term < s.current_term ==> !append_entries_succeeds(s, m) && after_append_entries(
            s,
            m,
            now_ms,
        ) == s,
        m.term >= s.current_term ==> after_append_entries(s, m, now_ms).current_term == m.term
            && after_append_entries(s, m, now_ms).last_heartbeat_ms == now_ms,
        m.term > s.current_term ==> after_append_entries(s, m, now_ms).state == NodeState::Follower
            && after_append_entries(s, m, now_ms).voted_for is None,
        m.term >= s.current_term && m.entries@.len() == 0 ==> append_entries_succeeds(s, m)
            && after_append_entries(s, m, now_ms).log == s.log,
{
}

/// Where a request is taken, the follower's commit index becomes the
/// leader's, capped at the last entry the request carries, and never goes
/// down.
pub proof fn lemma_follower_commit_index(s: RaftView, m: AppendEntriesRequest, now_ms: u64)
    requires
        m.term >= s.current_term,
        m.prev_log_index == 0 || (m.prev_log_index <= s.log.len() && s.log[m.prev_log_index
            - 1].term == m.prev_log_term),
    ensures
        ({
            let cap = m.prev_log_index + m.entries@.len();
            let target = if m.leader_commit <= cap {
                m.leader_commit as int
            } else {
                cap
            };
            after_append_entries(s, m, now_ms).commit_index == if target > s.commit_index {
                target
            } else {
                s.commit_index as int
            }
        }),
{
}

/// A vote request from a later term makes the node take up that term,
/// whether or not the vote is granted; one from an older term, or one that
/// claims a last entry of term 0, is refused and changes nothing.
pub proof fn lemma_vote_request_terms(s: RaftView, m: RequestVoteRequest, now_ms: u64)
    ensures
        m.term > s.current_term && !(m.last_log_index >= 1 && m.last_log_term == 0)
            ==> after_vote_request(s, m, now_ms).current_term == m.term && after_vote_request(
            s,
            m,
            now_ms,
        ).state == NodeState::Follower,
        m.term < s.current_term || (m.last_log_index >= 1 && m.last_log_term == 0) ==> !grants_vote(
            s,
            m,
        ) && after_vote_request(s, m, now_ms) == s,
        grants_vote(s, m) ==> after_vote_request(s, m, now_ms).voted_for == Some(m.candidate_id@)
            && after_vote_request(s, m, now_ms).last_heartbeat_ms == now_ms,
{
}

/// A node that stands for election moves to the next term as a candidate
/// that voted for itself, with exactly that one vote counted (or at once as
/// leader, where one vote is a majority).
pub proof fn lemma_election_start(s: RaftView, now_ms: u64)
    requires
        s.current_term < u64::MAX,
    ensures
        after_start_election(s, now_ms).current_term == s.current_term + 1,
        after_start_election(s, now_ms).votes_received == 1,
        after_start_election(s, now_ms).voted_for == Some(s.id),
        after_start_election(s, now_ms).last_heartbeat_ms == now_ms,
        (after_start_election(s, now_ms).state == NodeState::Leader) <==> s.peers.len() <= 1,
        s.peers.len() > 1 ==> after_start_election(s, now_ms).state == NodeState::Candidate,
{
}

/// The leader serves client requests itself; a follower that knows its
/// leader, listed among the peers, passes requests on to that leader's
/// address; a follower that knows no leader refuses them.
pub proof fn lemma_client_routing(s: RaftView)
    ensures
        s.state == NodeState::Leader ==> route(s) == Route::Here,
        s.state != NodeState::Leader && s.leader_id is None ==> route(s) == Route::Refuse(None),
        s.state != NodeState::Leader && s.leader_id is Some && s.peers.len() > 0 && s.peers[0].id
            == s.leader_id->0 ==> route(s) == Route::Forward(s.peers[0].addr),
{
}

} // verus!
