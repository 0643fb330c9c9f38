//! A Raft node: its state and every decision it takes on a message, a timer
//! or a client request. Sending, receiving and waiting are left to the
//! caller, which hands each event to the node and carries out what it asks.
//!
//! Time is counted in milliseconds on a clock that the caller starts when it
//! creates the node; every event that needs the time carries `now_ms`.
use vstd::prelude::*;

use rand::Rng;

use crate::codec::command_bytes;
use crate::kv::KvStore;
use crate::messages::{
    error_without_leader, plain_error, AppendEntriesRequest, AppendEntriesResponse,
    DeleteResponse, DeleteResult, GetResponse, GetResult, RequestVoteRequest, RequestVoteResponse,
    RpcError, SetResponse, SetResult, WireEntry,
};
use crate::state::{
    wire_entry_decodes, wire_entry_view, Command, CommandView, LogEntry, LogEntryView, NodeState,
};

verus! {

/// The shortest election timeout a node draws.
pub const ELECTION_TIMEOUT_MIN_MS: u64 = 150;

/// The longest election timeout a node draws.
pub const ELECTION_TIMEOUT_MAX_MS: u64 = 300;

/// How often a leader sends heartbeats.
pub const HEARTBEAT_INTERVAL_MS: u64 = 100;

/// Calls `rand::rng().random_range(low..=high)`. Claimed: the result lies in
/// the range; nothing more, as it is drawn at random.
#[verifier::external_body]
fn random_in_range(low: u64, high: u64) -> (r: u64)
    requires
        low <= high,
    ensures
        low <= r <= high,
{
    rand::rng().random_range(low..=high)
}

/// A member of the cluster: its id and the address it listens on.
#[derive(Debug, Clone)]
pub struct Peer {
    pub id: String,
    pub addr: String,
}

/// What a `Peer` stands for.
pub struct PeerView {
    pub id: Seq<char>,
    pub addr: Seq<char>,
}

impl View for Peer {
    type V = PeerView;

    open spec fn view(&self) -> PeerView {
        PeerView { id: self.id@, addr: self.addr@ }
    }
}

/// The views of a list of peers.
pub open spec fn peer_views(peers: Seq<Peer>) -> Seq<PeerView> {
    peers.map_values(|p: Peer| p@)
}

/// No two peers share an id.
pub open spec fn ids_distinct(peers: Seq<PeerView>) -> bool {
    forall|i: int, j: int| 0 <= i < j < peers.len() ==> #[trigger] peers[i].id != #[trigger] peers[j].id
}

/// The views of a list of strings.
pub open spec fn string_views(s: Seq<String>) -> Seq<Seq<char>> {
    s.map_values(|x: String| x@)
}

/// The views of a list of log entries.
pub open spec fn entry_views(s: Seq<LogEntry>) -> Seq<LogEntryView> {
    s.map_values(|e: LogEntry| e@)
}

/// How a node is set up: its own id and address, and every member of the
/// cluster, itself included.
#[derive(Debug)]
pub struct RaftNodeConfig {
    id: String,
    pub addr: String,
    peers: Vec<Peer>,
}

/// What a `RaftNodeConfig` stands for.
pub struct ConfigView {
    pub id: Seq<char>,
    pub addr: Seq<char>,
    pub peers: Seq<PeerView>,
}

impl View for RaftNodeConfig {
    type V = ConfigView;

    closed spec fn view(&self) -> ConfigView {
        ConfigView { id: self.id@, addr: self.addr@, peers: peer_views(self.peers@) }
    }
}

impl RaftNodeConfig {
    #[verifier::type_invariant]
    spec fn inv(self) -> bool {
        ids_distinct(peer_views(self.peers@))
    }

    /// A configuration for the node `id` at `addr` in a cluster of `peers`,
    /// no two of which share an id.
    pub fn new(id: String, addr: String, peers: Vec<Peer>) -> (c: Self)
        requires
            ids_distinct(peer_views(peers@)),
        ensures
            c@.id == id@,
            c@.addr == addr@,
            c@.peers == peer_views(peers@),
    {
        RaftNodeConfig { id, addr, peers }
    }
}

impl RaftNodeConfig {
    /// The configuration of the member `id` of a cluster of `peers`, which
    /// listens at the address the cluster gives it; `None` where no peer has
    /// that id.
    pub fn for_member(id: String, peers: Vec<Peer>) -> (r: Option<Self>)
        requires
            ids_distinct(peer_views(peers@)),
        ensures
            r is Some <==> addr_of(peer_views(peers@), id@) is Some,
            r matches Some(c) ==> c@.id == id@ && Some(c@.addr) == addr_of(peer_views(peers@), id@)
                && c@.peers == peer_views(peers@),
    {
        let ghost ps = peer_views(peers@);
        assert(ps.skip(0) =~= ps);
        let mut i: usize = 0;
        while i < peers.len()
            invariant
                i <= peers@.len(),
                ps == peer_views(peers@),
                ids_distinct(ps),
                addr_of(ps, id@) == addr_of(ps.skip(i as int), id@),
            decreases peers@.len() - i,
        {
            assert(ps.skip(i as int)[0] == peers@[i as int]@);
            if peers[i].id == id {
                let addr = peers[i].addr.clone();
                return Some(RaftNodeConfig::new(id, addr, peers));
            }
            assert(ps.skip(i as int).drop_first() =~= ps.skip(i + 1));
            i = i + 1;
        }
        assert(ps.skip(i as int).len() == 0);
        None
    }
}

/// A Raft node's state.
#[derive(Debug)]
pub struct RaftNode {
    state: NodeState,
    current_term: u64,
    commit_index: u64,
    last_applied: u64,
    votes_received: u64,
    voted_for: Option<String>,
    leader_id: Option<String>,
    id: String,
    addr: String,
    last_heartbeat_ms: u64,
    election_timeout_ms: u64,
    peers: Vec<Peer>,
    store: KvStore,
    log: Vec<LogEntry>,
}

/// What a `RaftNode` stands for.
pub struct RaftView {
    pub state: NodeState,
    pub current_term: u64,
    pub commit_index: u64,
    pub last_applied: u64,
    pub votes_received: u64,
    pub voted_for: Option<Seq<char>>,
    pub leader_id: Option<Seq<char>>,
    pub id: Seq<char>,
    pub addr: Seq<char>,
    pub last_heartbeat_ms: u64,
    pub election_timeout_ms: u64,
    pub peers: Seq<PeerView>,
    pub store: Map<Seq<char>, Seq<char>>,
    pub log: Seq<LogEntryView>,
}

/// The view of an optional string.
pub open spec fn option_view(o: Option<String>) -> Option<Seq<char>> {
    match o {
        Some(s) => Some(s@),
        None => None,
    }
}

impl View for RaftNode {
    type V = RaftView;

    closed spec fn view(&self) -> RaftView {
        RaftView {
            state: self.state,
            current_term: self.current_term,
            commit_index: self.commit_index,
            last_applied: self.last_applied,
            votes_received: self.votes_received,
            voted_for: option_view(self.voted_for),
            leader_id: option_view(self.leader_id),
            id: self.id@,
            addr: self.addr@,
            last_heartbeat_ms: self.last_heartbeat_ms,
            election_timeout_ms: self.election_timeout_ms,
            peers: peer_views(self.peers@),
            store: self.store@,
            log: entry_views(self.log@),
        }
    }
}

/// The term of the last log entry, or 0 for an empty log.
pub open spec fn last_log_term(log: Seq<LogEntryView>) -> u64 {
    if log.len() == 0 {
        0
    } else {
        log.last().term
    }
}

/// The index carried by the last log entry, or 0 for an empty log.
pub open spec fn last_log_index(log: Seq<LogEntryView>) -> u64 {
    if log.len() == 0 {
        0
    } else {
        log.last().idx
    }
}

/// The addresses of the peers whose address differs from `addr`, in order.
pub open spec fn addrs_other_than(peers: Seq<PeerView>, addr: Seq<char>) -> Seq<Seq<char>>
    decreases peers.len(),
{
    if peers.len() == 0 {
        Seq::empty()
    } else {
        let before = addrs_other_than(peers.drop_last(), addr);
        if peers.last().addr != addr {
            before.push(peers.last().addr)
        } else {
            before
        }
    }
}

/// The addresses of the peers whose id differs from `id`, in order.
pub open spec fn addrs_of_ids_other_than(peers: Seq<PeerView>, id: Seq<char>) -> Seq<Seq<char>>
    decreases peers.len(),
{
    if peers.len() == 0 {
        Seq::empty()
    } else {
        let before = addrs_of_ids_other_than(peers.drop_last(), id);
        if peers.last().id != id {
            before.push(peers.last().addr)
        } else {
            before
        }
    }
}

/// How many successes, the node's own included, make a majority of the
/// configured cluster.
pub open spec fn majority(s: RaftView) -> nat {
    s.peers.len() / 2 + 1
}

/// What the caller runs as the node's timer.
#[derive(Debug, Clone, Copy, PartialEq, Eq, Structural)]
pub enum TimerAction {
    /// Stop any leader heartbeat and check, every `interval_ms`, whether an
    /// election is due.
    ElectionTimeout { interval_ms: u64 },
    /// Send the heartbeat request to the other peers every `interval_ms`.
    LeaderHeartbeat { interval_ms: u64 },
}

impl RaftNode {
    /// A follower in term 0 with an empty log and store, whose election
    /// timeout is drawn at random between 150 and 300 ms; its clock starts
    /// at 0, the time of its last heartbeat.
    pub fn new(config: RaftNodeConfig) -> (n: Self)
        ensures
            n@.state == NodeState::Follower,
            n@.current_term == 0,
            n@.commit_index == 0,
            n@.last_applied == 0,
            n@.votes_received == 0,
            n@.voted_for is None,
            n@.leader_id is None,
            n@.id == config@.id,
            n@.addr == config@.addr,
            n@.peers == config@.peers,
            ids_distinct(n@.peers),
            n@.last_heartbeat_ms == 0,
            ELECTION_TIMEOUT_MIN_MS <= n@.election_timeout_ms <= ELECTION_TIMEOUT_MAX_MS,
            n@.store == Map::<Seq<char>, Seq<char>>::empty(),
            n@.log == Seq::<LogEntryView>::empty(),
    {
        proof {
            use_type_invariant(&config);
        }
        let timeout = random_in_range(ELECTION_TIMEOUT_MIN_MS, ELECTION_TIMEOUT_MAX_MS);
        let n = RaftNode {
            state: NodeState::Follower,
            current_term: 0,
            commit_index: 0,
            last_applied: 0,
            votes_received: 0,
            voted_for: None,
            leader_id: None,
            id: config.id,
            addr: config.addr,
            last_heartbeat_ms: 0,
            election_timeout_ms: timeout,
            peers: config.peers,
            store: KvStore::new(),
            log: Vec::new(),
        };
        assert(entry_views(n.log@) =~= Seq::<LogEntryView>::empty());
        n
    }

    /// The term of the last log entry, or 0 for an empty log.
    pub fn get_last_log_term(&self) -> (t: u64)
        ensures
            t == last_log_term(self@.log),
    {
        match self.log.last() {
            Some(e) => e.term,
            None => 0,
        }
    }

    /// The index carried by the last log entry, or 0 for an empty log.
    pub fn get_last_log_index(&self) -> (i: u64)
        ensures
            i == last_log_index(self@.log),
    {
        match self.log.last() {
            Some(e) => e.idx,
            None => 0,
        }
    }

    /// The timer the node needs in its state: followers and candidates
    /// watch for an election timeout, a leader sends heartbeats.
    pub fn timer_action(&self) -> (a: TimerAction)
        ensures
            a == (match self@.state {
                NodeState::Leader => TimerAction::LeaderHeartbeat {
                    interval_ms: HEARTBEAT_INTERVAL_MS,
                },
                _ => TimerAction::ElectionTimeout { interval_ms: self@.election_timeout_ms },
            }),
    {
        match self.state {
            NodeState::Follower | NodeState::Candidate => TimerAction::ElectionTimeout {
                interval_ms: self.election_timeout_ms,
            },
            NodeState::Leader => TimerAction::LeaderHeartbeat { interval_ms: HEARTBEAT_INTERVAL_MS },
        }
    }

    /// The addresses that vote requests and heartbeats go to: every peer
    /// whose address is not the node's own.
    pub fn peer_addrs_except_own(&self) -> (addrs: Vec<String>)
        ensures
            string_views(addrs@) == addrs_other_than(self@.peers, self@.addr),
    {
        let mut out: Vec<String> = Vec::new();
        let mut i: usize = 0;
        while i < self.peers.len()
            invariant
                i <= self.peers@.len(),
                string_views(out@) == addrs_other_than(peer_views(self.peers@).take(i as int), self.addr@),
            decreases self.peers@.len() - i,
        {
            let ghost ps = peer_views(self.peers@);
            assert(ps.take(i + 1).drop_last() =~= ps.take(i as int));
            let ghost before = out@;
            if self.peers[i].addr != self.addr {
                out.push(self.peers[i].addr.clone());
                assert(string_views(out@) =~= string_views(before).push(self.peers@[i as int].addr@));
            }
            i = i + 1;
        }
        assert(peer_views(self.peers@).take(self.peers@.len() as int) =~= peer_views(self.peers@));
        out
    }

    /// The addresses that a replicated entry goes to: every peer whose id is
    /// not the node's own.
    pub fn peer_addrs_except_own_id(&self) -> (addrs: Vec<String>)
        ensures
            string_views(addrs@) == addrs_of_ids_other_than(self@.peers, self@.id),
    {
        let mut out: Vec<String> = Vec::new();
        let mut i: usize = 0;
        while i < self.peers.len()
            invariant
                i <= self.peers@.len(),
                string_views(out@) == addrs_of_ids_other_than(peer_views(self.peers@).take(i as int), self.id@),
            decreases self.peers@.len() - i,
        {
            let ghost ps = peer_views(self.peers@);
            assert(ps.take(i + 1).drop_last() =~= ps.take(i as int));
            let ghost before = out@;
            if self.peers[i].id != self.id {
                out.push(self.peers[i].addr.clone());
                assert(string_views(out@) =~= string_views(before).push(self.peers@[i as int].addr@));
            }
            i = i + 1;
        }
        assert(peer_views(self.peers@).take(self.peers@.len() as int) =~= peer_views(self.peers@));
        out
    }

    /// The heartbeat a leader sends: its term and id, its last log index and
    /// term, no entries, and its commit index.
    pub fn heartbeat_request(&self) -> (r: AppendEntriesRequest)
        ensures
            r.term == self@.current_term,
            r.leader_id@ == self@.id,
            r.prev_log_index == last_log_index(self@.log),
            r.prev_log_term == last_log_term(self@.log),
            r.entries@.len() == 0,
            r.leader_commit == self@.commit_index,
    {
        AppendEntriesRequest {
            term: self.current_term,
            leader_id: self.id.clone(),
            prev_log_index: self.get_last_log_index(),
            prev_log_term: self.get_last_log_term(),
            entries: Vec::new(),
            leader_commit: self.commit_index,
        }
    }

}

/// The node after it takes up a term seen in a message: a higher term makes
/// it a follower of that term that has voted for no one and knows no leader.
pub open spec fn adopt_term(s: RaftView, term: u64) -> RaftView {
    if term > s.current_term {
        RaftView {
            state: NodeState::Follower,
            current_term: term,
            voted_for: None,
            leader_id: None,
            ..s
        }
    } else {
        s
    }
}

/// A vote request whose account of the candidate's log can be true: every
/// entry is made in a term of at least 1, so a log with a last entry has a
/// last term of at least 1.
pub open spec fn vote_request_well_formed(m: RequestVoteRequest) -> bool {
    !(m.last_log_index >= 1 && m.last_log_term == 0)
}

/// Whether the node takes a vote request into account at all: it must be
/// well formed and not from an older term.
pub open spec fn vote_request_heard(s: RaftView, m: RequestVoteRequest) -> bool {
    vote_request_well_formed(m) && m.term >= s.current_term
}

/// Whether the candidate's log is at least as up to date as the node's: its
/// last term is later, or the same with at least as many entries.
pub open spec fn candidate_log_up_to_date(s: RaftView, m: RequestVoteRequest) -> bool {
    ||| m.last_log_term > last_log_term(s.log)
    ||| (m.last_log_term == last_log_term(s.log) && m.last_log_index >= last_log_index(s.log))
}

/// Whether a vote request is granted: it is heard, the node (in the
/// request's term) has voted for no one else, and the candidate's log is up
/// to date.
pub open spec fn grants_vote(s: RaftView, m: RequestVoteRequest) -> bool {
    let s1 = adopt_term(s, m.term);
    &&& vote_request_heard(s, m)
    &&& (s1.voted_for is None || s1.voted_for == Some(m.candidate_id@))
    &&& candidate_log_up_to_date(s1, m)
}

/// The node after a vote request arrives at `now_ms`. A request that is not
/// heard changes nothing. Otherwise the node takes up the request's term,
/// and where it grants the vote it records it and counts the request as
/// contact.
pub open spec fn after_vote_request(s: RaftView, m: RequestVoteRequest, now_ms: u64) -> RaftView {
    if !vote_request_heard(s, m) {
        s
    } else if grants_vote(s, m) {
        RaftView {
            voted_for: Some(m.candidate_id@),
            last_heartbeat_ms: now_ms,
            ..adopt_term(s, m.term)
        }
    } else {
        adopt_term(s, m.term)
    }
}

impl RaftNode {
    /// Answers a vote request: see `after_vote_request` for the new state.
    /// The answer carries the node's term afterwards and whether the vote is
    /// granted.
    pub fn handle_vote_request(&mut self, message: RequestVoteRequest, now_ms: u64) -> (r:
        RequestVoteResponse)
        ensures
            final(self)@ == after_vote_request(old(self)@, message, now_ms),
            r.vote_granted == grants_vote(old(self)@, message),
            r.term == final(self)@.current_term,
            final(self)@.current_term >= old(self)@.current_term,
    {
        let well_formed = !(message.last_log_index >= 1 && message.last_log_term == 0);
        if !well_formed || message.term < self.current_term {
            return RequestVoteResponse { term: self.current_term, vote_granted: false };
        }
        if message.term > self.current_term {
            self.state = NodeState::Follower;
            self.current_term = message.term;
            self.voted_for = None;
            self.leader_id = None;
        }
        let free = match &self.voted_for {
            None => true,
            Some(c) => *c == message.candidate_id,
        };
        let my_last_term = self.get_last_log_term();
        let my_last_index = self.get_last_log_index();
        let up_to_date = message.last_log_term > my_last_term || (message.last_log_term
            == my_last_term && message.last_log_index >= my_last_index);
        if free && up_to_date {
            self.voted_for = Some(message.candidate_id);
            self.last_heartbeat_ms = now_ms;
            return RequestVoteResponse { term: self.current_term, vote_granted: true };
        }
        RequestVoteResponse { term: self.current_term, vote_granted: false }
    }
}

/// Whether the node's log agrees with the request just before its entries:
/// they start the log, or the node has an entry at the previous index with
/// the previous term.
pub open spec fn log_matches(s: RaftView, m: AppendEntriesRequest) -> bool {
    ||| m.prev_log_index == 0
    ||| (m.prev_log_index <= s.log.len() && s.log[m.prev_log_index - 1].term == m.prev_log_term)
}

/// Whether every entry of a request decodes.
pub open spec fn entries_decode(es: Seq<WireEntry>) -> bool {
    forall|i: int| 0 <= i < es.len() ==> #[trigger] wire_entry_decodes(es[i])
}

/// What the entries of a request stand for.
pub open spec fn decoded_entries(es: Seq<WireEntry>) -> Seq<LogEntryView> {
    es.map_values(|w: WireEntry| wire_entry_view(w))
}

/// Puts one entry at position `p`: an entry already there with the same
/// term stays; one with another term is dropped with all that follow it, and
/// the new entry takes its place, except that the first `commit` entries,
/// which are committed, are never dropped (the new entry is then ignored);
/// at the end of the log the entry is added.
pub open spec fn merge_entry(log: Seq<LogEntryView>, commit: int, p: int, e: LogEntryView) -> Seq<
    LogEntryView,
> {
    if p < log.len() {
        if log[p].term == e.term || p < commit {
            log
        } else {
            log.take(p).push(e)
        }
    } else {
        log.push(e)
    }
}

/// Puts the entries at consecutive positions from `prev`, keeping the first
/// `commit` entries.
pub open spec fn merge_entries(
    log: Seq<LogEntryView>,
    commit: int,
    prev: int,
    es: Seq<LogEntryView>,
) -> Seq<LogEntryView>
    decreases es.len(),
{
    if es.len() == 0 {
        log
    } else {
        merge_entry(
            merge_entries(log, commit, prev, es.drop_last()),
            commit,
            prev + es.len() - 1,
            es.last(),
        )
    }
}

/// The store after a command is applied.
pub open spec fn apply_command(store: Map<Seq<char>, Seq<char>>, c: CommandView) -> Map<
    Seq<char>,
    Seq<char>,
> {
    match c {
        CommandView::Put { key, value } => store.insert(key, value),
        CommandView::Delete { key } => store.remove(key),
    }
}

/// The store after the commands of these entries are applied in order.
pub open spec fn apply_entries(store: Map<Seq<char>, Seq<char>>, es: Seq<LogEntryView>) -> Map<
    Seq<char>,
    Seq<char>,
>
    decreases es.len(),
{
    if es.len() == 0 {
        store
    } else {
        apply_command(apply_entries(store, es.drop_last()), es.last().command)
    }
}

/// The node once its commit index moves up to `target`: the entries after
/// the old commit index, up to and including the one at `target`, are
/// applied to the store in order.
pub open spec fn committed_through(s: RaftView, target: u64) -> RaftView {
    RaftView {
        commit_index: target,
        last_applied: target,
        store: apply_entries(s.store, s.log.subrange(s.commit_index as int, target as int)),
        ..s
    }
}

/// The node once it accepts a request from the leader of a term not older
/// than its own, in contact now: a leader of that same term stays leader;
/// any other node follows the request's leader.
pub open spec fn follow_leader(s: RaftView, m: AppendEntriesRequest, now_ms: u64) -> RaftView {
    let s0 = adopt_term(s, m.term);
    if s0.state == NodeState::Leader {
        RaftView { last_heartbeat_ms: now_ms, ..s0 }
    } else {
        RaftView {
            state: NodeState::Follower,
            leader_id: Some(m.leader_id@),
            last_heartbeat_ms: now_ms,
            ..s0
        }
    }
}

/// How far a follower may commit after a request: the leader's commit
/// index, but no further than the last entry the request carries.
pub open spec fn follower_commit_target(m: AppendEntriesRequest) -> u64 {
    if m.leader_commit <= m.prev_log_index + m.entries@.len() {
        m.leader_commit
    } else {
        (m.prev_log_index + m.entries@.len()) as u64
    }
}

/// The node after an append-entries request arrives at `now_ms`. A request
/// from an older term changes nothing. Otherwise the node follows the
/// request's leader; where its log agrees with the request's previous entry,
/// it merges the entries in and commits up to `follower_commit_target`.
pub open spec fn after_append_entries(s: RaftView, m: AppendEntriesRequest, now_ms: u64) -> RaftView {
    if m.term < s.current_term {
        s
    } else {
        let s1 = follow_leader(s, m, now_ms);
        if !log_matches(s1, m) {
            s1
        } else {
            let s2 = RaftView {
                log: merge_entries(
                    s1.log,
                    s1.commit_index as int,
                    m.prev_log_index as int,
                    decoded_entries(m.entries@),
                ),
                ..s1
            };
            if follower_commit_target(m) > s2.commit_index {
                committed_through(s2, follower_commit_target(m))
            } else {
                s2
            }
        }
    }
}

/// Whether the node takes the entries of an append-entries request: the
/// request is not from an older term and the node's log agrees with its
/// previous entry.
pub open spec fn accepts_entries(s: RaftView, m: AppendEntriesRequest) -> bool {
    m.term >= s.current_term && log_matches(s, m)
}

/// Whether the node reports success for an append-entries request: one
/// from an older term fails; a heartbeat (no entries) otherwise succeeds;
/// entries succeed where they are taken.
pub open spec fn append_entries_succeeds(s: RaftView, m: AppendEntriesRequest) -> bool {
    m.term >= s.current_term && (m.entries@.len() == 0 || log_matches(s, m))
}

/// Once a follower takes entries after its entry at `prev`, its log keeps
/// its first `commit` (committed) entries and everything up to `prev`, is
/// long enough to hold the entries, and holds an entry of each sent entry's
/// term at that entry's place from `commit` on.
pub proof fn lemma_merge_entries(
    log: Seq<LogEntryView>,
    commit: int,
    prev: int,
    es: Seq<LogEntryView>,
)
    requires
        0 <= prev <= log.len(),
        0 <= commit <= log.len(),
    ensures
        merge_entries(log, commit, prev, es).len() >= prev + es.len(),
        merge_entries(log, commit, prev, es).len() >= commit,
        merge_entries(log, commit, prev, es).take(prev) == log.take(prev),
        merge_entries(log, commit, prev, es).take(commit) == log.take(commit),
        forall|i: int|
            0 <= i < es.len() && prev + i >= commit ==> #[trigger] merge_entries(
                log,
                commit,
                prev,
                es,
            )[prev + i].term == es[i].term,
    decreases es.len(),
{
    if es.len() > 0 {
        let before = merge_entries(log, commit, prev, es.drop_last());
        lemma_merge_entries(log, commit, prev, es.drop_last());
        let p = prev + es.len() - 1;
        let after = merge_entries(log, commit, prev, es);
        assert(after == merge_entry(before, commit, p, es.last()));
        assert(after.take(prev) =~= log.take(prev)) by {
            assert(before.take(prev) =~= log.take(prev));
        }
        assert(after.take(commit) =~= log.take(commit)) by {
            assert(before.take(commit) =~= log.take(commit));
        }
        assert forall|i: int| 0 <= i < es.len() && prev + i >= commit implies #[trigger] after[prev
            + i].term == es[i].term by {
            if i < es.len() - 1 {
                assert(es.drop_last()[i] == es[i]);
                assert(before[prev + i].term == es.drop_last()[i].term);
            }
        }
    }
}

impl RaftNode {
    /// Commits up to `target`, applying each newly committed command to the
    /// store in log order.
    fn commit_through(&mut self, target: u64)
        requires
            old(self)@.commit_index < target <= old(self)@.log.len(),
        ensures
            final(self)@ == committed_through(old(self)@, target),
    {
        let ghost s0 = self@;
        let mut store = KvStore::new();
        std::mem::swap(&mut store, &mut self.store);
        let n = self.log.len();
        let mut j: usize = self.commit_index as usize;
        let end: usize = target as usize;
        while j < end
            invariant
                s0.commit_index <= j <= end,
                end == target,
                end <= n,
                n == self.log@.len(),
                entry_views(self.log@) == s0.log,
                store@ == apply_entries(s0.store, s0.log.subrange(s0.commit_index as int, j as int)),
            decreases end - j,
        {
            let ghost before = store@;
            assert(s0.log[j as int] == self.log@[j as int]@);
            match &self.log[j].command {
                Command::Put { key, value } => {
                    store.insert(key.clone(), value.clone());
                },
                Command::Delete { key } => {
                    store.remove(key.as_str());
                },
            }
            assert(s0.log.subrange(s0.commit_index as int, j + 1).drop_last() =~= s0.log.subrange(
                s0.commit_index as int,
                j as int,
            ));
            j = j + 1;
        }
        self.store = store;
        self.commit_index = target;
        self.last_applied = target;
    }

    /// Whether the node's log agrees with the request's previous entry.
    fn log_matches_request(&self, message: &AppendEntriesRequest) -> (b: bool)
        ensures
            b == log_matches(self@, *message),
    {
        let prev = message.prev_log_index;
        prev == 0 || (prev <= self.log.len() as u64 && self.log[(prev - 1) as usize].term
            == message.prev_log_term)
    }

    /// Answers an append-entries request: see `after_append_entries` for the
    /// new state; the answer carries the node's term afterwards and whether
    /// the request was accepted.
    pub fn handle_append_entries(&mut self, message: AppendEntriesRequest, now_ms: u64) -> (r:
        AppendEntriesResponse)
        requires
            accepts_entries(old(self)@, message) ==> entries_decode(message.entries@),
        ensures
            final(self)@ == after_append_entries(old(self)@, message, now_ms),
            r.term == final(self)@.current_term,
            r.success == append_entries_succeeds(old(self)@, message),
            final(self)@.current_term >= old(self)@.current_term,
            final(self)@.commit_index >= old(self)@.commit_index,
            old(self)@.commit_index <= old(self)@.log.len() ==> final(self)@.commit_index
                <= final(self)@.log.len(),
            old(self)@.commit_index <= old(self)@.log.len() ==> final(self)@.log.take(
                old(self)@.commit_index as int,
            ) == old(self)@.log.take(old(self)@.commit_index as int),
    {
        let ghost s0 = self@;
        if message.term < self.current_term {
            return AppendEntriesResponse { term: self.current_term, success: false };
        }
        if message.term > self.current_term {
            self.current_term = message.term;
            self.voted_for = None;
            self.state = NodeState::Follower;
            self.leader_id = None;
        }
        match self.state {
            NodeState::Leader => {},
            _ => {
                self.state = NodeState::Follower;
                self.leader_id = Some(message.leader_id.clone());
            },
        }
        self.last_heartbeat_ms = now_ms;
        assert(self@ == follow_leader(s0, message, now_ms));
        if !self.log_matches_request(&message) {
            return AppendEntriesResponse {
                term: self.current_term,
                success: message.entries.len() == 0,
            };
        }
        let n0 = self.log.len();
        assert(message.prev_log_index <= n0);
        let prev = message.prev_log_index as usize;
        let mut log: Vec<LogEntry> = Vec::new();
        std::mem::swap(&mut log, &mut self.log);
        let ghost l0 = entry_views(log@);
        let ghost d = decoded_entries(message.entries@);
        let commit = self.commit_index;
        let mut i: usize = 0;
        while i < message.entries.len()
            invariant
                i <= message.entries@.len(),
                prev == message.prev_log_index,
                d == decoded_entries(message.entries@),
                entries_decode(message.entries@),
                entry_views(log@) == merge_entries(l0, commit as int, prev as int, d.take(i as int)),
                log@.len() >= prev + i,
            decreases message.entries@.len() - i,
        {
            assert(wire_entry_decodes(message.entries@[i as int]));
            let ghost before = entry_views(log@);
            let cur = log.len();
            let p = prev + i;
            match LogEntry::from_wire(&message.entries[i]) {
                Ok(e) => {
                    let ghost ev = e@;
                    if p < log.len() {
                        if log[p].term != e.term && p as u64 >= commit {
                            log.truncate(p);
                            log.push(e);
                            assert(entry_views(log@) =~= before.take(p as int).push(ev));
                        }
                    } else {
                        log.push(e);
                        assert(entry_views(log@) =~= before.push(ev));
                    }
                },
                Err(_) => {},
            }
            assert(d.take(i + 1).drop_last() =~= d.take(i as int));
            i = i + 1;
        }
        assert(d.take(message.entries@.len() as int) =~= d);
        proof {
            if s0.commit_index <= s0.log.len() {
                lemma_merge_entries(l0, commit as int, prev as int, d);
            }
        }
        self.log = log;
        let count = message.entries.len() as u64;
        let leader_commit = message.leader_commit;
        let target = if leader_commit <= message.prev_log_index {
            leader_commit
        } else if leader_commit - message.prev_log_index <= count {
            leader_commit
        } else {
            message.prev_log_index + count
        };
        assert(target == follower_commit_target(message));
        if target > self.commit_index {
            self.commit_through(target);
        }
        AppendEntriesResponse { term: self.current_term, success: true }
    }

    /// Answers an append-entries request where it can be answered, and
    /// otherwise returns `None` and leaves the node as it was: that is where
    /// the request is accepted but some of its entries do not decode.
    pub fn receive_append_entries(&mut self, message: AppendEntriesRequest, now_ms: u64) -> (r:
        Option<AppendEntriesResponse>)
        ensures
            r is None <==> (accepts_entries(old(self)@, message) && !entries_decode(
                message.entries@,
            )),
            r is None ==> final(self)@ == old(self)@,
            r matches Some(resp) ==> final(self)@ == after_append_entries(old(self)@, message, now_ms)
                && resp.term == final(self)@.current_term && resp.success
                == append_entries_succeeds(old(self)@, message),
    {
        if message.term >= self.current_term && self.log_matches_request(&message) {
            let mut i: usize = 0;
            while i < message.entries.len()
                invariant
                    i <= message.entries@.len(),
                    forall|j: int| 0 <= j < i ==> #[trigger] wire_entry_decodes(message.entries@[j]),
                    self@ == old(self)@,
                    accepts_entries(old(self)@, message),
                decreases message.entries@.len() - i,
            {
                let decoded = LogEntry::from_wire(&message.entries[i]);
                if decoded.is_err() {
                    assert(!wire_entry_decodes(message.entries@[i as int]));
                    return None;
                }
                i = i + 1;
            }
        }
        Some(self.handle_append_entries(message, now_ms))
    }
}

/// How long ago, on the node's clock, the last heartbeat came; 0 where the
/// clock reads earlier than that.
pub open spec fn elapsed_since_heartbeat(s: RaftView, now_ms: u64) -> nat {
    if now_ms >= s.last_heartbeat_ms {
        (now_ms - s.last_heartbeat_ms) as nat
    } else {
        0
    }
}

/// Whether an election timeout at `now_ms` starts an election: only a
/// follower that has heard nothing for longer than its timeout starts one.
pub open spec fn election_is_due(s: RaftView, now_ms: u64) -> bool {
    s.state == NodeState::Follower && elapsed_since_heartbeat(s, now_ms) > s.election_timeout_ms
}

/// The node once it stands for election at `now_ms`: a candidate in the
/// next term that votes for itself, so that one vote is counted. Where that
/// vote alone is a majority, the node is leader at once.
pub open spec fn after_start_election(s: RaftView, now_ms: u64) -> RaftView {
    let c = RaftView {
        state: NodeState::Candidate,
        current_term: (s.current_term + 1) as u64,
        votes_received: 1,
        voted_for: Some(s.id),
        leader_id: None,
        last_heartbeat_ms: now_ms,
        ..s
    };
    if 1 >= majority(s) {
        RaftView { state: NodeState::Leader, leader_id: Some(s.id), ..c }
    } else {
        c
    }
}

/// The node after it steps down at `now_ms` to a follower of `term`.
pub open spec fn stepped_down(s: RaftView, term: u64, now_ms: u64) -> RaftView {
    RaftView {
        state: NodeState::Follower,
        voted_for: None,
        leader_id: None,
        current_term: term,
        last_heartbeat_ms: now_ms,
        ..s
    }
}

/// Whether an answer to a vote request counts: a vote granted in the
/// candidate's current term while it is still a candidate.
pub open spec fn vote_counts(s: RaftView, resp: RequestVoteResponse) -> bool {
    resp.vote_granted && resp.term == s.current_term && s.state == NodeState::Candidate
}

/// The node after a candidate receives an answer to its vote request at
/// `now_ms`: a higher term makes it step down; a vote that counts is added
/// and makes it leader once the votes reach a majority of the cluster.
pub open spec fn after_vote_response(s: RaftView, resp: RequestVoteResponse, now_ms: u64) -> RaftView {
    if resp.term > s.current_term {
        stepped_down(s, resp.term, now_ms)
    } else if vote_counts(s, resp) {
        let votes = (s.votes_received + 1) as u64;
        if votes as usize >= majority(s) {
            RaftView { votes_received: votes, state: NodeState::Leader, leader_id: Some(s.id), ..s }
        } else {
            RaftView { votes_received: votes, ..s }
        }
    } else {
        s
    }
}

/// Whether an answer to a vote request ends the election: the candidate
/// stepped down or became leader.
pub open spec fn vote_response_decides(s: RaftView, resp: RequestVoteResponse) -> bool {
    resp.term > s.current_term || (vote_counts(s, resp) && ((s.votes_received + 1) as u64) as usize
        >= majority(s))
}

/// Whether the election goes on after an answer to a vote request.
#[derive(Debug, Clone, Copy, PartialEq, Eq, Structural)]
pub enum ElectionProgress {
    /// Keep waiting for answers.
    Pending,
    /// Stop asking: the node stepped down or became leader.
    Decided,
}

/// The node once all answers to its vote requests are in without a
/// decision: a node that did not become leader goes back to following.
pub open spec fn after_election_ends(s: RaftView) -> RaftView {
    if s.state != NodeState::Leader {
        RaftView { state: NodeState::Follower, ..s }
    } else {
        s
    }
}

impl RaftNode {
    /// Whether an election timeout at `now_ms` starts an election.
    pub fn election_due(&self, now_ms: u64) -> (b: bool)
        ensures
            b == election_is_due(self@, now_ms),
    {
        let elapsed: u64 = if now_ms >= self.last_heartbeat_ms {
            now_ms - self.last_heartbeat_ms
        } else {
            0
        };
        match self.state {
            NodeState::Follower => elapsed > self.election_timeout_ms,
            _ => false,
        }
    }

    /// Stands for election at `now_ms` and returns the vote request to send
    /// to the other peers: the new term, the node's id, and its last log
    /// index and term. A node whose own vote is a majority becomes leader.
    pub fn start_election(&mut self, now_ms: u64) -> (r: RequestVoteRequest)
        requires
            old(self)@.current_term < u64::MAX,
        ensures
            final(self)@ == after_start_election(old(self)@, now_ms),
            r.term == final(self)@.current_term,
            r.candidate_id@ == old(self)@.id,
            r.last_log_index == last_log_index(old(self)@.log),
            r.last_log_term == last_log_term(old(self)@.log),
    {
        self.state = NodeState::Candidate;
        self.current_term = self.current_term + 1;
        self.votes_received = 1;
        self.voted_for = Some(self.id.clone());
        self.leader_id = None;
        self.last_heartbeat_ms = now_ms;
        let needed = self.peers.len() / 2 + 1;
        if 1 >= needed {
            self.become_leader();
        }
        RequestVoteRequest {
            term: self.current_term,
            candidate_id: self.id.clone(),
            last_log_index: self.get_last_log_index(),
            last_log_term: self.get_last_log_term(),
        }
    }

    /// Becomes a follower of `new_term` at `now_ms`, having voted for no one.
    fn step_down(&mut self, new_term: u64, now_ms: u64)
        ensures
            final(self)@ == stepped_down(old(self)@, new_term, now_ms),
    {
        self.state = NodeState::Follower;
        self.voted_for = None;
        self.leader_id = None;
        self.current_term = new_term;
        self.last_heartbeat_ms = now_ms;
    }

    /// Becomes leader.
    fn become_leader(&mut self)
        ensures
            final(self)@ == (RaftView {
                state: NodeState::Leader,
                leader_id: Some(old(self)@.id),
                ..old(self)@
            }),
    {
        self.state = NodeState::Leader;
        self.leader_id = Some(self.id.clone());
    }

    /// Takes in an answer to one of the node's vote requests at `now_ms`;
    /// see `after_vote_response`.
    pub fn handle_vote_response(&mut self, resp: RequestVoteResponse, now_ms: u64) -> (p:
        ElectionProgress)
        requires
            old(self)@.votes_received < u64::MAX,
        ensures
            final(self)@ == after_vote_response(old(self)@, resp, now_ms),
            p == (if vote_response_decides(old(self)@, resp) {
                ElectionProgress::Decided
            } else {
                ElectionProgress::Pending
            }),
            final(self)@.current_term >= old(self)@.current_term,
            final(self)@.state == NodeState::Leader && old(self)@.state != NodeState::Leader
                ==> final(self)@.votes_received as usize >= majority(old(self)@),
    {
        if resp.term > self.current_term {
            self.step_down(resp.term, now_ms);
            return ElectionProgress::Decided;
        }
        let candidate = match self.state {
            NodeState::Candidate => true,
            _ => false,
        };
        if resp.vote_granted && resp.term == self.current_term && candidate {
            self.votes_received = self.votes_received + 1;
            let needed = self.peers.len() / 2 + 1;
            if self.votes_received as usize >= needed {
                self.become_leader();
                return ElectionProgress::Decided;
            }
        }
        ElectionProgress::Pending
    }

    /// Ends an election whose answers are all in: a node that did not become
    /// leader goes back to following.
    pub fn finish_election(&mut self)
        ensures
            final(self)@ == after_election_ends(old(self)@),
    {
        match self.state {
            NodeState::Leader => {},
            _ => {
                self.state = NodeState::Follower;
            },
        }
    }
}

/// The address of the first peer with this id, if any.
pub open spec fn addr_of(peers: Seq<PeerView>, id: Seq<char>) -> Option<Seq<char>>
    decreases peers.len(),
{
    if peers.len() == 0 {
        None
    } else if peers[0].id == id {
        Some(peers[0].addr)
    } else {
        addr_of(peers.drop_first(), id)
    }
}

/// Where a client request goes.
pub enum Route {
    /// The node is the leader and serves it.
    Here,
    /// The node knows the leader at this address and passes it on.
    Forward(Seq<char>),
    /// The node cannot serve or pass it on; it names the leader it knows of,
    /// if any.
    Refuse(Option<Seq<char>>),
}

/// Where the node sends a client request.
pub open spec fn route(s: RaftView) -> Route {
    if s.state == NodeState::Leader {
        Route::Here
    } else {
        match s.leader_id {
            Some(l) => match addr_of(s.peers, l) {
                Some(a) => Route::Forward(a),
                None => Route::Refuse(Some(l)),
            },
            None => Route::Refuse(None),
        }
    }
}

/// The refusal a node gives where it is not the leader: "Not leader", with
/// the leader's id where it knows it.
pub open spec fn not_leader_error(e: RpcError, leader: Option<Seq<char>>) -> bool {
    &&& e.message@ == "Not leader"@
    &&& option_view(e.leader_id) == leader
    &&& e.leader_addr is None
}

/// What the node does next with a client request.
#[derive(Debug)]
pub enum ClientStep<R> {
    /// Answer the client with this reply.
    Respond(R),
    /// Pass the request on to the leader at this address and answer with
    /// its reply.
    Forward { leader_addr: String },
    /// Replicate the log entry at `index`, then finish the request.
    Replicate { index: u64 },
}

/// The node after a client's write of `command` reaches it: a leader appends
/// the command to its log, in its current term, at the next index.
pub open spec fn after_write_request(s: RaftView, command: CommandView) -> RaftView {
    if s.state == NodeState::Leader {
        RaftView {
            log: s.log.push(
                LogEntryView { term: s.current_term, idx: (s.log.len() + 1) as u64, command },
            ),
            ..s
        }
    } else {
        s
    }
}

/// The node after the replication of the entry at `index` has ended: where
/// it reached a majority, the node commits up to that entry.
pub open spec fn after_write_replicated(s: RaftView, index: u64, replicated: bool) -> RaftView {
    if replicated && index > s.commit_index {
        committed_through(s, index)
    } else {
        s
    }
}

/// What a client's read finds.
pub enum ReadOutcome {
    /// The key holds this value.
    Found(Seq<char>),
    /// The key holds nothing.
    Missing,
}

/// What a client's read of `key` finds in the node's store.
pub open spec fn read_outcome(s: RaftView, key: Seq<char>) -> ReadOutcome {
    if s.store.contains_key(key) {
        ReadOutcome::Found(s.store[key])
    } else {
        ReadOutcome::Missing
    }
}

/// Whether a reply to a read says what `outcome` says.
pub open spec fn get_reply_is(r: GetResponse, outcome: ReadOutcome) -> bool {
    match outcome {
        ReadOutcome::Found(v) => r.result matches Some(GetResult::Value(x)) && x@ == v,
        ReadOutcome::Missing => r.result matches Some(GetResult::NotFound),
    }
}

/// Whether a step routes a client request as `route` says, `here` being
/// what the step is where the node serves it.
pub open spec fn routes_as<R>(
    r: ClientStep<R>,
    route: Route,
    here: spec_fn(ClientStep<R>) -> bool,
    refused: spec_fn(R, Option<Seq<char>>) -> bool,
) -> bool {
    match route {
        Route::Here => here(r),
        Route::Forward(a) => r matches ClientStep::Forward { leader_addr } && leader_addr@ == a,
        Route::Refuse(l) => r matches ClientStep::Respond(resp) && refused(resp, l),
    }
}

/// Counts the members that hold a replicated entry, the leader included,
/// against the majority it needs.
#[derive(Debug, Clone, Copy)]
pub struct ReplicationTally {
    pub needed: usize,
    pub successes: usize,
}

impl ReplicationTally {
    /// Whether the members counted so far are a majority.
    pub fn reached(&self) -> (b: bool)
        ensures
            b == (self.successes >= self.needed),
    {
        self.successes >= self.needed
    }

    /// Records one more member that accepted the entry; true once the
    /// accepted count reaches the majority.
    pub fn record_success(&mut self) -> (reached: bool)
        requires
            old(self).successes < usize::MAX,
        ensures
            final(self).needed == old(self).needed,
            final(self).successes == old(self).successes + 1,
            reached == (final(self).successes >= final(self).needed),
    {
        self.successes = self.successes + 1;
        self.successes >= self.needed
    }
}

impl RaftNode {
    /// The address of the first peer with id `id`, if any.
    fn peer_addr(&self, id: &String) -> (r: Option<String>)
        ensures
            option_view(r) == addr_of(self@.peers, id@),
    {
        let ghost ps = peer_views(self.peers@);
        assert(ps.skip(0) =~= ps);
        let mut i: usize = 0;
        while i < self.peers.len()
            invariant
                i <= self.peers@.len(),
                ps == peer_views(self.peers@),
                addr_of(ps, id@) == addr_of(ps.skip(i as int), id@),
            decreases self.peers@.len() - i,
        {
            assert(ps.skip(i as int)[0] == self.peers@[i as int]@);
            if self.peers[i].id == *id {
                return Some(self.peers[i].addr.clone());
            }
            assert(ps.skip(i as int).drop_first() =~= ps.skip(i + 1));
            i = i + 1;
        }
        assert(ps.skip(i as int).len() == 0);
        None
    }

    /// Where a client request goes, for a node that is not the leader: the
    /// leader's address, or the refusal to give.
    fn redirect(&self) -> (r: Result<String, RpcError>)
        requires
            self@.state != NodeState::Leader,
        ensures
            match route(self@) {
                Route::Forward(a) => r matches Ok(x) && x@ == a,
                Route::Refuse(l) => r matches Err(e) && not_leader_error(e, l),
                Route::Here => false,
            },
    {
        match &self.leader_id {
            Some(l) => match self.peer_addr(l) {
                Some(a) => Ok(a),
                None => Err(
                    RpcError {
                        message: "Not leader".to_owned(),
                        leader_id: Some(l.clone()),
                        leader_addr: None,
                    },
                ),
            },
            None => Err(
                RpcError { message: "Not leader".to_owned(), leader_id: None, leader_addr: None },
            ),
        }
    }

    /// Appends `command` to a leader's log at the next index.
    fn append_command(&mut self, command: Command) -> (index: u64)
        requires
            old(self)@.state == NodeState::Leader,
            old(self)@.log.len() < u64::MAX,
        ensures
            final(self)@ == after_write_request(old(self)@, command@),
            index == old(self)@.log.len() + 1,
    {
        let idx = self.log.len() as u64 + 1;
        let entry = LogEntry { term: self.current_term, idx, command };
        let ghost before = self.log@;
        self.log.push(entry);
        assert(entry_views(self.log@) =~= entry_views(before).push(entry@));
        idx
    }

    /// A client's write of `value` under `key`. The leader appends it to its
    /// log and asks for the entry to be replicated; another node passes it on
    /// to the leader it knows, or refuses it.
    pub fn handle_set_request(&mut self, key: &str, value: &str) -> (r: ClientStep<SetResponse>)
        requires
            old(self)@.log.len() < u64::MAX,
        ensures
            final(self)@ == after_write_request(
                old(self)@,
                CommandView::Put { key: key@, value: value@ },
            ),
            routes_as(
                r,
                route(old(self)@),
                |x: ClientStep<SetResponse>|
                    x == ClientStep::<SetResponse>::Replicate {
                        index: (old(self)@.log.len() + 1) as u64,
                    },
                |resp: SetResponse, l: Option<Seq<char>>|
                    resp.result matches Some(SetResult::Error(e)) && not_leader_error(e, l),
            ),
    {
        match self.state {
            NodeState::Leader => {
                let index = self.append_command(
                    Command::Put { key: key.to_owned(), value: value.to_owned() },
                );
                ClientStep::Replicate { index }
            },
            _ => match self.redirect() {
                Ok(leader_addr) => ClientStep::Forward { leader_addr },
                Err(e) => ClientStep::Respond(SetResponse { result: Some(SetResult::Error(e)) }),
            },
        }
    }

    /// A client's delete of `key`. The leader appends it to its log and asks
    /// for the entry to be replicated; another node passes it on to the
    /// leader it knows, or refuses it.
    pub fn handle_delete_request(&mut self, key: &str) -> (r: ClientStep<DeleteResponse>)
        requires
            old(self)@.log.len() < u64::MAX,
        ensures
            final(self)@ == after_write_request(old(self)@, CommandView::Delete { key: key@ }),
            routes_as(
                r,
                route(old(self)@),
                |x: ClientStep<DeleteResponse>|
                    x == ClientStep::<DeleteResponse>::Replicate {
                        index: (old(self)@.log.len() + 1) as u64,
                    },
                |resp: DeleteResponse, l: Option<Seq<char>>|
                    resp.result matches Some(DeleteResult::Error(e)) && not_leader_error(e, l),
            ),
    {
        match self.state {
            NodeState::Leader => {
                let index = self.append_command(Command::Delete { key: key.to_owned() });
                ClientStep::Replicate { index }
            },
            _ => match self.redirect() {
                Ok(leader_addr) => ClientStep::Forward { leader_addr },
                Err(e) => ClientStep::Respond(
                    DeleteResponse { result: Some(DeleteResult::Error(e)) },
                ),
            },
        }
    }

    /// A client's read of `key`. The leader answers from its store; another
    /// node passes it on to the leader it knows, or refuses it.
    pub fn handle_get_request(&self, key: &str) -> (r: ClientStep<GetResponse>)
        ensures
            routes_as(
                r,
                route(self@),
                |x: ClientStep<GetResponse>|
                    x matches ClientStep::Respond(resp) && get_reply_is(
                        resp,
                        read_outcome(self@, key@),
                    ),
                |resp: GetResponse, l: Option<Seq<char>>|
                    resp.result matches Some(GetResult::Error(e)) && not_leader_error(e, l),
            ),
    {
        match self.state {
            NodeState::Leader => {
                let result = match self.store.get(key) {
                    Some(value) => GetResult::Value(value),
                    None => GetResult::NotFound,
                };
                ClientStep::Respond(GetResponse { result: Some(result) })
            },
            _ => match self.redirect() {
                Ok(leader_addr) => ClientStep::Forward { leader_addr },
                Err(e) => ClientStep::Respond(GetResponse { result: Some(GetResult::Error(e)) }),
            },
        }
    }

    /// The request that replicates the entry at `index` (counted from 1):
    /// the node's term and id, the index and term of the entry just before
    /// it (0 and 0 for the first), that one entry, and the commit index.
    pub fn replication_request(&self, index: u64) -> (r: AppendEntriesRequest)
        requires
            1 <= index <= self@.log.len(),
        ensures
            r.term == self@.current_term,
            r.leader_id@ == self@.id,
            r.prev_log_index == index - 1,
            r.prev_log_term == (if index >= 2 {
                self@.log[index - 2].term
            } else {
                0
            }),
            r.entries@.len() == 1,
            r.entries@[0].term == self@.log[index - 1].term,
            r.entries@[0].index == self@.log[index - 1].idx,
            r.entries@[0].command@ == command_bytes(self@.log[index - 1].command),
            r.leader_commit == self@.commit_index,
    {
        let n = self.log.len();
        assert(self@.log.len() == n);
        let pos: usize = (index - 1) as usize;
        assert(pos == index - 1);
        assert(self@.log[pos as int] == self.log@[pos as int]@);
        let prev_log_term = if pos >= 1 {
            assert(self@.log[pos - 1] == self.log@[pos - 1]@);
            self.log[pos - 1].term
        } else {
            0
        };
        let entry = self.log[pos].to_wire();
        let mut entries: Vec<WireEntry> = Vec::new();
        entries.push(entry);
        AppendEntriesRequest {
            term: self.current_term,
            leader_id: self.id.clone(),
            prev_log_index: index - 1,
            prev_log_term,
            entries,
            leader_commit: self.commit_index,
        }
    }

    /// A fresh count for replicating an entry: the leader holds it already,
    /// and a majority of the configured cluster is needed.
    pub fn replication_tally(&self) -> (t: ReplicationTally)
        ensures
            t.successes == 1,
            t.needed == majority(self@),
    {
        ReplicationTally { needed: self.peers.len() / 2 + 1, successes: 1 }
    }

    /// Ends the node's part in a write whose entry at `index` has been
    /// replicated, or not: where it reached a majority, the node commits up
    /// to that entry.
    fn finish_write(&mut self, index: u64, replicated: bool)
        requires
            index <= old(self)@.log.len(),
        ensures
            final(self)@ == after_write_replicated(old(self)@, index, replicated),
    {
        if replicated && index > self.commit_index {
            self.commit_through(index);
        }
    }

    /// Ends a client's write once the replication of its entry at `index`
    /// has ended. Where it reached a majority, the node commits up to the
    /// entry and the client hears of success; otherwise the client hears that
    /// replication failed.
    pub fn finish_set_request(&mut self, index: u64, replicated: bool) -> (r: SetResponse)
        requires
            index <= old(self)@.log.len(),
        ensures
            final(self)@ == after_write_replicated(old(self)@, index, replicated),
            replicated ==> r.result == Some(SetResult::Success),
            !replicated ==> (r.result matches Some(SetResult::Error(e)) && plain_error(
                e,
                "Replication failed: Failed to achieve majority"@,
            )),
    {
        self.finish_write(index, replicated);
        if replicated {
            SetResponse { result: Some(SetResult::Success) }
        } else {
            SetResponse {
                result: Some(
                    SetResult::Error(
                        error_without_leader("Replication failed: Failed to achieve majority"),
                    ),
                ),
            }
        }
    }

    /// Ends a client's delete once the replication of its entry at `index`
    /// has ended, as `finish_set_request` does for a write.
    pub fn finish_delete_request(&mut self, index: u64, replicated: bool) -> (r: DeleteResponse)
        requires
            index <= old(self)@.log.len(),
        ensures
            final(self)@ == after_write_replicated(old(self)@, index, replicated),
            replicated ==> r.result == Some(DeleteResult::Success),
            !replicated ==> (r.result matches Some(DeleteResult::Error(e)) && plain_error(
                e,
                "Replication failed: Failed to achieve majority"@,
            )),
    {
        self.finish_write(index, replicated);
        if replicated {
            DeleteResponse { result: Some(DeleteResult::Success) }
        } else {
            DeleteResponse {
                result: Some(
                    DeleteResult::Error(
                        error_without_leader("Replication failed: Failed to achieve majority"),
                    ),
                ),
            }
        }
    }
}

impl RaftNode {
    /// The node's role.
    pub fn state(&self) -> (r: NodeState)
        ensures
            r == self@.state,
    {
        self.state
    }

    /// The node's current term.
    pub fn current_term(&self) -> (r: u64)
        ensures
            r == self@.current_term,
    {
        self.current_term
    }

    /// The index of the last committed entry.
    pub fn commit_index(&self) -> (r: u64)
        ensures
            r == self@.commit_index,
    {
        self.commit_index
    }

    /// The votes counted in the node's elections so far.
    pub fn votes_received(&self) -> (r: u64)
        ensures
            r == self@.votes_received,
    {
        self.votes_received
    }

    /// The candidate the node voted for in its current term, if any.
    pub fn voted_for(&self) -> (r: Option<&String>)
        ensures
            r is Some <==> self@.voted_for is Some,
            r matches Some(c) ==> self@.voted_for == Some(c@),
    {
        self.voted_for.as_ref()
    }

    /// The leader the node follows in its current term, if it knows one.
    pub fn leader_id(&self) -> (r: Option<&String>)
        ensures
            r is Some <==> self@.leader_id is Some,
            r matches Some(c) ==> self@.leader_id == Some(c@),
    {
        self.leader_id.as_ref()
    }

    /// The node's id.
    pub fn id(&self) -> (r: &String)
        ensures
            r@ == self@.id,
    {
        &self.id
    }

    /// The address the node listens on.
    pub fn addr(&self) -> (r: &String)
        ensures
            r@ == self@.addr,
    {
        &self.addr
    }

    /// When, on the node's clock, it last heard from a leader or granted a
    /// vote.
    pub fn last_heartbeat_ms(&self) -> (r: u64)
        ensures
            r == self@.last_heartbeat_ms,
    {
        self.last_heartbeat_ms
    }

    /// How long the node waits without contact before it stands for election.
    pub fn election_timeout_ms(&self) -> (r: u64)
        ensures
            r == self@.election_timeout_ms,
    {
        self.election_timeout_ms
    }

    /// The node's log.
    pub fn log(&self) -> (r: &Vec<LogEntry>)
        ensures
            entry_views(r@) == self@.log,
    {
        &self.log
    }
}

} // verus!
