use flotilla::codec::encode_command;
use flotilla::messages::{
    AppendEntriesRequest, AppendEntriesResponse, DeleteResult, GetResult, RequestVoteRequest,
    RequestVoteResponse, SetResult, WireEntry,
};
use flotilla::raft::{
    ClientStep, ElectionProgress, Peer, RaftNode, RaftNodeConfig, TimerAction,
    ELECTION_TIMEOUT_MAX_MS, ELECTION_TIMEOUT_MIN_MS, HEARTBEAT_INTERVAL_MS,
};
use flotilla::state::{Command, LogEntry, NodeState};

fn peer(id: &str, addr: &str) -> Peer {
    Peer { id: id.to_string(), addr: addr.to_string() }
}

fn three_node_cluster() -> Vec<Peer> {
    vec![peer("1", "127.0.0.1:5001"), peer("2", "127.0.0.1:5002"), peer("3", "127.0.0.1:5003")]
}

fn node_one() -> RaftNode {
    RaftNode::new(RaftNodeConfig::new(
        "1".to_string(),
        "127.0.0.1:5001".to_string(),
        three_node_cluster(),
    ))
}

fn vote_request(term: u64, candidate: &str) -> RequestVoteRequest {
    RequestVoteRequest { term, candidate_id: candidate.to_string(), last_log_index: 0, last_log_term: 0 }
}

fn wire_put(term: u64, index: u64, key: &str, value: &str) -> WireEntry {
    WireEntry {
        term,
        index,
        command: encode_command(&Command::Put { key: key.to_string(), value: value.to_string() }),
    }
}

fn append(term: u64, prev_index: u64, prev_term: u64, entries: Vec<WireEntry>) -> AppendEntriesRequest {
    append_committing(term, prev_index, prev_term, entries, 0)
}

fn append_committing(
    term: u64,
    prev_index: u64,
    prev_term: u64,
    entries: Vec<WireEntry>,
    leader_commit: u64,
) -> AppendEntriesRequest {
    AppendEntriesRequest {
        term,
        leader_id: "2".to_string(),
        prev_log_index: prev_index,
        prev_log_term: prev_term,
        entries,
        leader_commit,
    }
}

fn wire_delete(term: u64, index: u64, key: &str) -> WireEntry {
    WireEntry { term, index, command: encode_command(&Command::Delete { key: key.to_string() }) }
}

fn five_node_one() -> RaftNode {
    let peers = (1..=5).map(|i| peer(&i.to_string(), &format!("127.0.0.1:500{}", i))).collect();
    RaftNode::new(RaftNodeConfig::new("1".to_string(), "127.0.0.1:5001".to_string(), peers))
}

fn replicate_index(step: ClientStep<impl std::fmt::Debug>) -> u64 {
    match step {
        ClientStep::Replicate { index } => index,
        other => panic!("unexpected {:?}", other),
    }
}

fn leader() -> RaftNode {
    let mut n = node_one();
    n.start_election(10);
    let p = n.handle_vote_response(RequestVoteResponse { term: 1, vote_granted: true }, 11);
    assert_eq!(p, ElectionProgress::Decided);
    assert_eq!(n.state(), NodeState::Leader);
    n
}

fn put_key(e: &LogEntry) -> (String, String) {
    match &e.command {
        Command::Put { key, value } => (key.clone(), value.clone()),
        other => panic!("unexpected {:?}", other),
    }
}

#[test]
fn new_node_is_a_fresh_follower() {
    let n = node_one();
    assert_eq!(n.state(), NodeState::Follower);
    assert_eq!(n.current_term(), 0);
    assert_eq!(n.commit_index(), 0);
    assert_eq!(n.votes_received(), 0);
    assert_eq!(n.voted_for(), None);
    assert!(n.log().is_empty());
    assert_eq!(n.last_heartbeat_ms(), 0);
    let t = n.election_timeout_ms();
    assert!(ELECTION_TIMEOUT_MIN_MS <= t && t <= ELECTION_TIMEOUT_MAX_MS);
    assert_eq!(n.get_last_log_index(), 0);
    assert_eq!(n.get_last_log_term(), 0);
}

#[test]
fn follower_watches_for_election_timeout() {
    let n = node_one();
    assert_eq!(n.timer_action(), TimerAction::ElectionTimeout { interval_ms: n.election_timeout_ms() });
}

#[test]
fn leader_sends_heartbeats() {
    let n = leader();
    assert_eq!(n.timer_action(), TimerAction::LeaderHeartbeat { interval_ms: HEARTBEAT_INTERVAL_MS });
    let hb = n.heartbeat_request();
    assert_eq!(hb.term, 1);
    assert_eq!(hb.leader_id, "1");
    assert_eq!(hb.prev_log_index, 0);
    assert!(hb.entries.is_empty());
    assert_eq!(hb.leader_commit, n.commit_index());
}

#[test]
fn peers_other_than_self() {
    let n = node_one();
    assert_eq!(n.peer_addrs_except_own(), vec!["127.0.0.1:5002".to_string(), "127.0.0.1:5003".to_string()]);
    assert_eq!(n.peer_addrs_except_own_id(), vec!["127.0.0.1:5002".to_string(), "127.0.0.1:5003".to_string()]);
}

#[test]
fn test_request_vote() {
    let mut n = node_one();
    let r = n.handle_vote_request(
        RequestVoteRequest { term: 1, candidate_id: 2.to_string(), last_log_index: 1, last_log_term: 0 },
        0,
    );
    assert_eq!(r, RequestVoteResponse { term: 0, vote_granted: false });
    assert_eq!(n.current_term(), 0);
    assert_eq!(n.voted_for(), None);
}

#[test]
fn my_test() {
    assert!(true);
}

#[test]
fn vote_granted_to_first_candidate() {
    let mut n = node_one();
    let r = n.handle_vote_request(vote_request(1, "2"), 40);
    assert!(r.vote_granted);
    assert_eq!(r.term, 1);
    assert_eq!(n.current_term(), 1);
    assert_eq!(n.voted_for(), Some(&"2".to_string()));
    assert_eq!(n.last_heartbeat_ms(), 40);
}

#[test]
fn second_vote_in_same_term_refused() {
    let mut n = node_one();
    n.handle_vote_request(vote_request(1, "2"), 40);
    let r = n.handle_vote_request(vote_request(1, "3"), 50);
    assert!(!r.vote_granted);
    assert_eq!(r.term, 1);
    assert_eq!(n.voted_for(), Some(&"2".to_string()));
    assert_eq!(n.last_heartbeat_ms(), 40);
}

#[test]
fn same_candidate_may_ask_again() {
    let mut n = node_one();
    n.handle_vote_request(vote_request(1, "2"), 40);
    let r = n.handle_vote_request(vote_request(1, "2"), 50);
    assert!(r.vote_granted);
    assert_eq!(n.last_heartbeat_ms(), 50);
}

#[test]
fn higher_term_vote_request_demotes_leader() {
    let mut n = leader();
    let r = n.handle_vote_request(vote_request(5, "3"), 70);
    assert!(r.vote_granted);
    assert_eq!(r.term, 5);
    assert_eq!(n.state(), NodeState::Follower);
    assert_eq!(n.voted_for(), Some(&"3".to_string()));
}

#[test]
fn older_term_vote_request_is_refused() {
    let mut n = node_one();
    n.handle_vote_request(vote_request(4, "2"), 1);
    let r = n.handle_vote_request(vote_request(3, "3"), 2);
    assert_eq!(r, RequestVoteResponse { term: 4, vote_granted: false });
    assert_eq!(n.current_term(), 4);
    assert_eq!(n.voted_for(), Some(&"2".to_string()));
    assert_eq!(n.last_heartbeat_ms(), 1);
}

#[test]
fn candidate_with_stale_log_is_refused_but_term_is_taken_up() {
    let mut n = node_one();
    n.handle_append_entries(append(1, 0, 0, vec![wire_put(1, 1, "a", "1")]), 5);
    let r = n.handle_vote_request(vote_request(2, "3"), 9);
    assert_eq!(r, RequestVoteResponse { term: 2, vote_granted: false });
    assert_eq!(n.current_term(), 2);
    assert_eq!(n.voted_for(), None);
    let r = n.handle_vote_request(
        RequestVoteRequest { term: 2, candidate_id: "3".to_string(), last_log_index: 1, last_log_term: 1 },
        10,
    );
    assert!(r.vote_granted);
}

#[test]
fn heartbeat_is_accepted_and_followed() {
    let mut n = node_one();
    let r = n.handle_append_entries(append(2, 0, 0, vec![]), 90);
    assert!(r.success);
    assert_eq!(r.term, 2);
    assert_eq!(n.last_heartbeat_ms(), 90);
    assert_eq!(n.leader_id(), Some(&"2".to_string()));
}

#[test]
fn stale_heartbeat_is_refused() {
    let mut n = node_one();
    n.handle_append_entries(append(2, 0, 0, vec![]), 90);
    let r = n.handle_append_entries(append(1, 0, 0, vec![]), 95);
    assert_eq!(r, AppendEntriesResponse { term: 2, success: false });
    assert_eq!(n.current_term(), 2);
    assert_eq!(n.last_heartbeat_ms(), 90);
}

#[test]
fn heartbeat_demotes_candidate_of_same_term() {
    let mut n = node_one();
    n.start_election(0);
    let r = n.handle_append_entries(append(1, 0, 0, vec![]), 3);
    assert!(r.success);
    assert_eq!(n.state(), NodeState::Follower);
    assert_eq!(n.voted_for(), Some(&"1".to_string()));
}

#[test]
fn entries_from_index_zero_are_appended() {
    let mut n = node_one();
    let r = n.handle_append_entries(append(1, 0, 0, vec![wire_put(1, 1, "a", "1")]), 5);
    assert!(r.success);
    assert_eq!(r.term, 1);
    assert_eq!(n.log().len(), 1);
    assert_eq!(n.log()[0].term, 1);
    assert_eq!(put_key(&n.log()[0]), ("a".to_string(), "1".to_string()));
    assert_eq!(n.last_heartbeat_ms(), 5);
}

#[test]
fn entries_after_matching_entry_are_accepted() {
    let mut n = node_one();
    n.handle_append_entries(append(1, 0, 0, vec![wire_put(1, 1, "a", "1")]), 5);
    let r = n.handle_append_entries(append(1, 1, 1, vec![wire_put(1, 2, "b", "2")]), 6);
    assert!(r.success);
    assert_eq!(n.log().len(), 2);
    assert_eq!(n.get_last_log_index(), 2);
    assert_eq!(put_key(&n.log()[1]), ("b".to_string(), "2".to_string()));
}

#[test]
fn entries_after_mismatched_term_are_refused() {
    let mut n = node_one();
    n.handle_append_entries(append(1, 0, 0, vec![wire_put(1, 1, "a", "1")]), 5);
    let r = n.handle_append_entries(append(2, 1, 7, vec![wire_put(2, 2, "b", "2")]), 6);
    assert!(!r.success);
    assert_eq!(r.term, 2);
    assert_eq!(n.log().len(), 1);
}

#[test]
fn entries_go_to_consecutive_positions() {
    let mut n = node_one();
    let r = n.handle_append_entries(
        append(1, 0, 0, vec![wire_put(1, 1, "a", "1"), wire_put(1, 2, "b", "2"), wire_put(1, 3, "c", "3")]),
        5,
    );
    assert!(r.success);
    assert_eq!(n.log().len(), 3);
    assert_eq!(n.log()[0].idx, 1);
    assert_eq!(n.log()[1].idx, 2);
    assert_eq!(put_key(&n.log()[2]), ("c".to_string(), "3".to_string()));
}

#[test]
fn conflicting_entry_replaces_its_successors() {
    let mut n = node_one();
    n.handle_append_entries(append(1, 0, 0, vec![wire_delete(1, 1, "a")]), 1);
    n.handle_append_entries(append(1, 1, 1, vec![wire_delete(1, 2, "a")]), 2);
    assert_eq!(n.log().len(), 2);
    let r = n.handle_append_entries(append(2, 0, 0, vec![wire_delete(2, 1, "a")]), 3);
    assert_eq!(r, AppendEntriesResponse { term: 2, success: true });
    assert_eq!(n.current_term(), 2);
    assert_eq!(n.log().len(), 1);
    assert_eq!(n.log()[0].term, 2);
    assert_eq!(n.log()[0].idx, 1);
}

#[test]
fn repeated_entries_are_kept() {
    let mut n = node_one();
    n.handle_append_entries(append(1, 0, 0, vec![wire_put(1, 1, "a", "1"), wire_put(1, 2, "b", "2")]), 1);
    let r = n.handle_append_entries(append(1, 0, 0, vec![wire_put(1, 1, "a", "1")]), 2);
    assert!(r.success);
    assert_eq!(n.log().len(), 2);
}

#[test]
fn follower_commits_and_applies() {
    let mut n = node_one();
    n.handle_append_entries(
        append_committing(1, 0, 0, vec![wire_put(1, 1, "a", "1"), wire_put(1, 2, "b", "2")], 5),
        1,
    );
    assert_eq!(n.commit_index(), 2);
    n.handle_append_entries(append_committing(1, 2, 1, vec![wire_delete(1, 3, "a")], 3), 2);
    assert_eq!(n.commit_index(), 3);
    n.start_election(10);
    n.handle_vote_response(RequestVoteResponse { term: 2, vote_granted: true }, 11);
    assert_eq!(n.state(), NodeState::Leader);
    match n.handle_get_request("a") {
        ClientStep::Respond(r) => assert_eq!(r.result, Some(GetResult::NotFound)),
        other => panic!("unexpected {:?}", other),
    }
    match n.handle_get_request("b") {
        ClientStep::Respond(r) => assert_eq!(r.result, Some(GetResult::Value("2".to_string()))),
        other => panic!("unexpected {:?}", other),
    }
}

#[test]
fn follower_commits_no_further_than_sent_entries() {
    let mut n = node_one();
    n.handle_append_entries(append_committing(1, 0, 0, vec![wire_put(1, 1, "a", "1")], 9), 1);
    assert_eq!(n.commit_index(), 1);
}

#[test]
fn undecodable_accepted_entries_are_not_handled() {
    let mut n = node_one();
    let bad = WireEntry { term: 1, index: 1, command: vec![9u8] };
    assert_eq!(n.receive_append_entries(append(1, 0, 0, vec![bad]), 5), None);
    assert_eq!(n.current_term(), 0);
    assert!(n.log().is_empty());
}

#[test]
fn oversized_length_prefix_is_not_handled() {
    let mut n = node_one();
    let mut bytes = vec![1u8, 253];
    bytes.extend_from_slice(&[255u8; 8]);
    let bad = WireEntry { term: 1, index: 1, command: bytes };
    assert_eq!(n.receive_append_entries(append(1, 0, 0, vec![bad]), 5), None);
}

#[test]
fn undecodable_refused_entries_are_answered() {
    let mut n = node_one();
    let bad = WireEntry { term: 1, index: 1, command: vec![9u8] };
    let r = n.receive_append_entries(append(1, 3, 1, vec![bad]), 5).unwrap();
    assert!(!r.success);
    assert_eq!(n.current_term(), 1);
}

#[test]
fn stale_entries_from_index_zero_are_refused() {
    let mut n = node_one();
    n.handle_vote_request(vote_request(3, "2"), 1);
    let r = n.receive_append_entries(append(2, 0, 0, vec![wire_put(2, 1, "a", "1")]), 5);
    assert_eq!(r, Some(AppendEntriesResponse { term: 3, success: false }));
    assert_eq!(n.current_term(), 3);
    assert!(n.log().is_empty());
}

#[test]
fn received_heartbeat_is_answered() {
    let mut n = node_one();
    let r = n.receive_append_entries(append(1, 0, 0, vec![]), 5).unwrap();
    assert!(r.success);
    assert_eq!(n.last_heartbeat_ms(), 5);
}

#[test]
fn election_due_only_after_timeout() {
    let n = node_one();
    let t = n.election_timeout_ms();
    assert!(!n.election_due(t));
    assert!(n.election_due(t + 1));
}

#[test]
fn candidate_not_due_for_election() {
    let mut n = node_one();
    n.start_election(0);
    assert!(!n.election_due(10_000));
}

#[test]
fn start_election_votes_for_self() {
    let mut n = node_one();
    let req = n.start_election(33);
    assert_eq!(n.state(), NodeState::Candidate);
    assert_eq!(n.current_term(), 1);
    assert_eq!(n.votes_received(), 1);
    assert_eq!(n.voted_for(), Some(&"1".to_string()));
    assert_eq!(n.last_heartbeat_ms(), 33);
    assert_eq!(req.term, 1);
    assert_eq!(req.candidate_id, "1");
    assert_eq!(req.last_log_index, 0);
    assert_eq!(req.last_log_term, 0);
}

#[test]
fn single_member_elects_itself() {
    let mut n = RaftNode::new(RaftNodeConfig::new(
        "1".to_string(),
        "127.0.0.1:5001".to_string(),
        vec![peer("1", "127.0.0.1:5001")],
    ));
    n.start_election(0);
    assert_eq!(n.state(), NodeState::Leader);
    assert_eq!(n.current_term(), 1);
    assert_eq!(n.voted_for(), Some(&"1".to_string()));
}

#[test]
fn votes_do_not_carry_over_between_elections() {
    let mut n = five_node_one();
    n.start_election(0);
    for _ in 0..4 {
        n.handle_vote_response(RequestVoteResponse { term: 1, vote_granted: false }, 1);
    }
    n.finish_election();
    assert_eq!(n.state(), NodeState::Follower);
    n.start_election(2);
    let p = n.handle_vote_response(RequestVoteResponse { term: 2, vote_granted: true }, 3);
    assert_eq!(p, ElectionProgress::Pending);
    for _ in 0..3 {
        n.handle_vote_response(RequestVoteResponse { term: 2, vote_granted: false }, 4);
    }
    n.finish_election();
    assert_eq!(n.current_term(), 2);
    assert_eq!(n.state(), NodeState::Follower);
}

#[test]
fn stale_grant_is_not_counted() {
    let mut n = node_one();
    n.start_election(0);
    n.finish_election();
    n.start_election(1);
    let p = n.handle_vote_response(RequestVoteResponse { term: 1, vote_granted: true }, 2);
    assert_eq!(p, ElectionProgress::Pending);
    assert_eq!(n.votes_received(), 1);
    assert_eq!(n.state(), NodeState::Candidate);
}

#[test]
fn refused_vote_keeps_election_pending() {
    let mut n = node_one();
    n.start_election(0);
    let p = n.handle_vote_response(RequestVoteResponse { term: 1, vote_granted: false }, 1);
    assert_eq!(p, ElectionProgress::Pending);
    assert_eq!(n.state(), NodeState::Candidate);
    n.finish_election();
    assert_eq!(n.state(), NodeState::Follower);
}

#[test]
fn higher_term_answer_makes_candidate_step_down() {
    let mut n = node_one();
    n.start_election(0);
    let p = n.handle_vote_response(RequestVoteResponse { term: 9, vote_granted: false }, 8);
    assert_eq!(p, ElectionProgress::Decided);
    assert_eq!(n.state(), NodeState::Follower);
    assert_eq!(n.current_term(), 9);
    assert_eq!(n.voted_for(), None);
    assert_eq!(n.last_heartbeat_ms(), 8);
}

#[test]
fn majority_of_votes_makes_leader() {
    let mut n = leader();
    assert_eq!(n.votes_received(), 2);
    assert_eq!(n.leader_id(), Some(&"1".to_string()));
    n.finish_election();
    assert_eq!(n.state(), NodeState::Leader);
}

#[test]
fn node_without_leader_refuses_client_requests() {
    let mut n = node_one();
    match n.handle_set_request("k", "v") {
        ClientStep::Respond(r) => match r.result {
            Some(SetResult::Error(e)) => {
                assert_eq!(e.message, "Not leader");
                assert_eq!(e.leader_id, None);
                assert_eq!(e.leader_addr, None);
            }
            other => panic!("unexpected {:?}", other),
        },
        other => panic!("unexpected {:?}", other),
    }
    assert!(n.log().is_empty());
    match n.handle_get_request("k") {
        ClientStep::Respond(r) => match r.result {
            Some(GetResult::Error(e)) => assert_eq!(e.message, "Not leader"),
            other => panic!("unexpected {:?}", other),
        },
        other => panic!("unexpected {:?}", other),
    }
    match n.handle_delete_request("k") {
        ClientStep::Respond(r) => match r.result {
            Some(DeleteResult::Error(e)) => assert_eq!(e.message, "Not leader"),
            other => panic!("unexpected {:?}", other),
        },
        other => panic!("unexpected {:?}", other),
    }
}

#[test]
fn follower_forwards_to_known_leader() {
    let mut n = node_one();
    n.handle_append_entries(append(1, 0, 0, vec![]), 1);
    match n.handle_set_request("k", "v") {
        ClientStep::Forward { leader_addr } => assert_eq!(leader_addr, "127.0.0.1:5002"),
        other => panic!("unexpected {:?}", other),
    }
    assert!(n.log().is_empty());
    match n.handle_get_request("k") {
        ClientStep::Forward { leader_addr } => assert_eq!(leader_addr, "127.0.0.1:5002"),
        other => panic!("unexpected {:?}", other),
    }
}

#[test]
fn unknown_leader_is_named_in_refusal() {
    let mut n = node_one();
    let mut req = append(1, 0, 0, vec![]);
    req.leader_id = "9".to_string();
    n.handle_append_entries(req, 1);
    match n.handle_set_request("k", "v") {
        ClientStep::Respond(r) => match r.result {
            Some(SetResult::Error(e)) => {
                assert_eq!(e.message, "Not leader");
                assert_eq!(e.leader_id, Some("9".to_string()));
            }
            other => panic!("unexpected {:?}", other),
        },
        other => panic!("unexpected {:?}", other),
    }
}

#[test]
fn leader_write_then_read() {
    let mut n = leader();
    let index = replicate_index(n.handle_set_request("hello", "world"));
    assert_eq!(index, 1);
    assert_eq!(n.log().len(), 1);
    assert_eq!(n.log()[0].term, 1);
    assert_eq!(n.log()[0].idx, 1);
    let req = n.replication_request(index);
    assert_eq!(req.term, 1);
    assert_eq!(req.leader_id, "1");
    assert_eq!(req.prev_log_index, 0);
    assert_eq!(req.prev_log_term, 0);
    assert_eq!(req.entries.len(), 1);
    assert_eq!(req.entries[0].index, 1);
    assert_eq!(req.entries[0].command, encode_command(&Command::Put { key: "hello".to_string(), value: "world".to_string() }));
    assert_eq!(req.leader_commit, 0);
    let mut tally = n.replication_tally();
    assert_eq!(tally.needed, 2);
    assert!(!tally.reached());
    assert!(tally.record_success());
    let r = n.finish_set_request(index, true);
    assert_eq!(r.result, Some(SetResult::Success));
    assert_eq!(n.commit_index(), 1);
    match n.handle_get_request("hello") {
        ClientStep::Respond(r) => assert_eq!(r.result, Some(GetResult::Value("world".to_string()))),
        other => panic!("unexpected {:?}", other),
    }
    match n.handle_get_request("other") {
        ClientStep::Respond(r) => assert_eq!(r.result, Some(GetResult::NotFound)),
        other => panic!("unexpected {:?}", other),
    }
    let index = replicate_index(n.handle_set_request("second", "x"));
    let req = n.replication_request(index);
    assert_eq!(req.prev_log_index, 1);
    assert_eq!(req.prev_log_term, 1);
    assert_eq!(req.leader_commit, 1);
}

#[test]
fn leader_delete_removes_key() {
    let mut n = leader();
    let index = replicate_index(n.handle_set_request("k", "v"));
    n.finish_set_request(index, true);
    let index = replicate_index(n.handle_delete_request("k"));
    assert_eq!(index, 2);
    let r = n.finish_delete_request(index, true);
    assert_eq!(r.result, Some(DeleteResult::Success));
    assert_eq!(n.commit_index(), 2);
    match n.handle_get_request("k") {
        ClientStep::Respond(r) => assert_eq!(r.result, Some(GetResult::NotFound)),
        other => panic!("unexpected {:?}", other),
    }
}

#[test]
fn failed_replication_is_reported() {
    let mut n = leader();
    let index = replicate_index(n.handle_set_request("k", "v"));
    let r = n.finish_set_request(index, false);
    match r.result {
        Some(SetResult::Error(e)) => assert_eq!(e.message, "Replication failed: Failed to achieve majority"),
        other => panic!("unexpected {:?}", other),
    }
    assert_eq!(n.commit_index(), 0);
    match n.handle_get_request("k") {
        ClientStep::Respond(r) => assert_eq!(r.result, Some(GetResult::NotFound)),
        other => panic!("unexpected {:?}", other),
    }
    assert_eq!(n.log().len(), 1);
    let r = n.finish_delete_request(index, false);
    assert!(matches!(r.result, Some(DeleteResult::Error(_))));
}

#[test]
fn single_member_tally_is_reached_at_once() {
    let n = RaftNode::new(RaftNodeConfig::new("1".to_string(), "a".to_string(), vec![peer("1", "a")]));
    let tally = n.replication_tally();
    assert_eq!(tally.needed, 1);
    assert_eq!(tally.successes, 1);
    assert!(tally.reached());
}

#[test]
fn heartbeat_or_vote_defers_election() {
    let mut n = node_one();
    let t = n.election_timeout_ms();
    n.handle_append_entries(append(1, 0, 0, vec![]), t + 50);
    assert!(!n.election_due(t + 50));
    assert!(n.election_due(2 * t + 51));
    n.handle_vote_request(vote_request(2, "3"), 5 * t);
    assert!(!n.election_due(5 * t));
}

#[test]
fn majorities_of_three_overlap() {
    let n = node_one();
    let tally = n.replication_tally();
    assert!(2 * tally.needed > 3);
}

#[test]
fn config_for_member_finds_its_address() {
    let c = RaftNodeConfig::for_member("2".to_string(), three_node_cluster()).unwrap();
    assert_eq!(c.addr, "127.0.0.1:5002");
    assert!(RaftNodeConfig::for_member("9".to_string(), three_node_cluster()).is_none());
    let n = RaftNode::new(c);
    assert_eq!(n.id(), "2");
    assert_eq!(n.peer_addrs_except_own(), vec!["127.0.0.1:5001".to_string(), "127.0.0.1:5003".to_string()]);
}

#[test]
fn heartbeat_beyond_follower_log_still_succeeds() {
    let mut n = node_one();
    let r = n.handle_append_entries(append_committing(1, 5, 1, vec![], 5), 7);
    assert_eq!(r, AppendEntriesResponse { term: 1, success: true });
    assert!(n.log().is_empty());
    assert_eq!(n.commit_index(), 0);
    assert_eq!(n.last_heartbeat_ms(), 7);
}

#[test]
fn vote_request_with_empty_log_and_a_term_is_heard() {
    let mut n = node_one();
    let r = n.handle_vote_request(
        RequestVoteRequest { term: 2, candidate_id: "3".to_string(), last_log_index: 0, last_log_term: 3 },
        4,
    );
    assert_eq!(r, RequestVoteResponse { term: 2, vote_granted: true });
    assert_eq!(n.current_term(), 2);
    assert_eq!(n.voted_for(), Some(&"3".to_string()));
}

#[test]
fn last_log_index_is_the_last_entry_index() {
    let mut n = node_one();
    n.handle_append_entries(append(1, 0, 0, vec![wire_put(1, 7, "a", "1")]), 1);
    assert_eq!(n.get_last_log_index(), 7);
    assert_eq!(n.get_last_log_term(), 1);
}

#[test]
fn leader_stays_leader_on_same_term_append() {
    let mut n = leader();
    let r = n.handle_append_entries(append(1, 0, 0, vec![]), 20);
    assert!(r.success);
    assert_eq!(n.state(), NodeState::Leader);
    assert_eq!(n.leader_id(), Some(&"1".to_string()));
}

#[test]
fn committed_entries_are_not_overwritten() {
    let mut n = node_one();
    n.handle_append_entries(
        append_committing(1, 0, 0, vec![wire_put(1, 1, "a", "1"), wire_put(1, 2, "b", "2")], 2),
        1,
    );
    assert_eq!(n.commit_index(), 2);
    let r = n.handle_append_entries(append(2, 0, 0, vec![wire_delete(2, 1, "a")]), 2);
    assert!(r.success);
    assert_eq!(n.log().len(), 2);
    assert_eq!(n.log()[0].term, 1);
    n.start_election(10);
    n.handle_vote_response(RequestVoteResponse { term: 3, vote_granted: true }, 11);
    assert_eq!(n.state(), NodeState::Leader);
    let index = replicate_index(n.handle_set_request("k", "v"));
    assert_eq!(index, 3);
    assert_eq!(n.finish_set_request(index, true).result, Some(SetResult::Success));
    match n.handle_get_request("k") {
        ClientStep::Respond(r) => assert_eq!(r.result, Some(GetResult::Value("v".to_string()))),
        other => panic!("unexpected {:?}", other),
    }
}
