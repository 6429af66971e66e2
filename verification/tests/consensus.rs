//! Election scenarios: timeouts, vote exchange, and leadership.

use raft_node::log::Command;
use raft_node::message::WSMessage;
use raft_node::raft_state::{majority, RaftState};
use raft_node::shared::{Peer, ServerState, StatusInfo};
use raft_node::state_machine::StateMachine;

fn status(name: &str, ip: &str) -> StatusInfo {
    StatusInfo { name: name.to_string(), ip: ip.to_string() }
}

fn peer(ip: &str) -> Peer {
    Peer { ip: ip.to_string() }
}

fn cluster(own: &str, peers: &[&str]) -> StateMachine {
    let mut sm = StateMachine::new(status(own, own));
    for p in peers {
        sm.add_peer(peer(p));
    }
    sm
}

#[test]
fn majority_thresholds() {
    assert_eq!(majority(1), 1);
    assert_eq!(majority(2), 2);
    assert_eq!(majority(3), 2);
    assert_eq!(majority(4), 3);
    assert_eq!(majority(5), 3);
}

#[test]
fn single_node_becomes_leader_at_once() {
    // One-node cluster: the timeout makes a Candidate whose own vote is
    // already the whole majority, so it is Leader immediately.
    let sm = cluster("a", &[]);
    let mut node = RaftState::new();
    let msg = node.handle_missed_heartbeat(&sm);
    assert!(msg.is_some());
    assert_eq!(node.current_term, 1);
    assert!(matches!(node.current_state, ServerState::Leader { .. }));
    assert_eq!(node.voted_for, Some(peer("a")));
}

#[test]
fn three_node_election() {
    // Node A times out at term 1, B and C grant (empty logs), and A's tally
    // reaches the majority of the three-node cluster.
    let sm_a = cluster("a", &["b", "c"]);
    let mut a = RaftState::new();
    let mut b = RaftState::new();
    let mut c = RaftState::new();

    let broadcast = a.handle_missed_heartbeat(&sm_a).expect("follower must start an election");
    assert_eq!(a.current_term, 1);
    assert!(matches!(a.current_state, ServerState::Candidate { .. }));
    let (term, candidate_id, last_log_index, last_log_term) = match broadcast {
        WSMessage::RequestVote { term, candidate_id, last_log_index, last_log_term } => {
            (term, candidate_id, last_log_index, last_log_term)
        },
        other => panic!("expected a RequestVote broadcast, got {:?}", other),
    };
    assert_eq!(term, 1);
    assert_eq!(candidate_id, peer("a"));

    let (reply_b, reset_b) =
        b.handle_request_vote(candidate_id.clone(), term, last_log_index, last_log_term);
    assert_eq!(reply_b, WSMessage::RequestVoteResponse { term: 1, vote_granted: true });
    assert!(reset_b);
    let (reply_c, _) =
        c.handle_request_vote(candidate_id.clone(), term, last_log_index, last_log_term);
    assert_eq!(reply_c, WSMessage::RequestVoteResponse { term: 1, vote_granted: true });

    let leading = a.handle_request_vote_response(&sm_a, peer("b"), 1, true);
    assert!(leading);
    assert!(matches!(a.current_state, ServerState::Leader { .. }));
    // the late grant changes nothing
    let still_leading = a.handle_request_vote_response(&sm_a, peer("c"), 1, true);
    assert!(still_leading);
    assert_eq!(a.current_term, 1);
}

#[test]
fn split_vote_goes_to_a_new_term() {
    // Four nodes, two simultaneous Candidates, votes split two against two
    // while the majority is three: nobody leads, both re-contest higher.
    let sm_a = cluster("a", &["b", "c", "d"]);
    let sm_b = cluster("b", &["a", "c", "d"]);
    let mut a = RaftState::new();
    let mut b = RaftState::new();

    a.handle_missed_heartbeat(&sm_a);
    b.handle_missed_heartbeat(&sm_b);
    assert_eq!(a.current_term, 1);
    assert_eq!(b.current_term, 1);

    // C grants A, D grants B: both tallies stop at two of the needed three.
    let a_leads = a.handle_request_vote_response(&sm_a, peer("c"), 1, true);
    let b_leads = b.handle_request_vote_response(&sm_b, peer("d"), 1, true);
    assert!(!a_leads);
    assert!(!b_leads);
    assert!(matches!(a.current_state, ServerState::Candidate { .. }));
    assert!(matches!(b.current_state, ServerState::Candidate { .. }));

    // each denies the other: a response that grants nothing changes nothing
    a.handle_request_vote_response(&sm_a, peer("b"), 1, false);
    b.handle_request_vote_response(&sm_b, peer("a"), 1, false);
    assert!(matches!(a.current_state, ServerState::Candidate { .. }));

    // both time out again and re-contest at a higher term
    a.handle_missed_heartbeat(&sm_a);
    b.handle_missed_heartbeat(&sm_b);
    assert_eq!(a.current_term, 2);
    assert_eq!(b.current_term, 2);
    assert!(matches!(a.current_state, ServerState::Candidate { .. }));
    assert!(matches!(b.current_state, ServerState::Candidate { .. }));
}

#[test]
fn one_vote_per_term() {
    // A node that granted its vote in a term denies every other candidate of
    // that term, and grants again once the term moves on.
    let mut node = RaftState::new();
    let (first, _) = node.handle_request_vote(peer("a"), 1, 0, 0);
    assert_eq!(first, WSMessage::RequestVoteResponse { term: 1, vote_granted: true });
    let (second, reset) = node.handle_request_vote(peer("b"), 1, 0, 0);
    assert_eq!(second, WSMessage::RequestVoteResponse { term: 1, vote_granted: false });
    assert!(!reset);
    // the same candidate asking again is granted again, idempotently
    let (again, _) = node.handle_request_vote(peer("a"), 1, 0, 0);
    assert_eq!(again, WSMessage::RequestVoteResponse { term: 1, vote_granted: true });
    // a later term clears the record
    let (next_term, _) = node.handle_request_vote(peer("b"), 2, 0, 0);
    assert_eq!(next_term, WSMessage::RequestVoteResponse { term: 2, vote_granted: true });
    assert_eq!(node.voted_for, Some(peer("b")));
}

#[test]
fn vote_denied_to_a_stale_or_outdated_candidate() {
    // A candidate of an older term, or one whose log is behind, is denied.
    let sm = cluster("a", &[]);
    let mut node = RaftState::new();
    node.handle_missed_heartbeat(&sm); // leader at term 1
    node.submit_command(Command::AddUser {
        name: "n".to_string(),
        email: "e".to_string(),
    })
    .expect("the leader appends");

    // stale term
    let (stale, _) = node.handle_request_vote(peer("b"), 0, 5, 5);
    assert_eq!(stale, WSMessage::RequestVoteResponse { term: 1, vote_granted: false });
    // same last term, shorter log
    let (behind, _) = node.handle_request_vote(peer("b"), 2, 0, 1);
    assert_eq!(behind, WSMessage::RequestVoteResponse { term: 2, vote_granted: false });
    // longer last term wins the comparison
    let (ahead, _) = node.handle_request_vote(peer("b"), 3, 7, 2);
    assert_eq!(ahead, WSMessage::RequestVoteResponse { term: 3, vote_granted: true });
}

#[test]
fn greater_term_forces_follower() {
    // Any message carrying a strictly greater term converts the node to
    // Follower at that term.
    let sm = cluster("a", &[]);
    let mut node = RaftState::new();
    node.handle_missed_heartbeat(&sm);
    assert!(matches!(node.current_state, ServerState::Leader { .. }));
    node.handle_append_entries_response(peer("b"), 9, false, None);
    assert!(matches!(node.current_state, ServerState::Follower));
    assert_eq!(node.current_term, 9);
    assert_eq!(node.voted_for, None);
}
