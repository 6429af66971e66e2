//! The application state machine, the applier, command submission, and the
//! election timer.

use raft_node::log::{Command, ToCommand};
use raft_node::message::WSMessage;
use raft_node::raft_state::RaftState;
use raft_node::shared::{contains_peer, peer_eq, Peer, ServerState, StatusInfo};
use raft_node::state_machine::{CreateUserRequest, StateMachine, User};
use raft_node::timer::{
    ElectionTimer, ELECTION_TIMEOUT_MAX_MS, ELECTION_TIMEOUT_MIN_MS, HEARTBEAT_INTERVAL_MS,
};

fn status(name: &str, ip: &str) -> StatusInfo {
    StatusInfo { name: name.to_string(), ip: ip.to_string() }
}

fn peer(ip: &str) -> Peer {
    Peer { ip: ip.to_string() }
}

fn cluster(own: &str, peers: &[&str]) -> StateMachine {
    let mut sm = StateMachine::new(status(own, own));
    for p in peers {
        sm.add_peer(peer(p));
    }
    sm
}

#[test]
fn submit_follower_then_leader() {
    // A command sent to a Follower fails with the "not leader" signal; sent
    // to the Leader it is appended, acknowledged by a majority, committed,
    // applied, and then visible to reads.
    let sm_template = cluster("a", &["b", "c"]);
    let mut sm = sm_template;
    let mut node = RaftState::new();
    let command = Command::AddUser { name: "ada".to_string(), email: "ada@x".to_string() };

    assert!(node.submit_command(command.clone()).is_err());

    node.handle_missed_heartbeat(&sm); // candidate at term 1
    node.handle_request_vote_response(&sm, peer("b"), 1, true); // majority of 3
    assert!(matches!(node.current_state, ServerState::Leader { .. }));

    let index = node.submit_command(command).expect("the leader appends");
    assert_eq!(index, 1);
    assert_eq!(node.commit_index, 0);

    // one follower acknowledges: leader + follower is the majority of three
    node.handle_append_entries_response(peer("b"), 1, true, Some(1));
    assert_eq!(node.commit_index, 1);

    node.apply_committed(&mut sm);
    assert_eq!(node.last_applied, 1);
    let user = sm.get_user(1).expect("the committed command was applied");
    assert_eq!(user, User { id: 1, name: "ada".to_string(), email: "ada@x".to_string() });
}

#[test]
fn apply_is_exactly_once_and_in_order() {
    // Three committed commands are applied in log order with consecutive
    // ids; running the applier again applies nothing twice.
    let mut sm = cluster("a", &[]);
    let mut node = RaftState::new();
    node.handle_missed_heartbeat(&sm); // single node: leader at once
    for tag in ["first", "second", "third"] {
        node.submit_command(Command::AddUser {
            name: tag.to_string(),
            email: format!("{}@x", tag),
        })
        .expect("the leader appends");
    }
    // a single-node cluster commits on the leader's own copy alone
    assert_eq!(node.commit_index, 3);
    node.apply_committed(&mut sm);
    assert_eq!(node.last_applied, 3);
    assert_eq!(sm.list_users().len(), 3);

    // with a real follower, commit waits for its acknowledgement
    let sm_two = cluster("a", &["b"]);
    let mut two = RaftState::new();
    two.convert_to_leader(1, &sm_two);
    for tag in ["first", "second", "third"] {
        two.submit_command(Command::AddUser {
            name: tag.to_string(),
            email: format!("{}@x", tag),
        })
        .expect("the leader appends");
    }
    two.handle_append_entries_response(peer("b"), 1, true, Some(3));
    assert_eq!(two.commit_index, 3);

    let mut app = cluster("a", &["b"]);
    two.apply_committed(&mut app);
    assert_eq!(two.last_applied, 3);
    let users = app.list_users();
    assert_eq!(users.len(), 3);
    assert_eq!(users[0], User { id: 1, name: "first".to_string(), email: "first@x".to_string() });
    assert_eq!(
        users[1],
        User { id: 2, name: "second".to_string(), email: "second@x".to_string() }
    );
    assert_eq!(users[2], User { id: 3, name: "third".to_string(), email: "third@x".to_string() });

    // applying again does nothing: exactly once
    two.apply_committed(&mut app);
    assert_eq!(app.list_users().len(), 3);
    assert_eq!(app.next_id, 4);
}

#[test]
fn state_machine_reads() {
    let mut sm = cluster("a", &[]);
    assert_eq!(sm.get_user(1), None);
    assert_eq!(sm.list_users().len(), 0);
    let created = sm.create_user(CreateUserRequest {
        name: "bo".to_string(),
        email: "bo@x".to_string(),
    });
    assert_eq!(created, User { id: 1, name: "bo".to_string(), email: "bo@x".to_string() });
    assert_eq!(sm.get_user(1), Some(created));
    assert_eq!(sm.get_user(2), None);
    assert_eq!(sm.next_id, 2);
}

#[test]
fn membership_and_identity() {
    let mut sm = cluster("a", &["b"]);
    assert_eq!(sm.status_info.to_peer(), peer("a"));
    assert!(peer_eq(&peer("b"), &peer("b")));
    assert!(!peer_eq(&peer("b"), &peer("c")));
    assert!(contains_peer(&sm.peers, &peer("b")));
    assert!(!contains_peer(&sm.peers, &peer("c")));
    sm.add_peer(peer("c"));
    assert!(contains_peer(&sm.peers, &peer("c")));
}

#[test]
fn membership_is_a_set() {
    // The table holds identities with equality by address: adding an
    // address twice leaves one entry, and removing it leaves none.
    let mut sm = cluster("a", &["b", "c"]);
    sm.add_peer(peer("b"));
    assert_eq!(sm.peers, vec![peer("b"), peer("c")]);
    sm.remove_peer(&peer("b"));
    assert_eq!(sm.peers, vec![peer("c")]);
    // removing an absent address changes nothing
    sm.remove_peer(&peer("b"));
    assert_eq!(sm.peers, vec![peer("c")]);
}

#[test]
fn request_becomes_command() {
    let req = CreateUserRequest { name: "cy".to_string(), email: "cy@x".to_string() };
    assert_eq!(
        req.to_command(),
        Command::AddUser { name: "cy".to_string(), email: "cy@x".to_string() }
    );
}

#[test]
fn dispatch_routes_every_message() {
    let sm = cluster("b", &["a"]);
    let mut node = RaftState::new();
    let out = node.handle_message(
        &sm,
        peer("a"),
        WSMessage::RequestVote { term: 1, candidate_id: peer("a"), last_log_index: 0, last_log_term: 0 },
    );
    assert_eq!(
        out.reply,
        Some(WSMessage::RequestVoteResponse { term: 1, vote_granted: true })
    );
    assert!(out.reset_timer);

    let out = node.handle_message(
        &sm,
        peer("a"),
        WSMessage::AppendEntries {
            term: 1,
            leader_id: peer("a"),
            prev_log_index: 0,
            prev_log_term: 0,
            entries: vec![],
            leader_commit: 0,
        },
    );
    assert_eq!(
        out.reply,
        Some(WSMessage::AppendEntriesResponse { term: 1, success: true, match_index: Some(0) })
    );
    assert!(out.reset_timer);

    let out = node.handle_message(
        &sm,
        peer("a"),
        WSMessage::RequestVoteResponse { term: 1, vote_granted: true },
    );
    assert_eq!(out.reply, None);
    assert!(!out.reset_timer);

    let out = node.handle_message(
        &sm,
        peer("a"),
        WSMessage::AppendEntriesResponse { term: 1, success: true, match_index: Some(0) },
    );
    assert_eq!(out.reply, None);
    assert!(!out.reset_timer);
}

#[test]
fn election_timer_draws_from_the_range() {
    // The drawn duration always lies in the configured range — this would
    // fail if the draw handed anything else back — and the heartbeat cadence
    // is strictly shorter than every possible timeout.
    assert!(HEARTBEAT_INTERVAL_MS < ELECTION_TIMEOUT_MIN_MS);
    let mut timer = ElectionTimer::new();
    for _ in 0..64 {
        let d = timer.rearm();
        assert!(ELECTION_TIMEOUT_MIN_MS <= d && d <= ELECTION_TIMEOUT_MAX_MS);
        assert_eq!(d, timer.duration_ms);
    }
}

#[test]
fn election_timer_signal_is_consumed_once() {
    let mut timer = ElectionTimer::new();
    assert!(!timer.pending);
    timer.fire();
    assert!(timer.pending);
    assert!(timer.consume());
    assert!(!timer.consume()); // consumed exactly once
    timer.rearm();
    assert!(!timer.pending);
}
