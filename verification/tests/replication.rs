//! Log replication scenarios: consistency checking, merging, retry backoff,
//! and commit advancement.

use raft_node::log::{Command, Log, LogEntry};
use raft_node::message::WSMessage;
use raft_node::raft_state::{compute_commit_index, RaftState};
use raft_node::shared::{Peer, PeerCursor, ServerState, StatusInfo};
use raft_node::state_machine::StateMachine;

fn status(name: &str, ip: &str) -> StatusInfo {
    StatusInfo { name: name.to_string(), ip: ip.to_string() }
}

fn peer(ip: &str) -> Peer {
    Peer { ip: ip.to_string() }
}

fn cluster(own: &str, peers: &[&str]) -> StateMachine {
    let mut sm = StateMachine::new(status(own, own));
    for p in peers {
        sm.add_peer(peer(p));
    }
    sm
}

fn cmd(tag: &str) -> Command {
    Command::AddUser { name: tag.to_string(), email: format!("{}@x", tag) }
}

fn entry(index: u32, term: u32, tag: &str) -> LogEntry {
    LogEntry { index, term, command: cmd(tag) }
}

#[test]
fn append_to_empty_follower() {
    // A term-2 leader with log [(1, term 1, cmdX)] appends to an empty-log
    // follower at prevLogIndex 0: the check passes trivially, the follower
    // appends and replies success with matchIndex 1.
    let mut follower = RaftState::new();
    let (reply, reset) = follower.handle_append_entries(
        2,
        peer("leader"),
        0,
        0,
        vec![entry(1, 1, "x")],
        0,
    );
    assert_eq!(
        reply,
        Some(WSMessage::AppendEntriesResponse { term: 2, success: true, match_index: Some(1) })
    );
    assert!(reset);
    assert_eq!(follower.current_term, 2);
    assert_eq!(follower.log.latest_seen, 1);
    assert_eq!(follower.log.entries[0], entry(1, 1, "x"));
}

#[test]
fn consistency_mismatch_and_retry() {
    // The follower holds three entries; prevLogIndex 5 and 4 miss, and the
    // leader walks back until the check matches at index 3.
    let mut follower = RaftState::new();
    follower.handle_append_entries(
        1,
        peer("leader"),
        0,
        0,
        vec![entry(1, 1, "a"), entry(2, 1, "b"), entry(3, 1, "c")],
        0,
    );
    assert_eq!(follower.log.latest_seen, 3);

    let (r5, reset5) = follower.handle_append_entries(3, peer("leader"), 5, 3, vec![], 0);
    assert_eq!(
        r5,
        Some(WSMessage::AppendEntriesResponse { term: 3, success: false, match_index: None })
    );
    assert!(reset5); // valid leader contact still rearms the timer

    let (r4, _) = follower.handle_append_entries(3, peer("leader"), 4, 3, vec![], 0);
    assert_eq!(
        r4,
        Some(WSMessage::AppendEntriesResponse { term: 3, success: false, match_index: None })
    );

    let (r3, _) = follower.handle_append_entries(3, peer("leader"), 3, 1, vec![], 0);
    assert_eq!(
        r3,
        Some(WSMessage::AppendEntriesResponse { term: 3, success: true, match_index: Some(3) })
    );
}

#[test]
fn leader_backs_off_next_index_on_failure() {
    // A failure response moves the peer's next_index back by one, so the
    // next heartbeat carries one earlier consistency point and the entries
    // from there on.
    let sm = cluster("a", &["b"]);
    let mut leader = RaftState::new();
    leader.convert_to_leader(1, &sm);
    leader.submit_command(cmd("x")).expect("the leader appends");
    // the fresh cursor was taken before the append: next_index is 1 and the
    // first heartbeat already carries the entry from index 1 on
    leader.handle_append_entries_response(peer("b"), 1, false, None);
    match &leader.current_state {
        ServerState::Leader { cursors } => {
            assert_eq!(cursors.len(), 1);
            assert_eq!(cursors[0].next_index, 1); // already at the floor
        },
        other => panic!("expected a Leader, got {:?}", other),
    }
    let msgs = leader.send_messages(&sm);
    assert_eq!(msgs.len(), 1);
    assert_eq!(msgs[0].0, peer("b"));
    match &msgs[0].1 {
        WSMessage::AppendEntries { term, prev_log_index, prev_log_term, entries, .. } => {
            assert_eq!(*term, 1);
            assert_eq!(*prev_log_index, 0);
            assert_eq!(*prev_log_term, 0);
            assert_eq!(entries.len(), 1);
            assert_eq!(entries[0], entry(1, 1, "x"));
        },
        other => panic!("expected an AppendEntries, got {:?}", other),
    }

    // with a fresh cursor one past the tail, a failure steps it back by one
    leader.convert_to_leader(1, &sm);
    match &leader.current_state {
        ServerState::Leader { cursors } => assert_eq!(cursors[0].next_index, 2),
        other => panic!("expected a Leader, got {:?}", other),
    }
    leader.handle_append_entries_response(peer("b"), 1, false, None);
    match &leader.current_state {
        ServerState::Leader { cursors } => assert_eq!(cursors[0].next_index, 1),
        other => panic!("expected a Leader, got {:?}", other),
    }
}

#[test]
fn conflicting_suffix_is_replaced() {
    // On the first incoming entry whose position holds a differing term the
    // follower deletes it and everything after, then appends the batch.
    let mut follower = RaftState::new();
    follower.handle_append_entries(
        1,
        peer("leader"),
        0,
        0,
        vec![entry(1, 1, "a"), entry(2, 1, "b"), entry(3, 1, "c")],
        0,
    );
    let (reply, _) = follower.handle_append_entries(
        2,
        peer("leader"),
        1,
        1,
        vec![entry(2, 2, "b2")],
        0,
    );
    assert_eq!(
        reply,
        Some(WSMessage::AppendEntriesResponse { term: 2, success: true, match_index: Some(2) })
    );
    assert_eq!(follower.log.latest_seen, 2);
    assert_eq!(follower.log.entries[0], entry(1, 1, "a"));
    assert_eq!(follower.log.entries[1], entry(2, 2, "b2"));
}

#[test]
fn duplicate_append_is_idempotent() {
    // A duplicate AppendEntries that matches existing state only rearms the
    // timer: the log is unchanged and the same success is returned.
    let mut follower = RaftState::new();
    let batch = vec![entry(1, 1, "a"), entry(2, 1, "b")];
    follower.handle_append_entries(1, peer("leader"), 0, 0, batch.clone(), 1);
    let before = follower.log.entries.clone();
    let commit_before = follower.commit_index;
    let (reply, reset) = follower.handle_append_entries(1, peer("leader"), 0, 0, batch, 1);
    assert_eq!(
        reply,
        Some(WSMessage::AppendEntriesResponse { term: 1, success: true, match_index: Some(2) })
    );
    assert!(reset);
    assert_eq!(follower.log.entries, before);
    assert_eq!(follower.commit_index, commit_before);
}

#[test]
fn stale_term_append_is_rejected_without_effect() {
    let mut follower = RaftState::new();
    follower.handle_append_entries(3, peer("leader"), 0, 0, vec![entry(1, 3, "a")], 0);
    let (reply, reset) = follower.handle_append_entries(
        2,
        peer("old-leader"),
        1,
        3,
        vec![entry(2, 2, "b")],
        0,
    );
    assert_eq!(
        reply,
        Some(WSMessage::AppendEntriesResponse { term: 3, success: false, match_index: None })
    );
    assert!(!reset); // a stale leader does not rearm the timer
    assert_eq!(follower.log.latest_seen, 1);
    assert_eq!(follower.current_term, 3);
}

#[test]
fn malformed_batch_is_dropped() {
    // A batch whose indices do not continue the consistency point is dropped
    // with no reply; the term adoption still stands.
    let mut follower = RaftState::new();
    let (reply, reset) = follower.handle_append_entries(
        1,
        peer("leader"),
        0,
        0,
        vec![entry(7, 1, "a")],
        0,
    );
    assert_eq!(reply, None);
    assert!(reset);
    assert_eq!(follower.log.latest_seen, 0);
    assert_eq!(follower.current_term, 1);
}

#[test]
fn follower_commit_follows_leader_commit() {
    // commitIndex = min(leaderCommit, highest merged index), never backwards.
    let mut follower = RaftState::new();
    follower.handle_append_entries(
        1,
        peer("leader"),
        0,
        0,
        vec![entry(1, 1, "a"), entry(2, 1, "b")],
        5,
    );
    assert_eq!(follower.commit_index, 2); // capped by the merged tail
    follower.handle_append_entries(1, peer("leader"), 2, 1, vec![], 1);
    assert_eq!(follower.commit_index, 2); // never decreases
}

#[test]
fn commit_needs_majority_and_current_term() {
    // The Replication Coordinator in isolation: the new commit index is the
    // highest index a strict majority holds whose entry is of the current
    // term; an older-term entry is never committed by counting alone.
    let mut log = Log::new();
    log.update_log(1, cmd("a"));
    log.update_log(2, cmd("b"));

    // two peers, only one acknowledged anything
    let lagging = vec![
        PeerCursor { peer: peer("b"), next_index: 3, match_index: 2 },
        PeerCursor { peer: peer("c"), next_index: 1, match_index: 0 },
    ];
    assert_eq!(compute_commit_index(&lagging, &log, 2, 0), 2);

    // a majority holds index 1, but its entry is of an earlier term
    let prior_term_only = vec![
        PeerCursor { peer: peer("b"), next_index: 2, match_index: 1 },
        PeerCursor { peer: peer("c"), next_index: 1, match_index: 0 },
    ];
    assert_eq!(compute_commit_index(&prior_term_only, &log, 2, 0), 0);

    // nobody acknowledged: the commit index stays where it was
    let silent = vec![
        PeerCursor { peer: peer("b"), next_index: 1, match_index: 0 },
        PeerCursor { peer: peer("c"), next_index: 1, match_index: 0 },
    ];
    assert_eq!(compute_commit_index(&silent, &log, 2, 0), 0);
}

#[test]
fn leader_tracks_a_newly_added_peer() {
    // Adding a peer while Leader initializes its cursors: next_index one
    // past the leader's tail, match_index zero.
    let sm = cluster("a", &["b"]);
    let mut leader = RaftState::new();
    leader.convert_to_leader(1, &sm);
    leader.submit_command(cmd("x")).expect("the leader appends");
    leader.add_peer(peer("c"));
    match &leader.current_state {
        ServerState::Leader { cursors } => {
            assert_eq!(cursors.len(), 2);
            assert_eq!(cursors[1].peer, peer("c"));
            assert_eq!(cursors[1].next_index, 2);
            assert_eq!(cursors[1].match_index, 0);
        },
        other => panic!("expected a Leader, got {:?}", other),
    }
    // adding a tracked address again changes nothing: the table is a set
    leader.add_peer(peer("c"));
    match &leader.current_state {
        ServerState::Leader { cursors } => assert_eq!(cursors.len(), 2),
        other => panic!("expected a Leader, got {:?}", other),
    }

    // a follower keeps no cursors: nothing to extend
    let mut follower = RaftState::new();
    follower.add_peer(peer("c"));
    assert!(matches!(follower.current_state, ServerState::Follower));
}

#[test]
fn leader_drops_a_removed_peer() {
    // Removing a peer while Leader drops its cursor, so the majority is
    // counted over the members that remain.
    let sm = cluster("a", &["b", "c"]);
    let mut leader = RaftState::new();
    leader.convert_to_leader(1, &sm);
    leader.remove_peer(&peer("b"));
    match &leader.current_state {
        ServerState::Leader { cursors } => {
            assert_eq!(cursors.len(), 1);
            assert_eq!(cursors[0].peer, peer("c"));
        },
        other => panic!("expected a Leader, got {:?}", other),
    }
    // an untracked address changes nothing
    leader.remove_peer(&peer("b"));
    match &leader.current_state {
        ServerState::Leader { cursors } => assert_eq!(cursors.len(), 1),
        other => panic!("expected a Leader, got {:?}", other),
    }
    // a follower keeps no cursors: nothing to drop
    let mut follower = RaftState::new();
    follower.remove_peer(&peer("b"));
    assert!(matches!(follower.current_state, ServerState::Follower));
}

#[test]
fn log_store_primitives() {
    let mut log = Log::new();
    assert_eq!(log.last_log_index(), 0);
    assert_eq!(log.last_log_term(), 0);
    assert!(log.consistency_check(0, 0));
    assert!(!log.consistency_check(1, 1));

    let first = log.update_log(1, cmd("a"));
    let second = log.update_log(3, cmd("b"));
    assert_eq!((first, second), (1, 2));
    assert_eq!(log.last_log_index(), 2);
    assert_eq!(log.last_log_term(), 3);
    assert!(log.consistency_check(1, 1));
    assert!(!log.consistency_check(1, 3));
    assert_eq!(log.get_entry(2), Some(&entry(2, 3, "b")));
    assert_eq!(log.get_entry(3), None);
    assert_eq!(log.get_entry(0), None);
}

#[test]
fn merge_appends_only_beyond_the_tail() {
    // A batch that overlaps the tail appends only the entries past it.
    let mut log = Log::new();
    log.update_log(1, cmd("a"));
    log.merge_from(vec![entry(1, 1, "a"), entry(2, 1, "b")]);
    assert_eq!(log.latest_seen, 2);
    assert_eq!(log.entries[0].command, cmd("a"));
    assert_eq!(log.entries[1], entry(2, 1, "b"));
}
