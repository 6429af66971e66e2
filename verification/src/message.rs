//! The wire-level protocol messages exchanged between nodes. Serialization
//! is owned by the transport collaborator; the core only states and proves
//! what each message means.

use vstd::prelude::*;

use crate::log::{LogEntry, LogEntryV};
use crate::shared::Peer;

verus! {

/// The two replication-protocol exchanges and their responses.
#[derive(Debug, PartialEq, Eq)]
pub enum WSMessage {
    AppendEntries {
        term: u32,
        leader_id: Peer,
        prev_log_index: u32,
        prev_log_term: u32,
        entries: Vec<LogEntry>,
        leader_commit: u32,
    },
    AppendEntriesResponse { term: u32, success: bool, match_index: Option<u32> },
    RequestVote { term: u32, candidate_id: Peer, last_log_index: u32, last_log_term: u32 },
    RequestVoteResponse { term: u32, vote_granted: bool },
}

/// The ghost image of a protocol message.
pub enum WSMessageV {
    AppendEntries {
        term: u32,
        leader_id: Seq<char>,
        prev_log_index: u32,
        prev_log_term: u32,
        entries: Seq<LogEntryV>,
        leader_commit: u32,
    },
    AppendEntriesResponse { term: u32, success: bool, match_index: Option<u32> },
    RequestVote { term: u32, candidate_id: Seq<char>, last_log_index: u32, last_log_term: u32 },
    RequestVoteResponse { term: u32, vote_granted: bool },
}

impl View for WSMessage {
    type V = WSMessageV;

    open spec fn view(&self) -> WSMessageV {
        match self {
            WSMessage::AppendEntries {
                term,
                leader_id,
                prev_log_index,
                prev_log_term,
                entries,
                leader_commit,
            } => WSMessageV::AppendEntries {
                term: *term,
                leader_id: leader_id@,
                prev_log_index: *prev_log_index,
                prev_log_term: *prev_log_term,
                entries: entries.deep_view(),
                leader_commit: *leader_commit,
            },
            WSMessage::AppendEntriesResponse { term, success, match_index } => (
            WSMessageV::AppendEntriesResponse {
                term: *term,
                success: *success,
                match_index: *match_index,
            }),
            WSMessage::RequestVote { term, candidate_id, last_log_index, last_log_term } => (
            WSMessageV::RequestVote {
                term: *term,
                candidate_id: candidate_id@,
                last_log_index: *last_log_index,
                last_log_term: *last_log_term,
            }),
            WSMessage::RequestVoteResponse { term, vote_granted } => (
            WSMessageV::RequestVoteResponse { term: *term, vote_granted: *vote_granted }),
        }
    }
}

} // verus!
