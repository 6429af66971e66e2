//! A Raft-style consensus engine for a cluster node that keeps a replicated
//! command log and an application state machine consistent across a set of
//! peers.
//!
//! The crate holds the protocol core: the per-node role state machine
//! (Follower / Candidate / Leader), term and vote bookkeeping, randomized
//! election timing, log replication with consistency checking, commit-index
//! advancement by majority acknowledgement, and deterministic, exactly-once
//! application of committed entries to the application state. Transport,
//! peer discovery and the HTTP request layer are external collaborators.

pub mod log;
pub mod message;
pub mod raft_state;
pub mod safety;
pub mod shared;
pub mod state_machine;
pub mod timer;
