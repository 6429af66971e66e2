//! The role state machine: Follower, Candidate and Leader, with term and
//! vote bookkeeping, log replication handling, commit-index advancement and
//! the hand-off to the applier.
//!
//! Every mutation of the consensus state happens through one of the methods
//! here, inside the caller's single critical section; each method's contract
//! names the transition it performs, and every transition satisfies
//! [`step_ok`], from which the global monotonicity and safety statements in
//! [`crate::safety`] follow.

use vstd::prelude::*;

use crate::log::{
    consistency_ok, entries_wf, last_term_of, merge_spec, mergeable, term_at, Command, Log,
    LogEntry,
    LogEntryV,
};
use crate::message::{WSMessage, WSMessageV};
use crate::state_machine::StateMachine;
use crate::shared::{peer_eq, CursorV, Peer, PeerCursor, RoleV, ServerState};

verus! {

/// What starting an election does: enter the next term as a Candidate with
/// the node's own vote, or — in a single-node cluster, where one vote is
/// already a majority — as Leader outright; the returned message is the
/// RequestVote broadcast for the new term.
pub open spec fn election_post(
    pre: RaftStateV,
    post: RaftStateV,
    peers: Seq<Seq<char>>,
    self_ip: Seq<char>,
    msg: WSMessageV,
) -> bool {
    &&& post.current_term == pre.current_term + 1
    &&& post.voted_for == Some(self_ip)
    &&& post.log == pre.log
    &&& post.commit_index == pre.commit_index
    &&& post.last_applied == pre.last_applied
    &&& if peers.len() == 0 {
        post.role matches RoleV::Leader { cursors } && cursors.len() == 0
    } else {
        post.role == (RoleV::Candidate { votes_received: seq![self_ip] })
    }
    &&& msg == (WSMessageV::RequestVote {
        term: post.current_term,
        candidate_id: self_ip,
        last_log_index: pre.log.len() as u32,
        last_log_term: last_term_of(pre.log),
    })
}

/// The ghost image of the whole consensus state of one node.
pub struct RaftStateV {
    pub log: Seq<LogEntryV>,
    pub voted_for: Option<Seq<char>>,
    pub commit_index: u32,
    pub last_applied: u32,
    pub current_term: u32,
    pub role: RoleV,
}

impl RaftStateV {
    /// The node-local invariant: a well-formed log whose terms never exceed
    /// the current term, apply and commit cursors inside the log, leader
    /// cursors inside the log, and a candidate tally of distinct voters.
    pub open spec fn inv(self) -> bool {
        &&& entries_wf(self.log)
        &&& self.last_applied <= self.commit_index <= self.log.len()
        &&& last_term_of(self.log) <= self.current_term
        &&& (self.role matches RoleV::Leader { cursors } ==> leader_cursors_ok(
            cursors,
            self.log.len() as int,
        ) && cursor_peers_distinct(cursors))
        &&& (self.role matches RoleV::Candidate { votes_received } ==> votes_distinct(
            votes_received,
        ))
    }
}

/// Every leader cursor points inside the log: `next_index` between one and
/// one past the tail, `match_index` at most the tail.
pub open spec fn leader_cursors_ok(cursors: Seq<CursorV>, log_len: int) -> bool {
    forall|i: int|
        0 <= i < cursors.len() ==> 1 <= (#[trigger] cursors[i]).next_index <= log_len + 1
            && cursors[i].match_index <= log_len
}

/// A candidate's tally holds each voter at most once.
pub open spec fn votes_distinct(votes: Seq<Seq<char>>) -> bool {
    forall|i: int, j: int| 0 <= i < j < votes.len() ==> votes[i] != votes[j]
}

/// A leader's cursor table holds each address at most once, mirroring the
/// membership table's set semantics: acknowledgements are then counted once
/// per peer, never once per table entry.
pub open spec fn cursor_peers_distinct(cursors: Seq<CursorV>) -> bool {
    forall|i: int, j: int|
        0 <= i < j < cursors.len() ==> (#[trigger] cursors[i]).peer != (
        #[trigger] cursors[j]).peer
}

/// Whether the cursor table holds an entry for this address.
pub open spec fn has_cursor(cursors: Seq<CursorV>, p: Seq<char>) -> bool {
    exists|i: int| 0 <= i < cursors.len() && (#[trigger] cursors[i]).peer == p
}

/// The position of this address in the cursor table; meaningful only where
/// [`has_cursor`] holds, and unique under [`cursor_peers_distinct`].
pub open spec fn cursor_index_of(cursors: Seq<CursorV>, p: Seq<char>) -> int {
    choose|i: int| 0 <= i < cursors.len() && (#[trigger] cursors[i]).peer == p
}

/// What every single transition of the consensus state preserves: the term
/// and both progress cursors never decrease, a vote once granted stands for
/// the rest of its term, a leader only ever appends to its own log, and
/// entries below the commit index are never replaced.
pub open spec fn step_ok(pre: RaftStateV, post: RaftStateV) -> bool {
    &&& pre.current_term <= post.current_term
    &&& pre.commit_index <= post.commit_index
    &&& pre.last_applied <= post.last_applied
    &&& (post.current_term == pre.current_term && pre.voted_for is Some
        ==> post.voted_for == pre.voted_for)
    &&& (pre.role is Leader && post.role is Leader ==> post.log.len() >= pre.log.len()
        && forall|i: int| 0 <= i < pre.log.len() ==> #[trigger] post.log[i] == pre.log[i])
    &&& post.log.len() >= pre.commit_index
    &&& forall|i: int| 0 <= i < pre.commit_index ==> #[trigger] post.log[i] == pre.log[i]
}

/// The majority threshold of a cluster: strictly more than half.
pub open spec fn majority_spec(cluster_size: int) -> int {
    cluster_size / 2 + 1
}

/// Majority = floor(clusterSize / 2) + 1.
pub fn majority(cluster_size: usize) -> (r: usize)
    requires
        cluster_size < usize::MAX,
    ensures
        r == majority_spec(cluster_size as int),
{
    cluster_size / 2 + 1
}

/// A candidate's log is at least as up to date as ours when its last term is
/// greater, or equal with an index at least as large.
pub open spec fn candidate_up_to_date(
    c_last_term: u32,
    c_last_index: u32,
    l_last_term: u32,
    l_last_index: u32,
) -> bool {
    ||| c_last_term > l_last_term
    ||| (c_last_term == l_last_term && c_last_index >= l_last_index)
}

/// A fresh leader's cursor table over the given peers: `next_index` one past
/// the leader's last log index, `match_index` zero.
pub open spec fn fresh_cursors(peers: Seq<Seq<char>>, last_index: int) -> Seq<CursorV> {
    Seq::new(
        peers.len(),
        |i: int|
            CursorV { peer: peers[i], next_index: (last_index + 1) as u32, match_index: 0 },
    )
}

/// The cursor table after a successful acknowledgement up to `ack` from
/// `from`: its `match_index` becomes `ack`, its `next_index` one past it.
pub open spec fn acked_cursors(cursors: Seq<CursorV>, from: Seq<char>, ack: u32) -> Seq<
    CursorV,
> {
    Seq::new(
        cursors.len(),
        |i: int|
            if cursors[i].peer == from {
                CursorV { peer: cursors[i].peer, next_index: (ack + 1) as u32, match_index: ack }
            } else {
                cursors[i]
            },
    )
}

/// The cursor table after a rejection from `from`: its `next_index` backs
/// off by one, stopping at one.
pub open spec fn backoff_cursors(cursors: Seq<CursorV>, from: Seq<char>) -> Seq<CursorV> {
    Seq::new(
        cursors.len(),
        |i: int|
            if cursors[i].peer == from {
                CursorV {
                    peer: cursors[i].peer,
                    next_index: if cursors[i].next_index > 1 {
                        (cursors[i].next_index - 1) as u32
                    } else {
                        1
                    },
                    match_index: cursors[i].match_index,
                }
            } else {
                cursors[i]
            },
    )
}

/// How many cursors acknowledge index `n` or beyond.
pub open spec fn count_acks(cursors: Seq<CursorV>, n: u32) -> int
    decreases cursors.len(),
{
    if cursors.len() == 0 {
        0
    } else {
        (if cursors[0].match_index >= n {
            1int
        } else {
            0int
        }) + count_acks(cursors.skip(1), n)
    }
}

/// Index `n` may be committed: it lies in the log, its entry carries the
/// current term, and a strict majority of the cluster — the leader itself
/// plus the acknowledging peers — holds it.
pub open spec fn commit_ok(
    cursors: Seq<CursorV>,
    log: Seq<LogEntryV>,
    current_term: u32,
    n: u32,
) -> bool {
    &&& 1 <= n <= log.len()
    &&& term_at(log, n as int) == current_term
    &&& 1 + count_acks(cursors, n) >= majority_spec(1 + cursors.len() as int)
}

/// What handling a RequestVote does, for any role: adopt a strictly greater
/// term first (falling back to Follower), then grant exactly by the
/// Tracker's rule; the reply carries the greater of the two terms, and the
/// timer is rearmed exactly when the vote is granted.
pub open spec fn request_vote_post(
    pre: RaftStateV,
    post: RaftStateV,
    candidate: Seq<char>,
    term: u32,
    last_log_index: u32,
    last_log_term: u32,
    reply: WSMessageV,
    reset: bool,
) -> bool {
    let mid = if term > pre.current_term {
        RaftStateV { current_term: term, voted_for: None, role: RoleV::Follower, ..pre }
    } else {
        pre
    };
    let granted = term == mid.current_term && (mid.voted_for is None || mid.voted_for == Some(
        candidate,
    )) && candidate_up_to_date(
        last_log_term,
        last_log_index,
        last_term_of(mid.log),
        mid.log.len() as u32,
    );
    &&& post == if granted {
        (RaftStateV { voted_for: Some(candidate), ..mid })
    } else {
        mid
    }
    &&& reply == (WSMessageV::RequestVoteResponse { term: mid.current_term, vote_granted: granted })
    &&& reset == granted
}

/// What handling a RequestVoteResponse does: a strictly greater term forces
/// Follower; a candidate tallies a granted vote of its term once per voter,
/// and on reaching a majority of the cluster takes leadership with a fresh
/// cursor table; everything else is discarded as stale.
pub open spec fn vote_response_post(
    pre: RaftStateV,
    post: RaftStateV,
    from: Seq<char>,
    term: u32,
    granted: bool,
    peers: Seq<Seq<char>>,
) -> bool {
    if term > pre.current_term {
        post == (RaftStateV { current_term: term, voted_for: None, role: RoleV::Follower, ..pre })
    } else if pre.role is Candidate && term == pre.current_term && granted {
        let votes = pre.role->Candidate_votes_received;
        if votes.contains(from) {
            post == pre
        } else {
            let new_votes = votes.push(from);
            if new_votes.len() >= majority_spec(1 + peers.len() as int) {
                post == (RaftStateV {
                    role: RoleV::Leader {
                        cursors: fresh_cursors(peers, pre.log.len() as int),
                    },
                    ..pre
                })
            } else {
                post == (RaftStateV {
                    role: RoleV::Candidate { votes_received: new_votes },
                    ..pre
                })
            }
        }
    } else {
        post == pre
    }
}

/// What handling an AppendEntriesResponse does: a strictly greater term
/// forces Follower; a leader of the response's term moves the sender's
/// cursor forward on success — and advances the commit index to the highest
/// index the majority-and-current-term rule now allows — or backs its
/// `next_index` off by one on failure; everything else, including an
/// acknowledgement beyond the log, is discarded.
pub open spec fn ae_response_post(
    pre: RaftStateV,
    post: RaftStateV,
    from: Seq<char>,
    term: u32,
    success: bool,
    match_index: Option<u32>,
) -> bool {
    if term > pre.current_term {
        post == (RaftStateV { current_term: term, voted_for: None, role: RoleV::Follower, ..pre })
    } else if pre.role is Leader && term == pre.current_term {
        let cursors = pre.role->Leader_cursors;
        if success {
            match match_index {
                Some(ack) => if ack <= pre.log.len() {
                    let new_cursors = acked_cursors(cursors, from, ack);
                    &&& post.role == (RoleV::Leader { cursors: new_cursors })
                    &&& post.log == pre.log
                    &&& post.voted_for == pre.voted_for
                    &&& post.current_term == pre.current_term
                    &&& post.last_applied == pre.last_applied
                    &&& pre.commit_index <= post.commit_index <= pre.log.len()
                    &&& (post.commit_index == pre.commit_index || commit_ok(
                        new_cursors,
                        pre.log,
                        pre.current_term,
                        post.commit_index,
                    ))
                    &&& forall|m: u32|
                        post.commit_index < m <= pre.log.len() ==> !commit_ok(
                            new_cursors,
                            pre.log,
                            pre.current_term,
                            m,
                        )
                } else {
                    post == pre
                },
                None => post == pre,
            }
        } else {
            post == (RaftStateV {
                role: RoleV::Leader { cursors: backoff_cursors(cursors, from) },
                ..pre
            })
        }
    } else {
        post == pre
    }
}

/// What an incoming batch of entries must look like to be merged rather
/// than dropped as malformed: contiguous 1-based indices right after the
/// consistency point, non-decreasing terms between the stated previous term
/// and the message's own term, and index arithmetic that stays in range.
pub open spec fn entries_batch_ok(
    log: Seq<LogEntryV>,
    term: u32,
    prev_log_index: u32,
    prev_log_term: u32,
    entries: Seq<LogEntryV>,
) -> bool {
    &&& forall|k: int|
        0 <= k < entries.len() ==> (#[trigger] entries[k]).index == prev_log_index + 1 + k
    &&& forall|k: int, l: int|
        0 <= k <= l < entries.len() ==> #[trigger] entries[k].term <= #[trigger] entries[l].term
    &&& entries.len() > 0 ==> prev_log_term <= entries[0].term && entries[entries.len()
        - 1].term <= term
    &&& prev_log_index + entries.len() <= u32::MAX
    &&& log.len() + entries.len() <= u32::MAX
}

/// What handling an AppendEntries does, for any role. A stale term is
/// rejected with no side effects. Otherwise the node adopts the term and
/// falls back to Follower, rearms its timer, and runs the consistency
/// check: a mismatch is rejected; a malformed batch, or one that would
/// contradict an already committed entry, is dropped without reply; a match
/// merges the entries, advances the commit index to the smaller of the
/// leader's commit and the last merged index (never backwards), and replies
/// success with the matched index.
pub open spec fn append_entries_post(
    pre: RaftStateV,
    post: RaftStateV,
    term: u32,
    prev_log_index: u32,
    prev_log_term: u32,
    entries: Seq<LogEntryV>,
    leader_commit: u32,
    reply: Option<WSMessageV>,
    reset: bool,
) -> bool {
    if term < pre.current_term {
        &&& post == pre
        &&& reply == Some(
            WSMessageV::AppendEntriesResponse {
                term: pre.current_term,
                success: false,
                match_index: None::<u32>,
            },
        )
        &&& !reset
    } else {
        let mid = RaftStateV {
            current_term: term,
            voted_for: if term > pre.current_term {
                None
            } else {
                pre.voted_for
            },
            role: RoleV::Follower,
            ..pre
        };
        &&& reset
        &&& if !consistency_ok(pre.log, prev_log_index, prev_log_term) {
            &&& post == mid
            &&& reply == Some(
                WSMessageV::AppendEntriesResponse {
                    term,
                    success: false,
                    match_index: None::<u32>,
                },
            )
        } else if !entries_batch_ok(pre.log, term, prev_log_index, prev_log_term, entries)
            || !crate::log::conflict_free_below(pre.log, entries, pre.commit_index) {
            &&& post == mid
            &&& reply is None
        } else {
            let merged = merge_spec(pre.log, entries);
            let match_idx = (prev_log_index + entries.len()) as u32;
            let target = if leader_commit <= match_idx {
                leader_commit
            } else {
                match_idx
            };
            let new_commit = if target >= pre.commit_index {
                target
            } else {
                pre.commit_index
            };
            &&& post == (RaftStateV { log: merged, commit_index: new_commit, ..mid })
            &&& reply == Some(
                WSMessageV::AppendEntriesResponse {
                    term,
                    success: true,
                    match_index: Some(match_idx),
                },
            )
        }
    }
}

/// The ghost image of an optional reply.
pub open spec fn opt_msg_view(m: Option<WSMessage>) -> Option<WSMessageV> {
    match m {
        Some(msg) => Some(msg@),
        None => None,
    }
}

/// What the role state machine asks of its caller after a message: send the
/// reply, if any, back to the sender, and rearm the election timer if valid
/// leader contact was accepted or a vote was granted.
pub struct MessageOutcome {
    pub reply: Option<WSMessage>,
    pub reset_timer: bool,
}

/// Whether a batch of incoming entries is shaped as [`entries_batch_ok`]
/// asks.
fn entries_batch_check(
    log: &Log,
    term: u32,
    prev_log_index: u32,
    prev_log_term: u32,
    entries: &Vec<LogEntry>,
) -> (r: bool)
    requires
        log.wf(),
    ensures
        r == entries_batch_ok(log@, term, prev_log_index, prev_log_term, entries.deep_view()),
{
    let ghost ev = entries.deep_view();
    let n = entries.len();
    if (prev_log_index as u128) + (n as u128) > (u32::MAX as u128) {
        return false;
    }
    if (log.entries.len() as u128) + (n as u128) > (u32::MAX as u128) {
        return false;
    }
    if n == 0 {
        return true;
    }
    proof {
        assert(ev[0] == entries@[0]@);
        assert(ev[n - 1] == entries@[n - 1]@);
    }
    if entries[0].term < prev_log_term {
        return false;
    }
    if entries[n - 1].term > term {
        return false;
    }
    let mut k: usize = 0;
    while k < n
        invariant
            k <= n,
            n == entries@.len(),
            ev == entries.deep_view(),
            prev_log_index + n <= u32::MAX,
            forall|i: int| 0 <= i < k ==> (#[trigger] ev[i]).index == prev_log_index + 1 + i,
            forall|i: int, j: int|
                0 <= i <= j < k ==> #[trigger] ev[i].term <= #[trigger] ev[j].term,
        decreases n - k,
    {
        proof {
            assert(ev[k as int] == entries@[k as int]@);
        }
        if (entries[k].index as u64) != (prev_log_index as u64) + 1 + (k as u64) {
            proof {
                assert(ev[k as int].index != prev_log_index + 1 + k);
            }
            return false;
        }
        if k > 0 {
            proof {
                assert(ev[k - 1] == entries@[k - 1]@);
            }
            if entries[k - 1].term > entries[k].term {
                proof {
                    assert(!(ev[k - 1].term <= ev[k as int].term));
                }
                return false;
            }
        }
        proof {
            assert forall|i: int, j: int| 0 <= i <= j < k + 1 implies #[trigger] ev[i].term
                <= #[trigger] ev[j].term by {
                if j == k && i < k {
                    assert(ev[i].term <= ev[k - 1].term);
                    assert(ev[k - 1].term <= ev[k as int].term);
                }
            }
        }
        k = k + 1;
    }
    true
}

/// Whether no incoming entry at or below `floor` contradicts the log, as
/// [`crate::log::conflict_free_below`] asks.
fn conflict_check(log: &Log, floor: u32, entries: &Vec<LogEntry>) -> (r: bool)
    requires
        log.wf(),
        floor <= log@.len(),
        forall|k: int|
            0 <= k < entries.deep_view().len() ==> (#[trigger] entries.deep_view()[k]).index
                >= 1,
    ensures
        r == crate::log::conflict_free_below(log@, entries.deep_view(), floor),
{
    let mut k: usize = 0;
    while k < entries.len()
        invariant
            k <= entries@.len(),
            log.wf(),
            floor <= log@.len(),
            forall|i: int|
                0 <= i < entries.deep_view().len() ==> (
                #[trigger] entries.deep_view()[i]).index >= 1,
            forall|i: int|
                0 <= i < k && (#[trigger] entries.deep_view()[i]).index <= floor
                    && entries.deep_view()[i].index - 1 < log@.len() ==> log@[entries.deep_view()[
                    i].index - 1].term == entries.deep_view()[i].term,
        decreases entries@.len() - k,
    {
        proof {
            assert(entries.deep_view()[k as int] == entries@[k as int]@);
        }
        let idx = entries[k].index;
        if idx <= floor && (idx as usize) <= log.entries.len() {
            if log.entries[(idx - 1) as usize].term != entries[k].term {
                return false;
            }
        }
        k = k + 1;
    }
    true
}

/// The signal handed back to a client that submitted a command to a node
/// that is not the Leader; the caller must retry elsewhere.
#[derive(Debug)]
pub struct NotLeaderError;

/// The Replication Coordinator's advancement rule, independently of the rest
/// of the leader state: the highest index that a strict majority of the
/// cluster (the leader itself included) holds and whose entry carries the
/// current term; the commit index never moves backwards.
pub fn compute_commit_index(
    cursors: &Vec<PeerCursor>,
    log: &Log,
    current_term: u32,
    commit_index: u32,
) -> (r: u32)
    requires
        log.wf(),
        commit_index <= log@.len(),
    ensures
        commit_index <= r <= log@.len(),
        r == commit_index || commit_ok(cursors.deep_view(), log@, current_term, r),
        forall|m: u32|
            r < m <= log@.len() ==> !commit_ok(cursors.deep_view(), log@, current_term, m),
{
    // one less than the majority of the cluster (the leader included)
    let threshold = cursors.len() / 2 + cursors.len() % 2;
    proof {
        assert(threshold == majority_spec(1 + cursors@.len() as int) - 1);
    }
    let mut n = log.last_log_index();
    while n > commit_index
        invariant
            log.wf(),
            commit_index <= n <= log@.len(),
            threshold == majority_spec(1 + cursors@.len() as int) - 1,
            forall|m: u32|
                n < m <= log@.len() ==> !commit_ok(cursors.deep_view(), log@, current_term, m),
        decreases n,
    {
        if log.entries[(n - 1) as usize].term == current_term {
            let acks = count_matching_acks(cursors, n);
            if acks >= threshold {
                return n;
            }
        }
        n = n - 1;
    }
    n
}

/// How many cursors acknowledge index `n` or beyond.
fn count_matching_acks(cursors: &Vec<PeerCursor>, n: u32) -> (r: usize)
    ensures
        r == count_acks(cursors.deep_view(), n),
        r <= cursors@.len(),
{
    let ghost cv = cursors.deep_view();
    let mut i: usize = cursors.len();
    proof {
        assert(cursors@.len() <= usize::MAX);
    }
    let mut acks: usize = 0;
    while i > 0
        invariant
            i <= cursors@.len(),
            cursors@.len() <= usize::MAX,
            cv == cursors.deep_view(),
            acks == count_acks(cv.skip(i as int), n),
            acks <= cursors@.len() - i,
        decreases i,
    {
        i = i - 1;
        proof {
            assert(cv.skip(i as int)[0] == cv[i as int]);
            assert(cv.skip(i as int).skip(1) =~= cv.skip(i as int + 1));
            assert(cv[i as int] == cursors@[i as int]@);
        }
        if cursors[i].match_index >= n {
            acks = acks + 1;
        }
    }
    proof {
        assert(cv.skip(0) =~= cv);
    }
    acks
}

/// The position of the cursor for this address, scanning front to back.
fn find_cursor(cursors: &Vec<PeerCursor>, p: &Peer) -> (r: Option<usize>)
    ensures
        match r {
            Some(i) => i < cursors@.len() && cursors.deep_view()[i as int].peer == p@,
            None => !has_cursor(cursors.deep_view(), p@),
        },
{
    let mut i: usize = 0;
    while i < cursors.len()
        invariant
            i <= cursors@.len(),
            forall|k: int| 0 <= k < i ==> (#[trigger] cursors.deep_view()[k]).peer != p@,
        decreases cursors@.len() - i,
    {
        proof {
            assert(cursors.deep_view()[i as int] == cursors@[i as int]@);
        }
        if peer_eq(&cursors[i].peer, p) {
            return Some(i);
        }
        i = i + 1;
    }
    None
}

/// A copy of the cursor table with the acknowledging peer's cursor moved
/// forward to `ack`.
fn cursors_ack(cursors: &Vec<PeerCursor>, from: &Peer, ack: u32) -> (r: Vec<PeerCursor>)
    requires
        ack < u32::MAX,
    ensures
        r.deep_view() == acked_cursors(cursors.deep_view(), from@, ack),
{
    let mut r: Vec<PeerCursor> = Vec::new();
    let mut i: usize = 0;
    while i < cursors.len()
        invariant
            i <= cursors@.len(),
            ack < u32::MAX,
            r@.len() == i,
            forall|k: int|
                0 <= k < i ==> #[trigger] r@[k]@ == acked_cursors(
                    cursors.deep_view(),
                    from@,
                    ack,
                )[k],
        decreases cursors@.len() - i,
    {
        proof {
            assert(cursors.deep_view()[i as int] == cursors@[i as int]@);
        }
        if peer_eq(&cursors[i].peer, from) {
            r.push(PeerCursor { peer: cursors[i].peer.clone(), next_index: ack + 1, match_index: ack });
        } else {
            r.push(cursors[i].clone());
        }
        i = i + 1;
    }
    proof {
        assert(r.deep_view() =~= acked_cursors(cursors.deep_view(), from@, ack));
    }
    r
}

/// A copy of the cursor table with the rejecting peer's `next_index` backed
/// off by one, stopping at one.
fn cursors_backoff(cursors: &Vec<PeerCursor>, from: &Peer) -> (r: Vec<PeerCursor>)
    ensures
        r.deep_view() == backoff_cursors(cursors.deep_view(), from@),
{
    let mut r: Vec<PeerCursor> = Vec::new();
    let mut i: usize = 0;
    while i < cursors.len()
        invariant
            i <= cursors@.len(),
            r@.len() == i,
            forall|k: int|
                0 <= k < i ==> #[trigger] r@[k]@ == backoff_cursors(
                    cursors.deep_view(),
                    from@,
                )[k],
        decreases cursors@.len() - i,
    {
        proof {
            assert(cursors.deep_view()[i as int] == cursors@[i as int]@);
        }
        if peer_eq(&cursors[i].peer, from) {
            let next_index = if cursors[i].next_index > 1 {
                cursors[i].next_index - 1
            } else {
                1
            };
            r.push(PeerCursor {
                peer: cursors[i].peer.clone(),
                next_index,
                match_index: cursors[i].match_index,
            });
        } else {
            r.push(cursors[i].clone());
        }
        i = i + 1;
    }
    proof {
        assert(r.deep_view() =~= backoff_cursors(cursors.deep_view(), from@));
    }
    r
}

/// The consensus state of one node.
#[derive(Debug)]
pub struct RaftState {
    pub log: Log,
    pub voted_for: Option<Peer>,
    pub commit_index: u32,
    pub last_applied: u32,
    pub current_term: u32,
    pub current_state: ServerState,
}

impl View for RaftState {
    type V = RaftStateV;

    open spec fn view(&self) -> RaftStateV {
        RaftStateV {
            log: self.log@,
            voted_for: match self.voted_for {
                Some(p) => Some(p@),
                None => None,
            },
            commit_index: self.commit_index,
            last_applied: self.last_applied,
            current_term: self.current_term,
            role: self.current_state@,
        }
    }
}

impl RaftState {
    /// Well-formed: the log's tail counter is right and the ghost invariant
    /// holds.
    pub open spec fn wf(self) -> bool {
        &&& self.log.wf()
        &&& self@.inv()
    }

    /// A fresh node: Follower at term zero with an empty log.
    pub fn new() -> (s: RaftState)
        ensures
            s.wf(),
            s@.log.len() == 0,
            s@.voted_for is None,
            s@.commit_index == 0,
            s@.last_applied == 0,
            s@.current_term == 0,
            s@.role is Follower,
    {
        RaftState {
            log: Log::new(),
            voted_for: None,
            commit_index: 0,
            last_applied: 0,
            current_term: 0,
            current_state: ServerState::follower(),
        }
    }

    /// Enter the next term; the vote record of the finished term is cleared.
    pub fn inc_term(&mut self)
        requires
            old(self).wf(),
            old(self).current_term < u32::MAX,
        ensures
            final(self).wf(),
            step_ok(old(self)@, final(self)@),
            final(self)@ == (RaftStateV {
                current_term: (old(self)@.current_term + 1) as u32,
                voted_for: None,
                ..old(self)@
            }),
            final(self).log@ == old(self).log@,
            final(self).current_state@ == old(self).current_state@,
    {
        self.current_term = self.current_term + 1;
        self.voted_for = None;
    }

    /// Record a vote. A vote may only be placed when none stands in the
    /// current term, or for the peer already voted for.
    pub fn set_voted_for(&mut self, vote: Peer)
        requires
            old(self).wf(),
            old(self)@.voted_for is None || old(self)@.voted_for == Some(vote@),
        ensures
            final(self).wf(),
            step_ok(old(self)@, final(self)@),
            final(self)@ == (RaftStateV { voted_for: Some(vote@), ..old(self)@ }),
    {
        self.voted_for = Some(vote);
    }

    /// Forget the vote record. Only sound when the term moves on, so this
    /// demands a caller about to raise the term.
    pub fn clear_voted_for(&mut self)
        requires
            old(self).wf(),
        ensures
            final(self).wf(),
            final(self)@ == (RaftStateV { voted_for: None, ..old(self)@ }),
    {
        self.voted_for = None;
    }

    /// Fall back to Follower at `new_term` (at least the current term); a
    /// strictly greater term clears the vote record.
    pub fn convert_to_follower(&mut self, new_term: u32)
        requires
            old(self).wf(),
            old(self).current_term <= new_term,
        ensures
            final(self).wf(),
            step_ok(old(self)@, final(self)@),
            final(self)@ == (RaftStateV {
                current_term: new_term,
                voted_for: if new_term > old(self)@.current_term {
                    None
                } else {
                    old(self)@.voted_for
                },
                role: RoleV::Follower,
                ..old(self)@
            }),
    {
        if new_term > self.current_term {
            self.voted_for = None;
        }
        self.current_state = ServerState::follower();
        self.current_term = new_term;
    }

    /// Take leadership at `new_term`: one cursor per known peer, `next_index`
    /// one past the leader's last log index, `match_index` zero.
    pub fn convert_to_leader(&mut self, new_term: u32, state_machine: &StateMachine)
        requires
            old(self).wf(),
            state_machine.wf(),
            old(self).current_term <= new_term,
            old(self)@.log.len() < u32::MAX,
        ensures
            final(self).wf(),
            step_ok(old(self)@, final(self)@),
            final(self)@.log == old(self)@.log,
            final(self)@.commit_index == old(self)@.commit_index,
            final(self)@.last_applied == old(self)@.last_applied,
            final(self)@.current_term == new_term,
            final(self)@.voted_for == old(self)@.voted_for,
            final(self)@.role matches RoleV::Leader { cursors } && {
                &&& cursors.len() == state_machine.peers@.len()
                &&& forall|i: int| 0 <= i < cursors.len() ==> #[trigger] cursors[i] == (CursorV {
                    peer: state_machine.peers@[i]@,
                    next_index: (old(self)@.log.len() + 1) as u32,
                    match_index: 0,
                })
            },
    {
        self.current_state = ServerState::leader(
            crate::shared::clone_peers(&state_machine.peers),
            self.log.last_log_index(),
        );
        self.current_term = new_term;
        proof {
            let cursors = self@.role->Leader_cursors;
            assert forall|i: int, j: int| 0 <= i < j < cursors.len() implies (
            #[trigger] cursors[i]).peer != (#[trigger] cursors[j]).peer by {
                assert(cursors[i].peer == state_machine.peers.deep_view()[i]);
                assert(cursors[j].peer == state_machine.peers.deep_view()[j]);
            }
        }
    }

    /// The RequestVote broadcast for the current term.
    pub fn request_vote(&self, state_machine: &StateMachine) -> (msg: WSMessage)
        requires
            self.wf(),
        ensures
            msg@ == (WSMessageV::RequestVote {
                term: self@.current_term,
                candidate_id: state_machine.status_info.ip@,
                last_log_index: self@.log.len() as u32,
                last_log_term: last_term_of(self@.log),
            }),
    {
        WSMessage::RequestVote {
            term: self.current_term,
            candidate_id: state_machine.status_info.to_peer(),
            last_log_index: self.log.last_log_index(),
            last_log_term: self.log.last_log_term(),
        }
    }

    /// The AppendEntries message for a peer whose next expected entry is
    /// `next_index`: the consistency point just before it, every entry from
    /// it onward, and the leader's commit index.
    pub fn append_entries(&self, state_machine: &StateMachine, next_index: u32) -> (msg:
        WSMessage)
        requires
            self.wf(),
            1 <= next_index <= self@.log.len() + 1,
        ensures
            msg@ == (WSMessageV::AppendEntries {
                term: self@.current_term,
                leader_id: state_machine.status_info.ip@,
                prev_log_index: (next_index - 1) as u32,
                prev_log_term: term_at(self@.log, next_index - 1),
                entries: self@.log.skip(next_index - 1),
                leader_commit: self@.commit_index,
            }),
    {
        let prev_log_index = next_index - 1;
        let prev_log_term = if prev_log_index == 0 {
            0
        } else {
            self.log.entries[(prev_log_index - 1) as usize].term
        };
        let mut entries: Vec<LogEntry> = Vec::new();
        let mut i: usize = prev_log_index as usize;
        while i < self.log.entries.len()
            invariant
                prev_log_index <= i <= self.log.entries@.len(),
                entries@.len() == i - prev_log_index,
                forall|k: int|
                    0 <= k < entries@.len() ==> #[trigger] entries@[k]@ == self.log.entries@[
                        prev_log_index + k]@,
            decreases self.log.entries@.len() - i,
        {
            entries.push(self.log.entries[i].clone());
            i = i + 1;
        }
        proof {
            assert(entries.deep_view() =~= self@.log.skip(next_index - 1));
        }
        WSMessage::AppendEntries {
            term: self.current_term,
            leader_id: state_machine.status_info.to_peer(),
            prev_log_index,
            prev_log_term,
            entries,
            leader_commit: self.commit_index,
        }
    }

    /// The Tracker's vote rule: grant iff the request is for the current
    /// term, no conflicting vote stands, and the candidate's log is at least
    /// as up to date as ours; otherwise deny with no side effects.
    pub fn try_vote(
        &mut self,
        candidate: Peer,
        term: u32,
        candidate_last_log_term: u32,
        candidate_last_log_index: u32,
    ) -> (granted: bool)
        requires
            old(self).wf(),
        ensures
            final(self).wf(),
            step_ok(old(self)@, final(self)@),
            granted == (term == old(self)@.current_term && (old(self)@.voted_for is None || old(
                self,
            )@.voted_for == Some(candidate@)) && candidate_up_to_date(
                candidate_last_log_term,
                candidate_last_log_index,
                last_term_of(old(self)@.log),
                old(self)@.log.len() as u32,
            )),
            granted ==> final(self)@ == (RaftStateV {
                voted_for: Some(candidate@),
                ..old(self)@
            }),
            !granted ==> final(self)@ == old(self)@,
    {
        if term != self.current_term {
            return false;
        }
        let vote_free = match &self.voted_for {
            None => true,
            Some(p) => peer_eq(p, &candidate),
        };
        if !vote_free {
            return false;
        }
        let local_last_term = self.log.last_log_term();
        let local_last_index = self.log.last_log_index();
        if candidate_last_log_term > local_last_term || (candidate_last_log_term
            == local_last_term && candidate_last_log_index >= local_last_index) {
            self.voted_for = Some(candidate);
            true
        } else {
            false
        }
    }

    /// Start an election: become Candidate in the next term, vote for self,
    /// and hand back the RequestVote broadcast. In a single-node cluster the
    /// node's own vote is already a majority, so it becomes Leader at once.
    pub fn initiate_election(&mut self, state_machine: &StateMachine) -> (msg: WSMessage)
        requires
            old(self).wf(),
            state_machine.wf(),
            old(self).current_term < u32::MAX,
            old(self)@.log.len() < u32::MAX,
            state_machine.peers@.len() < usize::MAX - 1,
        ensures
            final(self).wf(),
            step_ok(old(self)@, final(self)@),
            election_post(
                old(self)@,
                final(self)@,
                state_machine.peers.deep_view(),
                state_machine.status_info.ip@,
                msg@,
            ),
    {
        self.current_state = ServerState::candidate(state_machine.status_info.clone());
        self.inc_term();
        let msg = self.request_vote(state_machine);
        self.set_voted_for(state_machine.status_info.to_peer());
        let cluster_size = 1 + state_machine.peers.len();
        if 1 >= majority(cluster_size) {
            let term = self.current_term;
            self.convert_to_leader(term, state_machine);
        }
        msg
    }

    /// The election timer fired unreset: a Follower or Candidate starts a
    /// new election; a Leader does nothing — its authority does not expire.
    pub fn handle_missed_heartbeat(&mut self, state_machine: &StateMachine) -> (msg: Option<
        WSMessage,
    >)
        requires
            old(self).wf(),
            state_machine.wf(),
            old(self).current_term < u32::MAX,
            old(self)@.log.len() < u32::MAX,
            state_machine.peers@.len() < usize::MAX - 1,
        ensures
            final(self).wf(),
            step_ok(old(self)@, final(self)@),
            old(self)@.role is Leader ==> final(self)@ == old(self)@ && msg is None,
            !(old(self)@.role is Leader) ==> (msg matches Some(m) && election_post(
                old(self)@,
                final(self)@,
                state_machine.peers.deep_view(),
                state_machine.status_info.ip@,
                m@,
            )),
    {
        match &self.current_state {
            ServerState::Leader { .. } => None,
            _ => Some(self.initiate_election(state_machine)),
        }
    }

    /// The leader's heartbeat fan-out: one AppendEntries per peer, each
    /// carrying the consistency point just before that peer's `next_index`
    /// and every entry from `next_index` onward. Empty for other roles.
    pub fn send_messages(&self, state_machine: &StateMachine) -> (msgs: Vec<(Peer, WSMessage)>)
        requires
            self.wf(),
        ensures
            match self@.role {
                RoleV::Leader { cursors } => {
                    &&& msgs@.len() == cursors.len()
                    &&& forall|i: int|
                        0 <= i < msgs@.len() ==> (#[trigger] msgs@[i]).0@ == cursors[i].peer
                            && msgs@[i].1@ == (WSMessageV::AppendEntries {
                            term: self@.current_term,
                            leader_id: state_machine.status_info.ip@,
                            prev_log_index: (cursors[i].next_index - 1) as u32,
                            prev_log_term: term_at(self@.log, cursors[i].next_index - 1),
                            entries: self@.log.skip(cursors[i].next_index - 1),
                            leader_commit: self@.commit_index,
                        })
                },
                RoleV::Follower => msgs@.len() == 0,
                RoleV::Candidate { .. } => msgs@.len() == 0,
            },
    {
        match &self.current_state {
            ServerState::Leader { cursors } => {
                let mut msgs: Vec<(Peer, WSMessage)> = Vec::new();
                let mut i: usize = 0;
                while i < cursors.len()
                    invariant
                        self.wf(),
                        i <= cursors@.len(),
                        self@.role == (RoleV::Leader { cursors: cursors.deep_view() }),
                        msgs@.len() == i,
                        forall|k: int|
                            0 <= k < i ==> (#[trigger] msgs@[k]).0@ == cursors@[k]@.peer
                                && msgs@[k].1@ == (WSMessageV::AppendEntries {
                                term: self@.current_term,
                                leader_id: state_machine.status_info.ip@,
                                prev_log_index: (cursors@[k]@.next_index - 1) as u32,
                                prev_log_term: term_at(self@.log, cursors@[k]@.next_index - 1),
                                entries: self@.log.skip(cursors@[k]@.next_index - 1),
                                leader_commit: self@.commit_index,
                            }),
                    decreases cursors@.len() - i,
                {
                    proof {
                        assert(leader_cursors_ok(cursors.deep_view(), self@.log.len() as int));
                        assert(cursors.deep_view()[i as int] == cursors@[i as int]@);
                        assert(1 <= cursors.deep_view()[i as int].next_index <= self@.log.len()
                            + 1);
                    }
                    let msg = self.append_entries(state_machine, cursors[i].next_index);
                    msgs.push((cursors[i].peer.clone(), msg));
                    i = i + 1;
                }
                proof {
                    assert(forall|k: int|
                        0 <= k < cursors.deep_view().len() ==> cursors.deep_view()[k]
                            == cursors@[k]@);
                }
                msgs
            },
            ServerState::Follower => Vec::new(),
            ServerState::Candidate { .. } => Vec::new(),
        }
    }

    /// Handle a RequestVote from a candidate, in any role: adopt a strictly
    /// greater term, then grant or deny by the Tracker's rule. Returns the
    /// reply and whether the election timer must be rearmed.
    pub fn handle_request_vote(
        &mut self,
        candidate_id: Peer,
        term: u32,
        last_log_index: u32,
        last_log_term: u32,
    ) -> (r: (WSMessage, bool))
        requires
            old(self).wf(),
        ensures
            final(self).wf(),
            step_ok(old(self)@, final(self)@),
            request_vote_post(
                old(self)@,
                final(self)@,
                candidate_id@,
                term,
                last_log_index,
                last_log_term,
                r.0@,
                r.1,
            ),
    {
        if term > self.current_term {
            self.convert_to_follower(term);
        }
        let granted = self.try_vote(candidate_id, term, last_log_term, last_log_index);
        let reply = WSMessage::RequestVoteResponse {
            term: self.current_term,
            vote_granted: granted,
        };
        (reply, granted)
    }

    /// Handle a RequestVoteResponse: a candidate tallies a granted vote of
    /// its term once per voter and takes leadership on reaching a majority
    /// of the cluster. Returns whether this node is now the Leader.
    pub fn handle_request_vote_response(
        &mut self,
        state_machine: &StateMachine,
        from: Peer,
        term: u32,
        vote_granted: bool,
    ) -> (is_leader: bool)
        requires
            old(self).wf(),
            state_machine.wf(),
            old(self)@.log.len() < u32::MAX,
            state_machine.peers@.len() < usize::MAX - 1,
        ensures
            final(self).wf(),
            step_ok(old(self)@, final(self)@),
            vote_response_post(
                old(self)@,
                final(self)@,
                from@,
                term,
                vote_granted,
                state_machine.peers.deep_view(),
            ),
            is_leader == (final(self)@.role is Leader),
    {
        if term > self.current_term {
            self.convert_to_follower(term);
            return false;
        }
        let stale = term != self.current_term || !vote_granted;
        match &self.current_state {
            ServerState::Candidate { votes_received } => {
                if stale {
                    return false;
                }
                if crate::shared::contains_peer(votes_received, &from) {
                    return false;
                }
                let mut new_votes = crate::shared::clone_peers(votes_received);
                let ghost votes0 = votes_received.deep_view();
                new_votes.push(from);
                proof {
                    assert(new_votes.deep_view() =~= votes0.push(from@));
                }
                let tally = new_votes.len();
                self.current_state = ServerState::Candidate { votes_received: new_votes };
                let cluster_size = 1 + state_machine.peers.len();
                if tally >= majority(cluster_size) {
                    let term_now = self.current_term;
                    self.convert_to_leader(term_now, state_machine);
                    proof {
                        assert(self@.role->Leader_cursors =~= fresh_cursors(
                            state_machine.peers.deep_view(),
                            old(self)@.log.len() as int,
                        ));
                    }
                    true
                } else {
                    false
                }
            },
            ServerState::Leader { .. } => true,
            ServerState::Follower => false,
        }
    }

    /// Handle an AppendEntriesResponse as described by [`ae_response_post`]:
    /// move the sender's cursor and advance the commit index on success,
    /// back off on failure, discard stale or malformed acknowledgements.
    pub fn handle_append_entries_response(
        &mut self,
        from: Peer,
        term: u32,
        success: bool,
        match_index: Option<u32>,
    )
        requires
            old(self).wf(),
            old(self)@.log.len() < u32::MAX,
        ensures
            final(self).wf(),
            step_ok(old(self)@, final(self)@),
            ae_response_post(old(self)@, final(self)@, from@, term, success, match_index),
    {
        if term > self.current_term {
            self.convert_to_follower(term);
            return ;
        }
        if term < self.current_term {
            return ;
        }
        match &self.current_state {
            ServerState::Leader { cursors } => {
                proof {
                    assert(leader_cursors_ok(cursors.deep_view(), self@.log.len() as int));
                }
                if success {
                    match match_index {
                        Some(ack) => {
                            if ack <= self.log.last_log_index() {
                                let new_cursors = cursors_ack(cursors, &from, ack);
                                let new_commit = compute_commit_index(
                                    &new_cursors,
                                    &self.log,
                                    self.current_term,
                                    self.commit_index,
                                );
                                self.current_state = ServerState::Leader {
                                    cursors: new_cursors,
                                };
                                self.commit_index = new_commit;
                            }
                        },
                        None => {},
                    }
                } else {
                    let new_cursors = cursors_backoff(cursors, &from);
                    self.current_state = ServerState::Leader { cursors: new_cursors };
                }
            },
            ServerState::Follower => {},
            ServerState::Candidate { .. } => {},
        }
    }

    /// A peer joined the cluster while this node leads: give it replication
    /// cursors, `next_index` one past the leader's tail and `match_index`
    /// zero. The table is a set: an address already tracked is not added
    /// again. Any other role keeps no cursors, so there is nothing to do;
    /// the membership table itself is the state machine's affair.
    pub fn add_peer(&mut self, peer: Peer)
        requires
            old(self).wf(),
            old(self)@.log.len() < u32::MAX,
        ensures
            final(self).wf(),
            step_ok(old(self)@, final(self)@),
            old(self)@.role matches RoleV::Leader { cursors } ==> {
                &&& has_cursor(cursors, peer@) ==> final(self)@ == old(self)@
                &&& !has_cursor(cursors, peer@) ==> final(self)@ == (RaftStateV {
                    role: RoleV::Leader {
                        cursors: cursors.push(
                            CursorV {
                                peer: peer@,
                                next_index: (old(self)@.log.len() + 1) as u32,
                                match_index: 0,
                            },
                        ),
                    },
                    ..old(self)@
                })
            },
            !(old(self)@.role is Leader) ==> final(self)@ == old(self)@,
    {
        match &self.current_state {
            ServerState::Leader { cursors } => {
                if find_cursor(cursors, &peer).is_some() {
                    return ;
                }
                let ghost cursors0 = cursors.deep_view();
                let mut new_cursors = crate::shared::clone_cursors(cursors);
                new_cursors.push(PeerCursor {
                    peer,
                    next_index: self.log.last_log_index() + 1,
                    match_index: 0,
                });
                proof {
                    let added = CursorV {
                        peer: peer@,
                        next_index: (old(self)@.log.len() + 1) as u32,
                        match_index: 0,
                    };
                    assert(new_cursors.deep_view() =~= cursors0.push(added));
                    assert forall|i: int, j: int|
                        0 <= i < j < cursors0.push(added).len() implies (
                    #[trigger] cursors0.push(added)[i]).peer != (#[trigger] cursors0.push(
                        added,
                    )[j]).peer by {
                        if j == cursors0.len() {
                            assert(cursors0.push(added)[i] == cursors0[i]);
                            assert(cursors0[i].peer != peer@);
                        } else {
                            assert(cursors0.push(added)[i] == cursors0[i]);
                            assert(cursors0.push(added)[j] == cursors0[j]);
                        }
                    }
                }
                self.current_state = ServerState::Leader { cursors: new_cursors };
            },
            ServerState::Follower => {},
            ServerState::Candidate { .. } => {},
        }
    }

    /// A peer left the cluster while this node leads: drop its replication
    /// cursor, so the majority is counted over the members that remain. An
    /// address that is not tracked, or any other role, changes nothing.
    pub fn remove_peer(&mut self, peer: &Peer)
        requires
            old(self).wf(),
        ensures
            final(self).wf(),
            step_ok(old(self)@, final(self)@),
            old(self)@.role matches RoleV::Leader { cursors } ==> {
                &&& !has_cursor(cursors, peer@) ==> final(self)@ == old(self)@
                &&& has_cursor(cursors, peer@) ==> final(self)@ == (RaftStateV {
                    role: RoleV::Leader {
                        cursors: cursors.remove(cursor_index_of(cursors, peer@)),
                    },
                    ..old(self)@
                })
            },
            !(old(self)@.role is Leader) ==> final(self)@ == old(self)@,
    {
        match &self.current_state {
            ServerState::Leader { cursors } => {
                let ghost cursors0 = cursors.deep_view();
                match find_cursor(cursors, peer) {
                    Some(i) => {
                        let mut new_cursors = crate::shared::clone_cursors(cursors);
                        new_cursors.remove(i);
                        proof {
                            assert(cursors0[i as int].peer == peer@);
                            assert(has_cursor(cursors0, peer@));
                            let j = cursor_index_of(cursors0, peer@);
                            assert(0 <= j < cursors0.len() && cursors0[j].peer == peer@);
                            // addresses are distinct, so the found index is the one
                            assert(j == i) by {
                                if j < i {
                                    assert(cursors0[j].peer != cursors0[i as int].peer);
                                } else if j > i {
                                    assert(cursors0[i as int].peer != cursors0[j].peer);
                                }
                            }
                            let removed = cursors0.remove(i as int);
                            assert(new_cursors.deep_view() =~= removed) by {
                                assert forall|k: int| 0 <= k < removed.len() implies
                                    new_cursors.deep_view()[k] == removed[k] by {
                                    if k < i {
                                        assert(new_cursors@[k]@ == cursors0[k]);
                                        assert(removed[k] == cursors0[k]);
                                    } else {
                                        assert(new_cursors@[k]@ == cursors0[k + 1]);
                                        assert(removed[k] == cursors0[k + 1]);
                                    }
                                }
                            }
                            assert(cursor_peers_distinct(removed)) by {
                                assert forall|a: int, b: int|
                                    0 <= a < b < removed.len() implies (
                                #[trigger] removed[a]).peer != (#[trigger] removed[b]).peer by {
                                    let a0 = if a < i { a } else { a + 1 };
                                    let b0 = if b < i { b } else { b + 1 };
                                    assert(removed[a] == cursors0[a0]);
                                    assert(removed[b] == cursors0[b0]);
                                    assert(cursors0[a0].peer != cursors0[b0].peer);
                                }
                            }
                            assert(leader_cursors_ok(removed, self@.log.len() as int)) by {
                                assert forall|k: int| 0 <= k < removed.len() implies 1 <= (
                                #[trigger] removed[k]).next_index <= self@.log.len() + 1
                                    && removed[k].match_index <= self@.log.len() by {
                                    let k0 = if k < i { k } else { k + 1 };
                                    assert(removed[k] == cursors0[k0]);
                                }
                            }
                        }
                        self.current_state = ServerState::Leader { cursors: new_cursors };
                    },
                    None => {},
                }
            },
            ServerState::Follower => {},
            ServerState::Candidate { .. } => {},
        }
    }

    /// Handle an AppendEntries from a leader, in any role, as described by
    /// [`append_entries_post`]. Returns the reply, if any, and whether the
    /// election timer must be rearmed.
    pub fn handle_append_entries(
        &mut self,
        term: u32,
        leader_id: Peer,
        prev_log_index: u32,
        prev_log_term: u32,
        entries: Vec<LogEntry>,
        leader_commit: u32,
    ) -> (r: (Option<WSMessage>, bool))
        requires
            old(self).wf(),
        ensures
            final(self).wf(),
            step_ok(old(self)@, final(self)@),
            append_entries_post(
                old(self)@,
                final(self)@,
                term,
                prev_log_index,
                prev_log_term,
                entries.deep_view(),
                leader_commit,
                opt_msg_view(r.0),
                r.1,
            ),
    {
        if term < self.current_term {
            let reply = WSMessage::AppendEntriesResponse {
                term: self.current_term,
                success: false,
                match_index: None,
            };
            return (Some(reply), false);
        }
        self.convert_to_follower(term);
        if !self.log.consistency_check(prev_log_index, prev_log_term) {
            let reply = WSMessage::AppendEntriesResponse {
                term,
                success: false,
                match_index: None,
            };
            return (Some(reply), true);
        }
        if !entries_batch_check(&self.log, term, prev_log_index, prev_log_term, &entries) {
            return (None, true);
        }
        if !conflict_check(&self.log, self.commit_index, &entries) {
            return (None, true);
        }
        let ghost s0 = self@.log;
        let ghost new = entries.deep_view();
        proof {
            assert(mergeable(s0, new)) by {
                if new.len() > 0 {
                    assert(new[0].index == prev_log_index + 1);
                    if prev_log_index > 0 {
                        assert(s0[prev_log_index - 1].term == prev_log_term);
                    }
                }
            }
            crate::log::lemma_merge_spec_props(s0, new);
            crate::log::lemma_merge_preserves_below(s0, new, self.commit_index);
            crate::log::lemma_merge_last_term(s0, new);
            assert(new.len() <= u32::MAX);
        }
        let n_entries = entries.len() as u32;
        self.log.merge_from(entries);
        let match_idx = prev_log_index + n_entries;
        let mut target = leader_commit;
        if match_idx < target {
            target = match_idx;
        }
        if target > self.commit_index {
            self.commit_index = target;
        }
        let reply = WSMessage::AppendEntriesResponse {
            term,
            success: true,
            match_index: Some(match_idx),
        };
        (Some(reply), true)
    }

    /// The applier: commit index moved ahead of the apply cursor, so apply
    /// the entries in between — each exactly once, in strictly increasing
    /// order — to the application state, and catch the cursor up.
    pub fn apply_committed(&mut self, state_machine: &mut StateMachine)
        requires
            old(self).wf(),
            old(state_machine).wf(),
            old(state_machine).next_id + old(self)@.commit_index - old(self)@.last_applied
                <= u32::MAX,
        ensures
            final(self).wf(),
            step_ok(old(self)@, final(self)@),
            final(self)@ == (RaftStateV { last_applied: old(self)@.commit_index, ..old(self)@ }),
            final(state_machine).wf(),
            final(state_machine).peers@ == old(state_machine).peers@,
            final(state_machine).status_info == old(state_machine).status_info,
            (final(state_machine).users.deep_view(), final(state_machine).next_id)
                == crate::state_machine::apply_seq_spec(
                old(state_machine).users.deep_view(),
                old(state_machine).next_id,
                crate::log::commands_between(
                    old(self)@.log,
                    old(self)@.last_applied as int,
                    old(self)@.commit_index as int,
                ),
            ),
    {
        let ghost users0 = state_machine.users.deep_view();
        let ghost id0 = state_machine.next_id;
        let ghost all = crate::log::commands_between(
            old(self)@.log,
            old(self)@.last_applied as int,
            old(self)@.commit_index as int,
        );
        while self.last_applied < self.commit_index
            invariant
                self.wf(),
                state_machine.wf(),
                old(self)@.last_applied <= self.last_applied <= self.commit_index,
                self@ == (RaftStateV { last_applied: self@.last_applied, ..old(self)@ }),
                state_machine.next_id + self.commit_index - self.last_applied <= u32::MAX,
                state_machine.peers@ == old(state_machine).peers@,
                state_machine.status_info == old(state_machine).status_info,
                crate::state_machine::apply_seq_spec(users0, id0, all)
                    == crate::state_machine::apply_seq_spec(
                    state_machine.users.deep_view(),
                    state_machine.next_id,
                    crate::log::commands_between(
                        old(self)@.log,
                        self.last_applied as int,
                        self.commit_index as int,
                    ),
                ),
            decreases self.commit_index - self.last_applied,
        {
            let ghost la = self.last_applied as int;
            let ghost rest = crate::log::commands_between(
                old(self)@.log,
                la,
                self.commit_index as int,
            );
            let idx = self.last_applied + 1;
            proof {
                assert(rest.len() > 0);
                assert(rest[0] == self@.log[la].command);
            }
            match &self.log.entries[(idx - 1) as usize].command {
                crate::log::Command::AddUser { name, email } => {
                    let command = Command::AddUser { name: name.clone(), email: email.clone() };
                    proof {
                        assert(command@ == self@.log[la].command);
                    }
                    state_machine.apply_command(&command);
                },
            }
            self.last_applied = idx;
            proof {
                assert(rest.skip(1) =~= crate::log::commands_between(
                    old(self)@.log,
                    la + 1,
                    self.commit_index as int,
                ));
            }
        }
        proof {
            assert(crate::log::commands_between(
                old(self)@.log,
                self.last_applied as int,
                self.commit_index as int,
            ) =~= Seq::<crate::log::CommandV>::empty());
        }
    }

    /// The single entry point for network input: dispatch on the message,
    /// exhaustively, to the handler whose contract describes the transition.
    pub fn handle_message(
        &mut self,
        state_machine: &StateMachine,
        from: Peer,
        msg: WSMessage,
    ) -> (out: MessageOutcome)
        requires
            old(self).wf(),
            state_machine.wf(),
            old(self)@.log.len() < u32::MAX,
            state_machine.peers@.len() < usize::MAX - 1,
        ensures
            final(self).wf(),
            step_ok(old(self)@, final(self)@),
            (msg@ matches WSMessageV::AppendEntries {
                term,
                prev_log_index,
                prev_log_term,
                entries,
                leader_commit,
                ..
            } ==> append_entries_post(
                old(self)@,
                final(self)@,
                term,
                prev_log_index,
                prev_log_term,
                entries,
                leader_commit,
                opt_msg_view(out.reply),
                out.reset_timer,
            )),
            (msg@ matches WSMessageV::AppendEntriesResponse { term, success, match_index }
                ==> ae_response_post(old(self)@, final(self)@, from@, term, success, match_index)
                && out.reply is None && !out.reset_timer),
            (msg@ matches WSMessageV::RequestVote {
                term,
                candidate_id,
                last_log_index,
                last_log_term,
            } ==> (out.reply matches Some(m) && request_vote_post(
                old(self)@,
                final(self)@,
                candidate_id,
                term,
                last_log_index,
                last_log_term,
                m@,
                out.reset_timer,
            ))),
            (msg@ matches WSMessageV::RequestVoteResponse { term, vote_granted }
                ==> vote_response_post(
                old(self)@,
                final(self)@,
                from@,
                term,
                vote_granted,
                state_machine.peers.deep_view(),
            ) && out.reply is None && !out.reset_timer),
    {
        match msg {
            WSMessage::AppendEntries {
                term,
                leader_id,
                prev_log_index,
                prev_log_term,
                entries,
                leader_commit,
            } => {
                let (reply, reset_timer) = self.handle_append_entries(
                    term,
                    leader_id,
                    prev_log_index,
                    prev_log_term,
                    entries,
                    leader_commit,
                );
                MessageOutcome { reply, reset_timer }
            },
            WSMessage::AppendEntriesResponse { term, success, match_index } => {
                self.handle_append_entries_response(from, term, success, match_index);
                MessageOutcome { reply: None, reset_timer: false }
            },
            WSMessage::RequestVote { term, candidate_id, last_log_index, last_log_term } => {
                let (reply, reset_timer) = self.handle_request_vote(
                    candidate_id,
                    term,
                    last_log_index,
                    last_log_term,
                );
                MessageOutcome { reply: Some(reply), reset_timer }
            },
            WSMessage::RequestVoteResponse { term, vote_granted } => {
                self.handle_request_vote_response(state_machine, from, term, vote_granted);
                MessageOutcome { reply: None, reset_timer: false }
            },
        }
    }

    /// A client command arrives: the Leader appends it to its own log at the
    /// current term — replication follows on the heartbeat cadence — and
    /// any other role refuses with the "not leader" signal. The commit index
    /// is recomputed at once: in a single-node cluster the leader's own copy
    /// is already the majority.
    pub fn submit_command(&mut self, command: Command) -> (r: Result<u32, NotLeaderError>)
        requires
            old(self).wf(),
            old(self)@.log.len() < u32::MAX,
        ensures
            final(self).wf(),
            step_ok(old(self)@, final(self)@),
            old(self)@.role is Leader ==> (r matches Ok(index) && {
                let appended = old(self)@.log.push(
                    LogEntryV { index, term: old(self)@.current_term, command: command@ },
                );
                let cursors = old(self)@.role->Leader_cursors;
                &&& index == old(self)@.log.len() + 1
                &&& final(self)@.log == appended
                &&& final(self)@.voted_for == old(self)@.voted_for
                &&& final(self)@.current_term == old(self)@.current_term
                &&& final(self)@.last_applied == old(self)@.last_applied
                &&& final(self)@.role == old(self)@.role
                &&& old(self)@.commit_index <= final(self)@.commit_index <= appended.len()
                &&& (final(self)@.commit_index == old(self)@.commit_index || commit_ok(
                    cursors,
                    appended,
                    old(self)@.current_term,
                    final(self)@.commit_index,
                ))
                &&& forall|m: u32|
                    final(self)@.commit_index < m <= appended.len() ==> !commit_ok(
                        cursors,
                        appended,
                        old(self)@.current_term,
                        m,
                    )
            }),
            !(old(self)@.role is Leader) ==> r is Err && final(self)@ == old(self)@,
    {
        match &self.current_state {
            ServerState::Leader { cursors } => {
                let term = self.current_term;
                let index = self.log.update_log(term, command);
                let new_commit = compute_commit_index(
                    cursors,
                    &self.log,
                    term,
                    self.commit_index,
                );
                self.commit_index = new_commit;
                Ok(index)
            },
            ServerState::Follower => Err(NotLeaderError),
            ServerState::Candidate { .. } => Err(NotLeaderError),
        }
    }
}

} // verus!
