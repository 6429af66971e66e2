//! The safety statements of the protocol, proved over whole executions.
//!
//! A node's life is a sequence of consensus states in which every adjacent
//! pair is one transition of the role state machine; every public mutator in
//! [`crate::raft_state`] ensures [`step_ok`] for the pair it produces. The
//! lemmas here lift those single-step guarantees to any two points of an
//! execution, and [`lemma_election_safety`] shows why two leaders cannot
//! coexist in one term: two majorities of one cluster always share a voter,
//! and a voter grants at most one vote per term.

use vstd::prelude::*;
use vstd::set_lib::{lemma_len_subset, lemma_set_intersect_union_lens};

use crate::raft_state::{majority_spec, step_ok, RaftStateV};

verus! {

/// An execution: every adjacent pair of states is one transition.
pub open spec fn trace_ok(trace: Seq<RaftStateV>) -> bool {
    forall|i: int| 0 <= i < trace.len() - 1 ==> step_ok(#[trigger] trace[i], trace[i + 1])
}

/// The current term never decreases over an execution.
pub proof fn lemma_term_monotonic(trace: Seq<RaftStateV>, i: int, j: int)
    requires
        trace_ok(trace),
        0 <= i <= j < trace.len(),
    ensures
        trace[i].current_term <= trace[j].current_term,
    decreases j - i,
{
    if i < j {
        lemma_term_monotonic(trace, i, j - 1);
        assert(step_ok(trace[j - 1], trace[j]));
    }
}

/// The commit index and the apply cursor never decrease over an execution,
/// and the apply cursor never passes the commit index.
pub proof fn lemma_commit_monotonic(trace: Seq<RaftStateV>, i: int, j: int)
    requires
        trace_ok(trace),
        0 <= i <= j < trace.len(),
    ensures
        trace[i].commit_index <= trace[j].commit_index,
        trace[i].last_applied <= trace[j].last_applied,
    decreases j - i,
{
    if i < j {
        lemma_commit_monotonic(trace, i, j - 1);
        assert(step_ok(trace[j - 1], trace[j]));
    }
}

/// Once committed, an entry never changes: everything below the commit index
/// stays word for word as it was, for the rest of the execution.
pub proof fn lemma_committed_entries_stable(trace: Seq<RaftStateV>, i: int, j: int)
    requires
        trace_ok(trace),
        0 <= i <= j < trace.len(),
        trace[i].inv(),
    ensures
        trace[j].log.len() >= trace[i].commit_index,
        forall|n: int|
            0 <= n < trace[i].commit_index ==> #[trigger] trace[j].log[n] == trace[i].log[n],
    decreases j - i,
{
    if i < j {
        lemma_committed_entries_stable(trace, i, j - 1);
        lemma_commit_monotonic(trace, i, j - 1);
        assert(step_ok(trace[j - 1], trace[j]));
    }
}

/// Leader append-only: while a node stays Leader, its log only grows, and
/// what was in it is never deleted or overwritten.
pub proof fn lemma_leader_append_only(trace: Seq<RaftStateV>, i: int, j: int)
    requires
        trace_ok(trace),
        0 <= i <= j < trace.len(),
        forall|k: int| i <= k <= j ==> (#[trigger] trace[k]).role is Leader,
    ensures
        trace[j].log.len() >= trace[i].log.len(),
        forall|n: int|
            0 <= n < trace[i].log.len() ==> #[trigger] trace[j].log[n] == trace[i].log[n],
    decreases j - i,
{
    if i < j {
        lemma_leader_append_only(trace, i, j - 1);
        assert(trace[j - 1].role is Leader);
        assert(trace[j].role is Leader);
        assert(step_ok(trace[j - 1], trace[j]));
    }
}

/// Vote exclusivity: within one term a node grants at most one vote. If the
/// term is the same at two points of an execution and a vote stands at both,
/// it is the same vote: a vote record survives every transition that does
/// not raise the term, and raising it cannot bring the term back.
pub proof fn lemma_vote_exclusivity(
    trace: Seq<RaftStateV>,
    i: int,
    j: int,
    c1: Seq<char>,
    c2: Seq<char>,
)
    requires
        trace_ok(trace),
        0 <= i <= j < trace.len(),
        trace[i].current_term == trace[j].current_term,
        trace[i].voted_for == Some(c1),
        trace[j].voted_for == Some(c2),
    ensures
        c1 == c2,
    decreases j - i,
{
    if i < j {
        lemma_term_monotonic(trace, i, i + 1);
        lemma_term_monotonic(trace, i + 1, j);
        assert(trace[i + 1].current_term == trace[i].current_term);
        assert(step_ok(trace[i], trace[i + 1]));
        assert(trace[i + 1].voted_for == Some(c1));
        lemma_vote_exclusivity(trace, i + 1, j, c1, c2);
    }
}

/// Election safety: at most one Leader exists per term. Becoming Leader
/// takes a majority of the cluster's votes for that term, a voter grants at
/// most one vote per term (see [`lemma_vote_exclusivity`]), and two
/// majorities of one finite cluster always share a voter — so the vote that
/// the shared voter granted names both candidates, and they are one.
pub proof fn lemma_election_safety(
    universe: Set<Seq<char>>,
    votes1: Set<Seq<char>>,
    votes2: Set<Seq<char>>,
    vote_of: Map<Seq<char>, Seq<char>>,
    c1: Seq<char>,
    c2: Seq<char>,
)
    requires
        universe.finite(),
        votes1.subset_of(universe),
        votes2.subset_of(universe),
        votes1.len() >= majority_spec(universe.len() as int),
        votes2.len() >= majority_spec(universe.len() as int),
        forall|v: Seq<char>|
            votes1.contains(v) ==> vote_of.contains_key(v) && vote_of[v] == c1,
        forall|v: Seq<char>|
            votes2.contains(v) ==> vote_of.contains_key(v) && vote_of[v] == c2,
    ensures
        c1 == c2,
{
    lemma_len_subset(votes1, universe);
    lemma_len_subset(votes2, universe);
    lemma_set_intersect_union_lens(votes1, votes2);
    assert(votes1.union(votes2).subset_of(universe));
    lemma_len_subset(votes1.union(votes2), universe);
    let n = universe.len() as int;
    assert(2 * (n / 2) >= n - 1);
    assert(votes1.intersect(votes2).len() >= 1);
    let v = votes1.intersect(votes2).choose();
    assert(votes1.intersect(votes2).contains(v));
    assert(votes1.contains(v));
    assert(votes2.contains(v));
    assert(c1 == vote_of[v]);
    assert(c2 == vote_of[v]);
}

} // verus!
