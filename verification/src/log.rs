//! The log store: an ordered, append-only sequence of term-tagged command
//! entries, with the consistency-check and conflict-resolution primitives of
//! the replication protocol.
//!
//! Indices are 1-based, contiguous and unique; the term is non-decreasing
//! along the log.

use vstd::prelude::*;

verus! {

/// An opaque operation applied to the application state once committed.
#[derive(Debug, PartialEq, Eq)]
pub enum Command {
    AddUser { name: String, email: String },
}

/// The ghost image of a command.
pub enum CommandV {
    AddUser { name: Seq<char>, email: Seq<char> },
}

impl View for Command {
    type V = CommandV;

    open spec fn view(&self) -> CommandV {
        match self {
            Command::AddUser { name, email } => CommandV::AddUser {
                name: name@,
                email: email@,
            },
        }
    }
}

impl DeepView for Command {
    type V = CommandV;

    open spec fn deep_view(&self) -> CommandV {
        self@
    }
}

impl Clone for Command {
    fn clone(&self) -> (r: Self)
        ensures
            r@ == self@,
    {
        match self {
            Command::AddUser { name, email } => Command::AddUser {
                name: name.clone(),
                email: email.clone(),
            },
        }
    }
}

/// Anything the request layer can turn into a log command.
pub trait ToCommand {
    fn to_command(&self) -> Command;
}

/// One replicated log slot: a 1-based index, the term under which the leader
/// appended the entry, and the command itself.
#[derive(Debug, PartialEq, Eq)]
pub struct LogEntry {
    pub index: u32,
    pub term: u32,
    pub command: Command,
}

/// The ghost image of a log entry.
pub struct LogEntryV {
    pub index: u32,
    pub term: u32,
    pub command: CommandV,
}

impl View for LogEntry {
    type V = LogEntryV;

    open spec fn view(&self) -> LogEntryV {
        LogEntryV { index: self.index, term: self.term, command: self.command@ }
    }
}

impl DeepView for LogEntry {
    type V = LogEntryV;

    open spec fn deep_view(&self) -> LogEntryV {
        self@
    }
}

impl Clone for LogEntry {
    fn clone(&self) -> (r: Self)
        ensures
            r@ == self@,
    {
        LogEntry { index: self.index, term: self.term, command: self.command.clone() }
    }
}

/// Entries are 1-based, contiguous, and carry non-decreasing terms.
pub open spec fn entries_wf(s: Seq<LogEntryV>) -> bool {
    &&& forall|i: int| 0 <= i < s.len() ==> (#[trigger] s[i]).index == i + 1
    &&& forall|i: int, j: int|
        0 <= i <= j < s.len() ==> #[trigger] s[i].term <= #[trigger] s[j].term
}

/// The term recorded at 1-based position `i`, or zero for position zero
/// (the empty prefix) and for positions beyond the log.
pub open spec fn term_at(s: Seq<LogEntryV>, i: int) -> u32 {
    if 1 <= i <= s.len() {
        s[i - 1].term
    } else {
        0
    }
}

/// The term of the last entry, or zero for an empty log.
pub open spec fn last_term_of(s: Seq<LogEntryV>) -> u32 {
    term_at(s, s.len() as int)
}

/// The consistency check of the replication protocol: position `prev_index`
/// either names the empty prefix or holds an entry of term `prev_term`.
pub open spec fn consistency_ok(s: Seq<LogEntryV>, prev_index: u32, prev_term: u32) -> bool {
    prev_index == 0 || (prev_index <= s.len() && s[prev_index - 1].term == prev_term)
}

/// What a batch of incoming entries must look like to be merged into `s`:
/// contiguous 1-based indices starting no further than one past the tail,
/// non-decreasing terms, and a first term no smaller than the local term at
/// the position just before the batch.
pub open spec fn mergeable(s: Seq<LogEntryV>, new: Seq<LogEntryV>) -> bool {
    &&& forall|k: int| 0 <= k < new.len() ==> (#[trigger] new[k]).index == new[0].index + k
    &&& forall|k: int, l: int|
        0 <= k <= l < new.len() ==> #[trigger] new[k].term <= #[trigger] new[l].term
    &&& new.len() > 0 ==> {
        &&& 1 <= new[0].index <= s.len() + 1
        &&& term_at(s, new[0].index - 1) <= new[0].term
    }
    &&& s.len() + new.len() <= u32::MAX
}

/// The merge rule: on the first incoming entry whose position already holds
/// an entry of a differing term, delete that entry and everything after it,
/// then append the incoming entries from that point on; entries whose
/// position and term already match are kept; entries beyond the tail are
/// appended.
pub open spec fn merge_spec(s: Seq<LogEntryV>, new: Seq<LogEntryV>) -> Seq<LogEntryV>
    decreases new.len(),
{
    if new.len() == 0 {
        s
    } else {
        let e = new[0];
        if e.index - 1 < s.len() {
            if s[e.index - 1].term == e.term {
                merge_spec(s, new.skip(1))
            } else {
                s.take(e.index - 1) + new
            }
        } else {
            s + new
        }
    }
}

/// No incoming entry at or below position `floor` contradicts the local log;
/// a merge then leaves the prefix up to `floor` untouched.
pub open spec fn conflict_free_below(
    s: Seq<LogEntryV>,
    new: Seq<LogEntryV>,
    floor: u32,
) -> bool {
    forall|k: int|
        0 <= k < new.len() && (#[trigger] new[k]).index <= floor && new[k].index - 1 < s.len()
            ==> s[new[k].index - 1].term == new[k].term
}

/// Structural facts about a merge: the result is well formed, every incoming
/// entry is present at its position with its term, the prefix before the
/// batch is untouched, and the length is bounded on both sides.
pub proof fn lemma_merge_spec_props(s: Seq<LogEntryV>, new: Seq<LogEntryV>)
    requires
        entries_wf(s),
        mergeable(s, new),
    ensures
        entries_wf(merge_spec(s, new)),
        new.len() == 0 ==> merge_spec(s, new) == s,
        new.len() > 0 ==> merge_spec(s, new).len() >= new[0].index - 1 + new.len(),
        merge_spec(s, new).len() <= s.len() + new.len(),
        merge_spec(s, new).len() >= s.len() || (new.len() > 0 && merge_spec(s, new).len()
            == new[0].index - 1 + new.len()),
        forall|k: int|
            0 <= k < new.len() ==> merge_spec(s, new)[(#[trigger] new[k]).index - 1].term
                == new[k].term,
        forall|i: int|
            new.len() > 0 && 0 <= i < new[0].index - 1 ==> #[trigger] merge_spec(s, new)[i]
                == s[i],
    decreases new.len(),
{
    if new.len() == 0 {
    } else {
        let e = new[0];
        let merged = merge_spec(s, new);
        if e.index - 1 < s.len() {
            if s[e.index - 1].term == e.term {
                assert forall|k: int, l: int| 0 <= k <= l < new.skip(1).len() implies
                    #[trigger] new.skip(1)[k].term <= #[trigger] new.skip(1)[l].term by {
                    assert(new.skip(1)[k] == new[k + 1]);
                    assert(new.skip(1)[l] == new[l + 1]);
                }
                assert(mergeable(s, new.skip(1))) by {
                    assert(forall|k: int|
                        0 <= k < new.skip(1).len() ==> (#[trigger] new.skip(1)[k]).index
                            == new.skip(1)[0].index + k);
                }
                lemma_merge_spec_props(s, new.skip(1));
                assert forall|k: int| 0 <= k < new.len() implies merged[(
                #[trigger] new[k]).index - 1].term == new[k].term by {
                    if k == 0 {
                        if new.len() == 1 {
                        } else {
                            assert(merged[e.index - 1] == s[e.index - 1]);
                        }
                    } else {
                        assert(new.skip(1)[k - 1] == new[k]);
                    }
                }
            } else {
                let merged2 = s.take(e.index - 1) + new;
                assert(merged == merged2);
                assert forall|i: int| 0 <= i < merged2.len() implies (
                #[trigger] merged2[i]).index == i + 1 by {
                    if i < e.index - 1 {
                        assert(merged2[i] == s[i]);
                    } else {
                        assert(merged2[i] == new[i - (e.index - 1)]);
                    }
                }
                assert forall|i: int, j: int| 0 <= i <= j < merged2.len() implies
                    #[trigger] merged2[i].term <= #[trigger] merged2[j].term by {
                    if j < e.index - 1 {
                    } else if i < e.index - 1 {
                        assert(merged2[i] == s[i]);
                        assert(merged2[j] == new[j - (e.index - 1)]);
                        assert(s[i].term <= term_at(s, e.index - 1));
                        assert(new[0].term <= new[j - (e.index - 1)].term);
                    } else {
                        assert(merged2[i] == new[i - (e.index - 1)]);
                        assert(merged2[j] == new[j - (e.index - 1)]);
                    }
                }
            }
        } else {
            let merged2 = s + new;
            assert(e.index - 1 == s.len());
            assert forall|i: int| 0 <= i < merged2.len() implies (#[trigger] merged2[i]).index
                == i + 1 by {
                if i < s.len() {
                    assert(merged2[i] == s[i]);
                } else {
                    assert(merged2[i] == new[i - s.len()]);
                }
            }
            assert forall|i: int, j: int| 0 <= i <= j < merged2.len() implies
                #[trigger] merged2[i].term <= #[trigger] merged2[j].term by {
                if j < s.len() {
                } else if i < s.len() {
                    assert(merged2[i] == s[i]);
                    assert(merged2[j] == new[j - s.len()]);
                    assert(s[i].term <= term_at(s, e.index - 1));
                } else {
                    assert(merged2[i] == new[i - s.len()]);
                    assert(merged2[j] == new[j - s.len()]);
                }
            }
        }
    }
}

/// A merge that nowhere contradicts the log at or below `floor` leaves the
/// prefix up to `floor` exactly as it was; in particular committed entries
/// below the commit index survive every accepted merge.
pub proof fn lemma_merge_preserves_below(
    s: Seq<LogEntryV>,
    new: Seq<LogEntryV>,
    floor: u32,
)
    requires
        entries_wf(s),
        mergeable(s, new),
        conflict_free_below(s, new, floor),
        floor <= s.len(),
    ensures
        merge_spec(s, new).len() >= floor,
        forall|i: int| 0 <= i < floor ==> #[trigger] merge_spec(s, new)[i] == s[i],
    decreases new.len(),
{
    if new.len() == 0 {
    } else {
        let e = new[0];
        if e.index - 1 < s.len() {
            if s[e.index - 1].term == e.term {
                assert forall|k: int, l: int| 0 <= k <= l < new.skip(1).len() implies
                    #[trigger] new.skip(1)[k].term <= #[trigger] new.skip(1)[l].term by {
                    assert(new.skip(1)[k] == new[k + 1]);
                    assert(new.skip(1)[l] == new[l + 1]);
                }
                assert(mergeable(s, new.skip(1)));
                assert(conflict_free_below(s, new.skip(1), floor)) by {
                    assert(forall|k: int|
                        0 <= k < new.skip(1).len() ==> #[trigger] new.skip(1)[k] == new[k + 1]);
                }
                lemma_merge_preserves_below(s, new.skip(1), floor);
            } else {
                assert(e.index > floor);
            }
        } else {
        }
    }
}

/// Log matching, the inductive heart of the replication proof. If two logs
/// satisfy the matching property (an equal term at an equal position implies
/// equal entries there and everywhere before), the consistency check ties
/// them together at position `prev`, and a follower merges exactly the
/// leader's entries that follow `prev`, then afterwards the follower's log
/// carries the leader's log entry for entry, and the matching property holds
/// again.
pub proof fn lemma_log_matching(follower: Seq<LogEntryV>, leader: Seq<LogEntryV>, prev: int)
    requires
        entries_wf(follower),
        entries_wf(leader),
        logs_match(follower, leader),
        0 <= prev <= leader.len(),
        leader.len() <= u32::MAX - follower.len(),
        prev == 0 || (prev <= follower.len() && follower[prev - 1].term == leader[prev
            - 1].term),
    ensures
        merge_spec(follower, leader.skip(prev)).len() >= leader.len(),
        forall|i: int|
            0 <= i < leader.len() ==> #[trigger] merge_spec(follower, leader.skip(prev))[i]
                == leader[i],
        logs_match(merge_spec(follower, leader.skip(prev)), leader),
    decreases leader.len() - prev,
{
    let new = leader.skip(prev);
    assert(forall|k: int| 0 <= k < new.len() ==> #[trigger] new[k] == leader[prev + k]);
    assert forall|k: int, l: int| 0 <= k <= l < new.len() implies #[trigger] new[k].term
        <= #[trigger] new[l].term by {
        assert(new[k] == leader[prev + k]);
        assert(new[l] == leader[prev + l]);
    }
    assert(mergeable(follower, new));
    if new.len() == 0 {
        assert(prev == leader.len());
        assert forall|i: int| 0 <= i < leader.len() implies #[trigger] merge_spec(
            follower,
            new,
        )[i] == leader[i] by {
            assert(follower[prev - 1].term == leader[prev - 1].term);
            assert(follower[i] == leader[i]);
        }
    } else {
        let e = new[0];
        assert(e == leader[prev]);
        assert(e.index == prev + 1);
        if e.index - 1 < follower.len() {
            if follower[e.index - 1].term == e.term {
                assert(follower[prev].term == leader[prev].term);
                assert(forall|j: int| 0 <= j <= prev ==> #[trigger] follower[j] == leader[j]);
                assert(new.skip(1) =~= leader.skip(prev + 1));
                lemma_log_matching(follower, leader, prev + 1);
            } else {
                let merged = follower.take(e.index - 1) + new;
                assert(merge_spec(follower, new) == merged);
                assert(merged.len() == leader.len());
                assert forall|i: int| 0 <= i < leader.len() implies #[trigger] merged[i]
                    == leader[i] by {
                    if i < prev {
                        assert(merged[i] == follower[i]);
                        assert(follower[prev - 1].term == leader[prev - 1].term);
                        assert(follower[i] == leader[i]);
                    } else {
                        assert(merged[i] == new[i - prev]);
                    }
                }
            }
        } else {
            let merged = follower + new;
            assert(merge_spec(follower, new) == merged);
            assert(follower.len() == prev);
            assert(merged.len() == leader.len());
            assert forall|i: int| 0 <= i < leader.len() implies #[trigger] merged[i]
                == leader[i] by {
                if i < prev {
                    assert(merged[i] == follower[i]);
                    assert(follower[prev - 1].term == leader[prev - 1].term);
                    assert(follower[i] == leader[i]);
                } else {
                    assert(merged[i] == new[i - prev]);
                }
            }
        }
    }
}

/// A merge never raises the last term beyond the incoming batch: the merged
/// log ends either in a surviving local term or in the batch's last term.
pub proof fn lemma_merge_last_term(s: Seq<LogEntryV>, new: Seq<LogEntryV>)
    requires
        entries_wf(s),
        mergeable(s, new),
    ensures
        last_term_of(merge_spec(s, new)) <= last_term_of(s) || (new.len() > 0 && last_term_of(
            merge_spec(s, new),
        ) == new[new.len() - 1].term),
    decreases new.len(),
{
    if new.len() == 0 {
    } else {
        let e = new[0];
        if e.index - 1 < s.len() {
            if s[e.index - 1].term == e.term {
                assert forall|k: int, l: int| 0 <= k <= l < new.skip(1).len() implies
                    #[trigger] new.skip(1)[k].term <= #[trigger] new.skip(1)[l].term by {
                    assert(new.skip(1)[k] == new[k + 1]);
                    assert(new.skip(1)[l] == new[l + 1]);
                }
                assert(mergeable(s, new.skip(1)));
                lemma_merge_last_term(s, new.skip(1));
                if new.len() > 1 {
                    assert(new.skip(1)[new.skip(1).len() - 1] == new[new.len() - 1]);
                }
            } else {
                let merged = s.take(e.index - 1) + new;
                assert(merged[merged.len() - 1] == new[new.len() - 1]);
            }
        } else {
            let merged = s + new;
            assert(merged[merged.len() - 1] == new[new.len() - 1]);
        }
    }
}

/// The commands stored between 1-based positions `lo` exclusive and `hi`
/// inclusive, in log order.
pub open spec fn commands_between(log: Seq<LogEntryV>, lo: int, hi: int) -> Seq<CommandV> {
    log.subrange(lo, hi).map_values(|e: LogEntryV| e.command)
}

/// The log matching property between two logs: an equal term at an equal
/// position implies the entries agree there and at every earlier position.
pub open spec fn logs_match(a: Seq<LogEntryV>, b: Seq<LogEntryV>) -> bool {
    forall|i: int|
        0 <= i < a.len() && i < b.len() && #[trigger] a[i].term == #[trigger] b[i].term
            ==> forall|j: int| 0 <= j <= i ==> a[j] == b[j]
}

/// The log store. `latest_seen` is the index of the last entry.
#[derive(Debug)]
pub struct Log {
    pub latest_seen: u32,
    pub entries: Vec<LogEntry>,
}

impl View for Log {
    type V = Seq<LogEntryV>;

    open spec fn view(&self) -> Seq<LogEntryV> {
        self.entries.deep_view()
    }
}

impl Clone for Log {
    fn clone(&self) -> (r: Self)
        ensures
            r@ == self@,
            r.latest_seen == self.latest_seen,
    {
        let r = Log { latest_seen: self.latest_seen, entries: clone_entries(&self.entries) };
        proof {
            assert(r@ =~= self@);
        }
        r
    }
}

/// An element-for-element copy of a batch of entries.
pub fn clone_entries(entries: &Vec<LogEntry>) -> (r: Vec<LogEntry>)
    ensures
        r.deep_view() == entries.deep_view(),
{
    let mut r: Vec<LogEntry> = Vec::new();
    let mut i: usize = 0;
    while i < entries.len()
        invariant
            i <= entries@.len(),
            r@.len() == i,
            forall|k: int| 0 <= k < i ==> #[trigger] r@[k]@ == entries@[k]@,
        decreases entries@.len() - i,
    {
        r.push(entries[i].clone());
        i = i + 1;
    }
    proof {
        assert(r.deep_view() =~= entries.deep_view());
    }
    r
}

impl Log {
    /// Well-formed: contiguous 1-based indices, non-decreasing terms, and a
    /// tail counter that names the last index.
    pub open spec fn wf(self) -> bool {
        &&& entries_wf(self@)
        &&& self.latest_seen == self@.len()
    }

    /// The empty log.
    pub fn new() -> (l: Log)
        ensures
            l.wf(),
            l@ == Seq::<LogEntryV>::empty(),
            l.latest_seen == 0,
    {
        let l = Log { latest_seen: 0, entries: Vec::new() };
        proof {
            assert(l@ =~= Seq::<LogEntryV>::empty());
        }
        l
    }

    /// Leader-only tail append: the new entry takes the next index and the
    /// given term. Returns the index it was appended at.
    pub fn update_log(&mut self, term: u32, command: Command) -> (index: u32)
        requires
            old(self).wf(),
            old(self).latest_seen < u32::MAX,
            last_term_of(old(self)@) <= term,
        ensures
            final(self).wf(),
            index == old(self).latest_seen + 1,
            final(self).latest_seen == index,
            final(self)@ == old(self)@.push(
                LogEntryV { index, term, command: command@ },
            ),
    {
        let latest_seen = self.latest_seen + 1;
        let ghost prior = self@;
        self.entries.push(LogEntry { index: latest_seen, term, command });
        self.latest_seen = latest_seen;
        proof {
            assert(self@ =~= prior.push(
                LogEntryV { index: latest_seen, term, command: command@ },
            ));
        }
        latest_seen
    }

    /// The index of the last entry; zero for an empty log.
    pub fn last_log_index(&self) -> (r: u32)
        requires
            self.wf(),
        ensures
            r == self@.len(),
    {
        self.latest_seen
    }

    /// The term of the last entry; zero for an empty log.
    pub fn last_log_term(&self) -> (r: u32)
        requires
            self.wf(),
        ensures
            r == last_term_of(self@),
    {
        if self.entries.len() == 0 {
            0
        } else {
            self.entries[self.entries.len() - 1].term
        }
    }

    /// The entry at a 1-based index, if the log reaches that far.
    pub fn get_entry(&self, index: u32) -> (r: Option<&LogEntry>)
        requires
            self.wf(),
        ensures
            match r {
                Some(e) => 1 <= index <= self@.len() && e@ == self@[index - 1],
                None => index == 0 || index > self@.len(),
            },
    {
        if index >= 1 && (index as usize) <= self.entries.len() {
            Some(&self.entries[(index - 1) as usize])
        } else {
            None
        }
    }

    /// The consistency check: true if `prev_index` is zero, or an entry
    /// exists at `prev_index` with term `prev_term`.
    pub fn consistency_check(&self, prev_index: u32, prev_term: u32) -> (r: bool)
        requires
            self.wf(),
        ensures
            r == consistency_ok(self@, prev_index, prev_term),
    {
        if prev_index == 0 {
            true
        } else if (prev_index as usize) <= self.entries.len() {
            self.entries[(prev_index - 1) as usize].term == prev_term
        } else {
            false
        }
    }

    /// Merge a batch of incoming entries under the conflict-resolution rule
    /// spelled out by [`merge_spec`].
    pub fn merge_from(&mut self, entries: Vec<LogEntry>)
        requires
            old(self).wf(),
            mergeable(old(self)@, entries.deep_view()),
        ensures
            final(self).wf(),
            final(self)@ == merge_spec(old(self)@, entries.deep_view()),
    {
        let ghost s0 = self@;
        let ghost new = entries.deep_view();
        proof {
            lemma_merge_spec_props(s0, new);
            assert(new.skip(0) =~= new);
        }
        let mut k: usize = 0;
        while k < entries.len() && entries[k].index as usize <= self.entries.len()
            && self.entries[(entries[k].index - 1) as usize].term == entries[k].term
            invariant
                self.wf(),
                self@ == s0,
                new == entries.deep_view(),
                mergeable(s0, new),
                entries_wf(s0),
                k <= entries@.len(),
                merge_spec(s0, new) == merge_spec(s0, new.skip(k as int)),
                forall|j: int| 0 <= j < k ==> (#[trigger] new[j]).index <= s0.len(),
            decreases entries@.len() - k,
        {
            proof {
                assert(new[k as int] == entries@[k as int]@);
                assert(new.skip(k as int)[0] == new[k as int]);
                assert(new.skip(k as int).skip(1) =~= new.skip(k as int + 1));
            }
            k = k + 1;
        }
        if k == entries.len() {
            proof {
                assert(new.skip(k as int) =~= Seq::<LogEntryV>::empty());
            }
            return ;
        }
        proof {
            assert(new.skip(k as int)[0] == new[k as int]);
            assert(new[k as int] == entries@[k as int]@);
        }
        let idx = entries[k].index;
        proof {
            assert(new[k as int].index == new[0].index + k);
            if k > 0 {
                assert(new[k as int - 1].index <= s0.len());
            }
            assert(idx <= s0.len() + 1);
        }
        if (idx as usize) <= self.entries.len() {
            // first conflicting position: drop it and everything after
            self.entries.truncate((idx - 1) as usize);
            proof {
                assert(self.entries.deep_view() =~= s0.take(idx - 1));
                assert(merge_spec(s0, new.skip(k as int)) == s0.take(idx - 1) + new.skip(
                    k as int,
                ));
            }
        } else {
            proof {
                assert(idx - 1 == s0.len());
                assert(self.entries.deep_view() =~= s0.take(idx - 1));
                assert(merge_spec(s0, new.skip(k as int)) == s0 + new.skip(k as int));
                assert(s0 + new.skip(k as int) =~= s0.take(idx - 1) + new.skip(k as int));
            }
        }
        let ghost base = self@;
        let mut j: usize = k;
        while j < entries.len()
            invariant
                k <= j <= entries@.len(),
                new == entries.deep_view(),
                base == s0.take(new[k as int].index - 1),
                self@ == base + new.subrange(k as int, j as int),
            decreases entries@.len() - j,
        {
            let ghost before = self@;
            self.entries.push(entries[j].clone());
            proof {
                assert(self@ =~= before.push(new[j as int]));
                assert(before.push(new[j as int]) =~= base + new.subrange(k as int, j + 1));
            }
            j = j + 1;
        }
        proof {
            assert(new.subrange(k as int, new.len() as int) =~= new.skip(k as int));
            assert(self@ =~= merge_spec(s0, new));
        }
        let new_len = self.entries.len();
        proof {
            assert(self@.len() == merge_spec(s0, new).len());
            assert(merge_spec(s0, new).len() <= u32::MAX);
        }
        self.latest_seen = new_len as u32;
    }
}

} // verus!
