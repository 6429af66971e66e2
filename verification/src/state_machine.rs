//! The application state machine and the membership table.
//!
//! The application state (users keyed by id, plus the id allocator) is
//! mutated only by applying committed log commands, never directly by client
//! requests; application of a command is pure and deterministic.

use vstd::prelude::*;

use crate::log::{Command, CommandV, ToCommand};
use crate::shared::{Peer, StatusInfo};

verus! {

/// A record in the application state.
#[derive(Debug, PartialEq, Eq)]
pub struct User {
    pub id: u32,
    pub name: String,
    pub email: String,
}

/// The ghost image of a user record.
pub struct UserV {
    pub id: u32,
    pub name: Seq<char>,
    pub email: Seq<char>,
}

impl View for User {
    type V = UserV;

    open spec fn view(&self) -> UserV {
        UserV { id: self.id, name: self.name@, email: self.email@ }
    }
}

impl DeepView for User {
    type V = UserV;

    open spec fn deep_view(&self) -> UserV {
        self@
    }
}

impl Clone for User {
    fn clone(&self) -> (r: Self)
        ensures
            r@ == self@,
    {
        User { id: self.id, name: self.name.clone(), email: self.email.clone() }
    }
}

/// What the request layer submits to have a user created.
#[derive(Debug)]
pub struct CreateUserRequest {
    pub name: String,
    pub email: String,
}

impl ToCommand for CreateUserRequest {
    fn to_command(&self) -> Command {
        Command::AddUser { name: self.name.clone(), email: self.email.clone() }
    }
}

/// Applying a command to the applied records and the id allocator: an
/// add-user command assigns the next id and inserts.
pub open spec fn apply_command_spec(users: Seq<UserV>, next_id: u32, c: CommandV) -> (
    Seq<UserV>,
    u32,
) {
    match c {
        CommandV::AddUser { name, email } => (
            users.push(UserV { id: next_id, name, email }),
            (next_id + 1) as u32,
        ),
    }
}

/// Applying a sequence of commands in order, first command first.
pub open spec fn apply_seq_spec(users: Seq<UserV>, next_id: u32, cs: Seq<CommandV>) -> (
    Seq<UserV>,
    u32,
)
    decreases cs.len(),
{
    if cs.len() == 0 {
        (users, next_id)
    } else {
        let (users1, next_id1) = apply_command_spec(users, next_id, cs[0]);
        apply_seq_spec(users1, next_id1, cs.skip(1))
    }
}

/// The application state machine together with the node's identity and the
/// membership table.
#[derive(Debug)]
pub struct StateMachine {
    pub status_info: StatusInfo,
    pub peers: Vec<Peer>,
    pub users: Vec<User>,
    pub next_id: u32,
}

/// A membership table holds each address at most once: it is a set of peer
/// identities with equality by address.
pub open spec fn peers_distinct(peers: Seq<Seq<char>>) -> bool {
    forall|i: int, j: int| 0 <= i < j < peers.len() ==> peers[i] != peers[j]
}

impl StateMachine {
    /// Well-formed: ids strictly increase along the record list and stay
    /// below the allocator, so every id is unique and never reassigned; the
    /// membership table holds each address at most once.
    pub open spec fn wf(self) -> bool {
        &&& forall|i: int, j: int|
            0 <= i < j < self.users@.len() ==> #[trigger] self.users@[i].id
                < #[trigger] self.users@[j].id
        &&& forall|i: int| 0 <= i < self.users@.len() ==> (#[trigger] self.users@[i]).id
            < self.next_id
        &&& self.next_id >= 1
        &&& peers_distinct(self.peers.deep_view())
    }

    /// A fresh state machine: no peers, no records, allocator at one.
    pub fn new(status_info: StatusInfo) -> (sm: StateMachine)
        ensures
            sm.wf(),
            sm.status_info.ip@ == status_info.ip@,
            sm.status_info.name@ == status_info.name@,
            sm.peers@.len() == 0,
            sm.users@.len() == 0,
            sm.next_id == 1,
    {
        StateMachine {
            status_info: status_info.clone(),
            peers: Vec::new(),
            users: Vec::new(),
            next_id: 1,
        }
    }

    /// Record a newly discovered peer in the membership table. The table is
    /// a set of identities: an address already present is not added again.
    pub fn add_peer(&mut self, peer: Peer)
        requires
            old(self).wf(),
        ensures
            final(self).wf(),
            old(self).peers.deep_view().contains(peer@) ==> final(self).peers@ == old(
                self,
            ).peers@,
            !old(self).peers.deep_view().contains(peer@) ==> final(self).peers@ == old(
                self,
            ).peers@.push(peer),
            final(self).users@ == old(self).users@,
            final(self).next_id == old(self).next_id,
            final(self).status_info == old(self).status_info,
    {
        if !crate::shared::contains_peer(&self.peers, &peer) {
            self.peers.push(peer);
            proof {
                assert forall|i: int, j: int|
                    0 <= i < j < self.peers.deep_view().len() implies self.peers.deep_view()[i]
                    != self.peers.deep_view()[j] by {
                    if j == self.peers.deep_view().len() - 1 {
                        assert(self.peers.deep_view()[i] == old(self).peers.deep_view()[i]);
                        assert(self.peers.deep_view()[j] == peer@);
                        assert(old(self).peers.deep_view()[i] != peer@);
                    } else {
                        assert(self.peers.deep_view()[i] == old(self).peers.deep_view()[i]);
                        assert(self.peers.deep_view()[j] == old(self).peers.deep_view()[j]);
                    }
                }
            }
        }
    }

    /// Drop a departed peer from the membership table; an address that is
    /// not in the table leaves it unchanged.
    pub fn remove_peer(&mut self, peer: &Peer)
        requires
            old(self).wf(),
        ensures
            final(self).wf(),
            !old(self).peers.deep_view().contains(peer@) ==> final(self).peers@ == old(
                self,
            ).peers@,
            old(self).peers.deep_view().contains(peer@) ==> final(self).peers.deep_view()
                == old(self).peers.deep_view().remove(
                old(self).peers.deep_view().index_of(peer@),
            ),
            final(self).users@ == old(self).users@,
            final(self).next_id == old(self).next_id,
            final(self).status_info == old(self).status_info,
    {
        let ghost peers0 = self.peers.deep_view();
        let mut i: usize = 0;
        while i < self.peers.len()
            invariant
                i <= self.peers@.len(),
                old(self).wf(),
                *self == *old(self),
                peers0 == self.peers.deep_view(),
                peers_distinct(peers0),
                forall|k: int| 0 <= k < i ==> #[trigger] peers0[k] != peer@,
            decreases self.peers@.len() - i,
        {
            proof {
                assert(peers0[i as int] == self.peers@[i as int]@);
            }
            if crate::shared::peer_eq(&self.peers[i], peer) {
                proof {
                    assert(peers0[i as int] == peer@);
                    assert(peers0.contains(peer@));
                }
                self.peers.remove(i);
                proof {
                    let j = peers0.index_of(peer@);
                    assert(0 <= j < peers0.len() && peers0[j] == peer@);
                    // addresses are distinct, so the found index is the one
                    assert(j == i) by {
                        if j < i {
                            assert(peers0[j] != peers0[i as int]);
                        } else if j > i {
                            assert(peers0[i as int] != peers0[j]);
                        }
                    }
                    let removed = peers0.remove(i as int);
                    assert(self.peers.deep_view() =~= removed) by {
                        assert(self.peers@ == old(self).peers@.remove(i as int));
                        assert forall|k: int| 0 <= k < removed.len() implies
                            self.peers.deep_view()[k] == removed[k] by {
                            if k < i {
                                assert(self.peers@[k] == old(self).peers@[k]);
                                assert(removed[k] == peers0[k]);
                            } else {
                                assert(self.peers@[k] == old(self).peers@[k + 1]);
                                assert(removed[k] == peers0[k + 1]);
                            }
                        }
                    }
                    assert(peers_distinct(removed)) by {
                        assert forall|a: int, b: int| 0 <= a < b < removed.len() implies
                            removed[a] != removed[b] by {
                            let a0 = if a < i { a } else { a + 1 };
                            let b0 = if b < i { b } else { b + 1 };
                            assert(removed[a] == peers0[a0]);
                            assert(removed[b] == peers0[b0]);
                            assert(peers0[a0] != peers0[b0]);
                        }
                    }
                    assert(self.users@ == old(self).users@);
                    assert(self.next_id == old(self).next_id);
                    assert(peers_distinct(self.peers.deep_view()));
                    assert(self.wf());
                }
                return ;
            }
            i = i + 1;
        }
        proof {
            assert(forall|k: int| 0 <= k < peers0.len() ==> #[trigger] peers0[k] != peer@);
            assert(!peers0.contains(peer@));
        }
    }

    /// Allocate the next record id.
    pub fn next_id(&mut self) -> (id: u32)
        requires
            old(self).wf(),
            old(self).next_id < u32::MAX,
        ensures
            final(self).wf(),
            id == old(self).next_id,
            final(self).next_id == old(self).next_id + 1,
            final(self).users@ == old(self).users@,
            final(self).peers@ == old(self).peers@,
            final(self).status_info == old(self).status_info,
    {
        let id = self.next_id;
        self.next_id = self.next_id + 1;
        id
    }

    /// Create a record from a request: assign the next id and insert. Called
    /// by the applier with the payload of a committed add-user command.
    pub fn create_user(&mut self, req: CreateUserRequest) -> (user: User)
        requires
            old(self).wf(),
            old(self).next_id < u32::MAX,
        ensures
            final(self).wf(),
            user@ == (UserV { id: old(self).next_id, name: req.name@, email: req.email@ }),
            final(self).users@.len() == old(self).users@.len() + 1,
            final(self).users.deep_view() == old(self).users.deep_view().push(user@),
            final(self).next_id == old(self).next_id + 1,
            final(self).peers@ == old(self).peers@,
            final(self).status_info == old(self).status_info,
    {
        let id = self.next_id();
        let user = User { id, name: req.name, email: req.email };
        self.users.push(user.clone());
        proof {
            assert(self.users.deep_view() =~= old(self).users.deep_view().push(user@));
            assert forall|i: int, j: int| 0 <= i < j < self.users@.len() implies
                #[trigger] self.users@[i].id < #[trigger] self.users@[j].id by {
                if j == self.users@.len() - 1 {
                    assert(self.users@[i] == old(self).users@[i]);
                }
            }
        }
        user
    }

    /// Apply one committed command to the application state.
    pub fn apply_command(&mut self, command: &Command)
        requires
            old(self).wf(),
            old(self).next_id < u32::MAX,
        ensures
            final(self).wf(),
            (final(self).users.deep_view(), final(self).next_id) == apply_command_spec(
                old(self).users.deep_view(),
                old(self).next_id,
                command@,
            ),
            final(self).peers@ == old(self).peers@,
            final(self).status_info == old(self).status_info,
    {
        match command {
            Command::AddUser { name, email } => {
                let ghost before = self.users.deep_view();
                let user = self.create_user(
                    CreateUserRequest { name: name.clone(), email: email.clone() },
                );
                proof {
                    assert(self.users.deep_view() =~= before.push(user@));
                }
            },
        }
    }

    /// The record with the given id, if one was ever created.
    pub fn get_user(&self, id: u32) -> (r: Option<User>)
        requires
            self.wf(),
        ensures
            match r {
                Some(user) => exists|i: int|
                    0 <= i < self.users@.len() && #[trigger] self.users@[i]@ == user@
                        && user.id == id,
                None => forall|i: int| 0 <= i < self.users@.len() ==> (
                #[trigger] self.users@[i]).id != id,
            },
    {
        let mut i: usize = 0;
        while i < self.users.len()
            invariant
                i <= self.users@.len(),
                forall|k: int| 0 <= k < i ==> (#[trigger] self.users@[k]).id != id,
            decreases self.users@.len() - i,
        {
            if self.users[i].id == id {
                return Some(self.users[i].clone());
            }
            i = i + 1;
        }
        None
    }

    /// All applied records, in order of creation.
    pub fn list_users(&self) -> (r: Vec<User>)
        requires
            self.wf(),
        ensures
            r.deep_view() == self.users.deep_view(),
    {
        let mut r: Vec<User> = Vec::new();
        let mut i: usize = 0;
        while i < self.users.len()
            invariant
                i <= self.users@.len(),
                r@.len() == i,
                forall|k: int| 0 <= k < i ==> #[trigger] r@[k]@ == self.users@[k]@,
            decreases self.users@.len() - i,
        {
            r.push(self.users[i].clone());
            i = i + 1;
        }
        proof {
            assert(r.deep_view() =~= self.users.deep_view());
        }
        r
    }
}

} // verus!
