//! Peer identity, node status, and the role tag carried by every node.

use vstd::prelude::*;

verus! {

/// A stable network identity for a cluster member; equality is by address.
#[derive(Debug, PartialEq, Eq, Hash)]
pub struct Peer {
    pub ip: String,
}

impl View for Peer {
    type V = Seq<char>;

    open spec fn view(&self) -> Seq<char> {
        self.ip@
    }
}

impl Clone for Peer {
    fn clone(&self) -> (r: Self)
        ensures
            r@ == self@,
    {
        Peer { ip: self.ip.clone() }
    }
}

/// An element-for-element copy of a peer list.
pub fn clone_peers(peers: &Vec<Peer>) -> (r: Vec<Peer>)
    ensures
        r@.len() == peers@.len(),
        forall|i: int| 0 <= i < r@.len() ==> #[trigger] r@[i]@ == peers@[i]@,
{
    let mut r: Vec<Peer> = Vec::new();
    let mut i: usize = 0;
    while i < peers.len()
        invariant
            i <= peers@.len(),
            r@.len() == i,
            forall|k: int| 0 <= k < i ==> #[trigger] r@[k]@ == peers@[k]@,
        decreases peers@.len() - i,
    {
        r.push(peers[i].clone());
        i = i + 1;
    }
    r
}

/// An element-for-element copy of a cursor table.
pub fn clone_cursors(cursors: &Vec<PeerCursor>) -> (r: Vec<PeerCursor>)
    ensures
        r@.len() == cursors@.len(),
        forall|i: int| 0 <= i < r@.len() ==> #[trigger] r@[i]@ == cursors@[i]@,
{
    let mut r: Vec<PeerCursor> = Vec::new();
    let mut i: usize = 0;
    while i < cursors.len()
        invariant
            i <= cursors@.len(),
            r@.len() == i,
            forall|k: int| 0 <= k < i ==> #[trigger] r@[k]@ == cursors@[k]@,
        decreases cursors@.len() - i,
    {
        r.push(cursors[i].clone());
        i = i + 1;
    }
    r
}

/// Address equality, the identity notion of the membership table.
pub fn peer_eq(a: &Peer, b: &Peer) -> (r: bool)
    ensures
        r == (a@ == b@),
{
    a.ip == b.ip
}

/// Whether a peer with this address is already in the list.
pub fn contains_peer(peers: &Vec<Peer>, p: &Peer) -> (r: bool)
    ensures
        r == peers.deep_view().contains(p@),
{
    let mut i: usize = 0;
    while i < peers.len()
        invariant
            i <= peers@.len(),
            forall|k: int| 0 <= k < i ==> #[trigger] peers@[k]@ != p@,
        decreases peers@.len() - i,
    {
        if peer_eq(&peers[i], p) {
            proof {
                assert(peers.deep_view()[i as int] == p@);
            }
            return true;
        }
        i = i + 1;
    }
    proof {
        assert(forall|k: int|
            0 <= k < peers.deep_view().len() ==> #[trigger] peers.deep_view()[k] != p@);
    }
    false
}

/// What a node knows about itself: its name and its own address.
#[derive(Debug, PartialEq, Eq)]
pub struct StatusInfo {
    pub name: String,
    pub ip: String,
}

impl Clone for StatusInfo {
    fn clone(&self) -> (r: Self)
        ensures
            r.name@ == self.name@,
            r.ip@ == self.ip@,
    {
        StatusInfo { name: self.name.clone(), ip: self.ip.clone() }
    }
}

impl StatusInfo {
    /// The node's own identity in the membership table.
    pub fn to_peer(&self) -> (p: Peer)
        ensures
            p@ == self.ip@,
    {
        Peer { ip: self.ip.clone() }
    }
}

/// A leader's replication cursor for one peer: `next_index` is the index of
/// the next entry to send, `match_index` the highest index known replicated.
#[derive(Debug)]
pub struct PeerCursor {
    pub peer: Peer,
    pub next_index: u32,
    pub match_index: u32,
}

/// The ghost image of a replication cursor.
pub struct CursorV {
    pub peer: Seq<char>,
    pub next_index: u32,
    pub match_index: u32,
}

impl View for PeerCursor {
    type V = CursorV;

    open spec fn view(&self) -> CursorV {
        CursorV { peer: self.peer@, next_index: self.next_index, match_index: self.match_index }
    }
}

impl Clone for PeerCursor {
    fn clone(&self) -> (r: Self)
        ensures
            r@ == self@,
    {
        PeerCursor {
            peer: self.peer.clone(),
            next_index: self.next_index,
            match_index: self.match_index,
        }
    }
}

/// The role of a node. Exactly one variant is active; a transition discards
/// the previous variant's payload.
#[derive(Debug)]
pub enum ServerState {
    Leader { cursors: Vec<PeerCursor> },
    Follower,
    Candidate { votes_received: Vec<Peer> },
}

/// The ghost image of a role: cursors and votes as sequences.
pub enum RoleV {
    Leader { cursors: Seq<CursorV> },
    Follower,
    Candidate { votes_received: Seq<Seq<char>> },
}

impl View for ServerState {
    type V = RoleV;

    open spec fn view(&self) -> RoleV {
        match self {
            ServerState::Leader { cursors } => RoleV::Leader { cursors: cursors.deep_view() },
            ServerState::Follower => RoleV::Follower,
            ServerState::Candidate { votes_received } => RoleV::Candidate {
                votes_received: votes_received.deep_view(),
            },
        }
    }
}

impl DeepView for Peer {
    type V = Seq<char>;

    open spec fn deep_view(&self) -> Seq<char> {
        self@
    }
}

impl DeepView for PeerCursor {
    type V = CursorV;

    open spec fn deep_view(&self) -> CursorV {
        self@
    }
}

impl ServerState {
    /// The initial role.
    pub fn follower() -> (s: ServerState)
        ensures
            s@ == RoleV::Follower,
    {
        ServerState::Follower
    }

    /// A fresh candidate that has granted itself its own vote.
    pub fn candidate(status_info: StatusInfo) -> (s: ServerState)
        ensures
            s@ == (RoleV::Candidate { votes_received: seq![status_info.ip@] }),
    {
        let mut votes_received: Vec<Peer> = Vec::new();
        votes_received.push(status_info.to_peer());
        assert(votes_received.deep_view() =~= seq![status_info.ip@]);
        ServerState::Candidate { votes_received }
    }

    /// A fresh leader: one cursor per known peer, `next_index` one past the
    /// leader's last log index, `match_index` zero.
    pub fn leader(peers: Vec<Peer>, last_index: u32) -> (s: ServerState)
        requires
            last_index < u32::MAX,
        ensures
            s matches ServerState::Leader { cursors } && {
                &&& cursors@.len() == peers@.len()
                &&& forall|i: int| 0 <= i < cursors@.len() ==> (#[trigger] cursors@[i])@ == (
                CursorV { peer: peers@[i]@, next_index: (last_index + 1) as u32, match_index: 0 })
            },
    {
        let mut cursors: Vec<PeerCursor> = Vec::new();
        let mut i: usize = 0;
        while i < peers.len()
            invariant
                i <= peers@.len(),
                last_index < u32::MAX,
                cursors@.len() == i,
                forall|k: int| 0 <= k < i ==> (#[trigger] cursors@[k])@ == (CursorV {
                    peer: peers@[k]@,
                    next_index: (last_index + 1) as u32,
                    match_index: 0,
                }),
            decreases peers@.len() - i,
        {
            cursors.push(PeerCursor {
                peer: peers[i].clone(),
                next_index: last_index + 1,
                match_index: 0,
            });
            i = i + 1;
        }
        ServerState::Leader { cursors }
    }
}

} // verus!
