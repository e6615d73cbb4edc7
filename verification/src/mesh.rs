//! Mesh state for SPIRAL slot claiming: which slots are claimed and by whom,
//! which peers are known, and the decisions taken on each flooded message.

use std::collections::HashMap;
use vstd::std_specs::hash::spec_hash_map_iter;
use vstd::std_specs::iter::IteratorSpec;
use vstd::prelude::*;
use ed25519_dalek::SigningKey;

verus! {

broadcast use vstd::std_specs::hash::group_hash_axioms;

/// A 3D hex coordinate of a SPIRAL slot.
#[derive(Clone, Copy, Debug, PartialEq, Eq, Hash, Structural)]
pub struct HexCoord {
    pub q: i64,
    pub r: i64,
    pub z: i64,
}

impl HexCoord {
    /// Create a coordinate from its three components.
    pub fn new(q: i64, r: i64, z: i64) -> (c: HexCoord)
        ensures
            c == (HexCoord { q, r, z }),
    {
        HexCoord { q, r, z }
    }

    /// The coordinate as the `(q, r, z)` triple carried in flood messages.
    pub open spec fn triple(self) -> (i64, i64, i64) {
        (self.q, self.r, self.z)
    }
}

/// A claimed SPIRAL slot in the mesh.
#[derive(Debug)]
pub struct SlotClaim {
    /// SPIRAL index (deterministic ordering)
    pub index: u64,
    /// 3D hex coordinate of the slot
    pub coord: HexCoord,
    /// PeerID that claimed this slot
    pub peer_id: String,
    /// Number of validators who confirmed this claim
    pub confirmations: u32,
}

impl Clone for SlotClaim {
    fn clone(&self) -> (c: Self)
        ensures
            c == *self,
    {
        SlotClaim {
            index: self.index,
            coord: self.coord,
            peer_id: self.peer_id.clone(),
            confirmations: self.confirmations,
        }
    }
}

impl SlotClaim {
    /// Create a new, unconfirmed claim of slot `index` (at `coord`) by `peer_id`.
    pub fn new(index: u64, peer_id: String, coord: HexCoord) -> (c: SlotClaim)
        ensures
            c == (SlotClaim { index, coord, peer_id, confirmations: 0 }),
    {
        SlotClaim { index, coord, peer_id, confirmations: 0 }
    }
}

/// A known peer of the mesh.
#[derive(Debug, Clone)]
pub struct MeshPeer {
    pub id: String,
    /// Socket address in text form (`ip:port`)
    pub addr: String,
    pub public_key: Option<Vec<u8>>,
    /// Time of the last contact, in the caller's clock ticks
    pub last_seen: u64,
    pub coordinated: bool,
    /// The SPIRAL slot this peer has claimed (if known)
    pub slot: Option<SlotClaim>,
}

/// Broadcast message for continuous flooding.
#[derive(Debug)]
pub enum FloodMessage {
    /// Peer discovery (id, addr, slot_index)
    Peers(Vec<(String, String, Option<u64>)>),
    /// Admin list sync
    Admins(Vec<String>),
    /// Slot claim announcement (index, peer_id, coord as (q, r, z))
    SlotClaim { index: u64, peer_id: String, coord: (i64, i64, i64) },
    /// Slot claim validation response
    SlotValidation { index: u64, peer_id: String, validator_id: String, accepted: bool },
    /// SPORE HaveList: the slots a peer knows about
    SporeHaveList { peer_id: String, slots: Vec<u64> },
}

fn clone_peer_entries(entries: &Vec<(String, String, Option<u64>)>) -> (copy: Vec<(String, String, Option<u64>)>)
    ensures
        copy@.len() == entries@.len(),
        forall|k: int| 0 <= k < entries@.len() ==> {
            &&& (#[trigger] copy@[k]).0@ == entries@[k].0@
            &&& copy@[k].1@ == entries@[k].1@
            &&& copy@[k].2 == entries@[k].2
        },
{
    let mut copy: Vec<(String, String, Option<u64>)> = Vec::new();
    let mut i: usize = 0;
    while i < entries.len()
        invariant
            i <= entries@.len(),
            copy@.len() == i,
            forall|k: int| 0 <= k < i ==> {
                &&& (#[trigger] copy@[k]).0@ == entries@[k].0@
                &&& copy@[k].1@ == entries@[k].1@
                &&& copy@[k].2 == entries@[k].2
            },
        decreases entries@.len() - i,
    {
        let e = &entries[i];
        copy.push((e.0.clone(), e.1.clone(), e.2));
        i = i + 1;
    }
    copy
}

impl Clone for FloodMessage {
    fn clone(&self) -> (c: Self) {
        match self {
            FloodMessage::Peers(entries) => FloodMessage::Peers(clone_peer_entries(entries)),
            FloodMessage::Admins(admins) => FloodMessage::Admins(admins.clone()),
            FloodMessage::SlotClaim { index, peer_id, coord } => FloodMessage::SlotClaim {
                index: *index,
                peer_id: peer_id.clone(),
                coord: *coord,
            },
            FloodMessage::SlotValidation { index, peer_id, validator_id, accepted } => FloodMessage::SlotValidation {
                index: *index,
                peer_id: peer_id.clone(),
                validator_id: validator_id.clone(),
                accepted: *accepted,
            },
            FloodMessage::SporeHaveList { peer_id, slots } => FloodMessage::SporeHaveList {
                peer_id: peer_id.clone(),
                slots: slots.clone(),
            },
        }
    }
}

/// The flood message that announces `claim`.
pub open spec fn claim_announcement(claim: SlotClaim) -> FloodMessage {
    FloodMessage::SlotClaim { index: claim.index, peer_id: claim.peer_id, coord: claim.coord.triple() }
}

/// No claim is lost or changes owner between `old` and `new`.
pub open spec fn claims_kept(old: Map<u64, SlotClaim>, new: Map<u64, SlotClaim>) -> bool {
    forall|i: u64| #[trigger] old.contains_key(i) ==> new.contains_key(i) && new[i].peer_id@ == old[i].peer_id@
}

/// Whether some peer in `peers` has id `id`.
pub open spec fn has_peer(peers: Seq<MeshPeer>, id: Seq<char>) -> bool {
    exists|i: int| 0 <= i < peers.len() && #[trigger] peers[i].id@ == id
}

/// No two peers share an id.
pub open spec fn unique_peer_ids(peers: Seq<MeshPeer>) -> bool {
    forall|i: int, j: int|
        0 <= i < peers.len() && 0 <= j < peers.len() && i != j ==> #[trigger] peers[i].id@
            != #[trigger] peers[j].id@
}

/// `coords` extended by `c` with set semantics: unchanged if `c` is already there.
pub open spec fn coords_insert(coords: Seq<HexCoord>, c: HexCoord) -> Seq<HexCoord> {
    if coords.contains(c) {
        coords
    } else {
        coords.push(c)
    }
}

/// Mesh service state.
pub struct MeshState {
    /// Our node ID (PeerID)
    pub self_id: String,
    /// Our signing key for authentication
    pub signing_key: SigningKey,
    /// Our claimed slot in the mesh
    pub self_slot: Option<SlotClaim>,
    /// Known peers in the mesh; no two share an id
    pub peers: Vec<MeshPeer>,
    /// Claimed slots (by SPIRAL index)
    pub claimed_slots: HashMap<u64, SlotClaim>,
    /// Coordinates with claimed slots (for neighbor lookup); no duplicates
    pub slot_coords: Vec<HexCoord>,
}

impl MeshState {
    /// Well-formedness: each claim is stored under its own index, every claimed
    /// coordinate is recorded once in `slot_coords`, and peer ids are unique.
    pub open spec fn wf(&self) -> bool {
        &&& forall|i: u64| #[trigger]
            self.claimed_slots@.contains_key(i) ==> self.claimed_slots@[i].index == i
        &&& forall|i: u64| #[trigger]
            self.claimed_slots@.contains_key(i) ==> self.slot_coords@.contains(
                self.claimed_slots@[i].coord,
            )
        &&& self.slot_coords@.no_duplicates()
        &&& unique_peer_ids(self.peers@)
    }

    /// A fresh state: no slot, no peers, no claims.
    pub fn new(self_id: String, signing_key: SigningKey) -> (s: MeshState)
        ensures
            s.wf(),
            s.self_id == self_id,
            s.signing_key == signing_key,
            s.self_slot is None,
            s.peers@.len() == 0,
            s.claimed_slots@ == Map::<u64, SlotClaim>::empty(),
            s.slot_coords@.len() == 0,
    {
        MeshState {
            self_id,
            signing_key,
            self_slot: None,
            peers: Vec::new(),
            claimed_slots: HashMap::new(),
            slot_coords: Vec::new(),
        }
    }

    /// Find the next available SPIRAL slot: the smallest unclaimed index.
    pub fn next_available_slot(&self) -> (index: u64)
        ensures
            !self.claimed_slots@.contains_key(index),
            forall|k: u64| k < index ==> #[trigger] self.claimed_slots@.contains_key(k),
    {
        let mut index: u64 = 0;
        while self.claimed_slots.contains_key(&index)
            invariant
                forall|k: u64| k < index ==> #[trigger] self.claimed_slots@.contains_key(k),
                index <= self.claimed_slots@.len(),
            decreases self.claimed_slots@.len() - index,
        {
            proof {
                lemma_prefix_in_domain(self.claimed_slots@.dom(), (index + 1) as nat);
                assert(self.claimed_slots.len() == self.claimed_slots@.len());
            }
            index = index + 1;
        }
        index
    }

    /// Check if a coordinate has a claimed slot.
    pub fn is_slot_claimed(&self, coord: &HexCoord) -> (claimed: bool)
        ensures
            claimed == self.slot_coords@.contains(*coord),
    {
        let mut i: usize = 0;
        while i < self.slot_coords.len()
            invariant
                i <= self.slot_coords@.len(),
                forall|k: int| 0 <= k < i ==> self.slot_coords@[k] != *coord,
            decreases self.slot_coords@.len() - i,
        {
            if self.slot_coords[i] == *coord {
                return true;
            }
            i = i + 1;
        }
        false
    }

    /// Record `coord` in `slot_coords` unless it is already there.
    fn record_coord(&mut self, coord: HexCoord)
        requires
            old(self).slot_coords@.no_duplicates(),
        ensures
            final(self).slot_coords@ == coords_insert(old(self).slot_coords@, coord),
            final(self).slot_coords@.no_duplicates(),
            final(self).signing_key == old(self).signing_key,
            final(self).self_id == old(self).self_id,
            final(self).self_slot == old(self).self_slot,
            final(self).peers == old(self).peers,
            final(self).claimed_slots == old(self).claimed_slots,
    {
        if !self.is_slot_claimed(&coord) {
            self.slot_coords.push(coord);
        }
    }

    /// Claim slot `index`, whose SPIRAL coordinate is `coord`, for this node.
    /// Returns the announcement to flood, or `None` when the slot is already claimed.
    pub fn claim_slot(&mut self, index: u64, coord: HexCoord) -> (announce: Option<FloodMessage>)
        requires
            old(self).wf(),
        ensures
            final(self).wf(),
            final(self).signing_key == old(self).signing_key,
            claims_kept(old(self).claimed_slots@, final(self).claimed_slots@),
            old(self).claimed_slots@.contains_key(index) ==> announce is None && *final(self)
                == *old(self),
            !old(self).claimed_slots@.contains_key(index) ==> {
                let claim = SlotClaim { index, coord, peer_id: old(self).self_id, confirmations: 0 };
                &&& announce == Some(claim_announcement(claim))
                &&& final(self).claimed_slots@ == old(self).claimed_slots@.insert(index, claim)
                &&& final(self).self_slot == Some(claim)
                &&& final(self).slot_coords@ == coords_insert(old(self).slot_coords@, coord)
                &&& final(self).peers == old(self).peers
                &&& final(self).self_id == old(self).self_id
            },
    {
        if self.claimed_slots.contains_key(&index) {
            return None;
        }
        let peer_id = self.self_id.clone();
        let claim = SlotClaim::new(index, peer_id.clone(), coord);
        self.self_slot = Some(claim.clone());
        self.claimed_slots.insert(index, claim);
        self.record_coord(coord);
        proof {
            lemma_coords_insert_grows(old(self).slot_coords@, coord);
        }
        Some(FloodMessage::SlotClaim { index, peer_id, coord: (coord.q, coord.r, coord.z) })
    }
}

/// The position of the peer with id `id` (meaningful when `has_peer(peers, id)`).
pub open spec fn peer_position(peers: Seq<MeshPeer>, id: Seq<char>) -> int {
    choose|i: int| 0 <= i < peers.len() && #[trigger] peers[i].id@ == id
}

/// `peers` with the slot of the peer whose id is `id` set to `claim`.
pub open spec fn peers_with_slot(peers: Seq<MeshPeer>, id: Seq<char>, claim: SlotClaim) -> Seq<MeshPeer> {
    peers.map_values(
        |p: MeshPeer|
            if p.id@ == id {
                MeshPeer { slot: Some(claim), ..p }
            } else {
                p
            },
    )
}

/// The coordinate carried by a `(q, r, z)` triple.
pub open spec fn coord_of_triple(t: (i64, i64, i64)) -> HexCoord {
    HexCoord { q: t.0, r: t.1, z: t.2 }
}

/// Whether a slot claim from `peer_id` at `coord` is accepted, given the coordinate
/// `expected` that the SPIRAL index maps to: the coordinates must match and the slot
/// must be free or already held by the same peer.
pub open spec fn claim_acceptable(
    claims: Map<u64, SlotClaim>,
    index: u64,
    peer_id: Seq<char>,
    coord: (i64, i64, i64),
    expected: HexCoord,
) -> bool {
    &&& coord_of_triple(coord) == expected
    &&& claims.contains_key(index) ==> claims[index].peer_id@ == peer_id
}

impl MeshState {
    /// The position of the peer with id `id`, if any.
    pub fn find_peer(&self, id: &String) -> (pos: Option<usize>)
        requires
            unique_peer_ids(self.peers@),
        ensures
            match pos {
                Some(i) => i < self.peers@.len() && self.peers@[i as int].id@ == id@ && i
                    == peer_position(self.peers@, id@),
                None => !has_peer(self.peers@, id@),
            },
    {
        let mut i: usize = 0;
        while i < self.peers.len()
            invariant
                i <= self.peers@.len(),
                unique_peer_ids(self.peers@),
                forall|k: int| 0 <= k < i ==> #[trigger] self.peers@[k].id@ != id@,
            decreases self.peers@.len() - i,
        {
            if self.peers[i].id == *id {
                proof {
                    let j = peer_position(self.peers@, id@);
                    assert(self.peers@[i as int].id@ == id@);
                    assert(0 <= j < self.peers@.len() && self.peers@[j].id@ == id@);
                    if j != i {
                        assert(self.peers@[i as int].id@ != self.peers@[j].id@);
                    }
                }
                return Some(i);
            }
            i = i + 1;
        }
        None
    }

    /// Process a slot claim from another node, at `coord`, where `expected` is the
    /// coordinate that SPIRAL index `index` maps to. The claim is rejected when the
    /// coordinates differ or the slot is held by another peer; otherwise it is
    /// recorded (unconfirmed) and a connected peer with that id learns its slot.
    pub fn process_slot_claim(
        &mut self,
        index: u64,
        peer_id: String,
        coord: (i64, i64, i64),
        expected: HexCoord,
    ) -> (accepted: bool)
        requires
            old(self).wf(),
        ensures
            final(self).wf(),
            final(self).signing_key == old(self).signing_key,
            claims_kept(old(self).claimed_slots@, final(self).claimed_slots@),
            accepted == claim_acceptable(old(self).claimed_slots@, index, peer_id@, coord, expected),
            !accepted ==> *final(self) == *old(self),
            accepted ==> {
                &&& final(self).claimed_slots@ == old(self).claimed_slots@.insert(
                    index,
                    SlotClaim { index, coord: expected, peer_id, confirmations: 0 },
                )
                &&& final(self).slot_coords@ == coords_insert(old(self).slot_coords@, expected)
                &&& final(self).peers@ == peers_with_slot(
                    old(self).peers@,
                    peer_id@,
                    SlotClaim { index, coord: expected, peer_id, confirmations: 0 },
                )
                &&& final(self).self_id == old(self).self_id
                &&& final(self).self_slot == old(self).self_slot
            },
    {
        let hex_coord = HexCoord::new(coord.0, coord.1, coord.2);
        if hex_coord != expected {
            return false;
        }
        match self.claimed_slots.get(&index) {
            Some(existing) => {
                if existing.peer_id != peer_id {
                    return false;
                }
            },
            None => {},
        }
        let claim = SlotClaim::new(index, peer_id.clone(), hex_coord);
        self.claimed_slots.insert(index, claim);
        self.record_coord(hex_coord);
        proof {
            lemma_coords_insert_grows(old(self).slot_coords@, hex_coord);
        }
        let ghost before = self.peers@;
        match self.find_peer(&peer_id) {
            Some(i) => {
                let mut peer = self.peers.remove(i);
                peer.slot = Some(SlotClaim::new(index, peer_id.clone(), expected));
                self.peers.insert(i, peer);
                proof {
                    assert forall|k: int| 0 <= k < before.len() && k != i implies before[k].id@
                        != peer_id@ by {
                        assert(before[i as int].id@ == peer_id@);
                    }
                    assert(self.peers@ =~= peers_with_slot(before, peer_id@, SlotClaim { index, coord: expected, peer_id, confirmations: 0 }));
                }
            },
            None => {
                proof {
                    assert(self.peers@ =~= peers_with_slot(before, peer_id@, SlotClaim { index, coord: expected, peer_id, confirmations: 0 }));
                }
            },
        }
        true
    }
}

/// A peer first seen on a connection: no key, no slot, not coordinated.
pub open spec fn fresh_peer(id: String, addr: String, now: u64) -> MeshPeer {
    MeshPeer { id, addr, public_key: None, last_seen: now, coordinated: false, slot: None }
}

/// `peers` with `peer` stored under its id: replacing the peer with that id, or appended.
pub open spec fn peers_upsert(peers: Seq<MeshPeer>, peer: MeshPeer) -> Seq<MeshPeer> {
    if has_peer(peers, peer.id@) {
        peers.update(peer_position(peers, peer.id@), peer)
    } else {
        peers.push(peer)
    }
}

/// `peers` without the peer whose id is `id` (unchanged when there is none).
pub open spec fn peers_without(peers: Seq<MeshPeer>, id: Seq<char>) -> Seq<MeshPeer> {
    if has_peer(peers, id) {
        peers.remove(peer_position(peers, id))
    } else {
        peers
    }
}

/// The peer table after a `hello` on the connection known as `temp_id` announced
/// `node_id`: the entry is re-keyed to `node_id` unless `node_id` is our own id or
/// already known, in which case the temporary entry is only dropped.
pub open spec fn peers_after_hello(
    peers: Seq<MeshPeer>,
    self_id: Seq<char>,
    temp_id: Seq<char>,
    node_id: String,
    now: u64,
) -> Seq<MeshPeer> {
    if !has_peer(peers, temp_id) {
        peers
    } else {
        let rest = peers_without(peers, temp_id);
        if node_id@ != self_id && !has_peer(rest, node_id@) {
            rest.push(MeshPeer { id: node_id, last_seen: now, ..peers[peer_position(peers, temp_id)] })
        } else {
            rest
        }
    }
}

/// Whether a `hello` re-keys the connection's peer entry (see `peers_after_hello`).
pub open spec fn hello_rekeys(
    peers: Seq<MeshPeer>,
    self_id: Seq<char>,
    temp_id: Seq<char>,
    node_id: Seq<char>,
) -> bool {
    &&& has_peer(peers, temp_id)
    &&& node_id != self_id
    &&& !has_peer(peers_without(peers, temp_id), node_id)
}

/// Removing an element keeps the ids of the others distinct, and no other
/// position carries the removed id.
proof fn lemma_remove_unique(peers: Seq<MeshPeer>, i: int)
    requires
        unique_peer_ids(peers),
        0 <= i < peers.len(),
    ensures
        unique_peer_ids(peers.remove(i)),
        !has_peer(peers.remove(i), peers[i].id@),
        forall|id: Seq<char>| id != peers[i].id@ ==> (has_peer(peers.remove(i), id) <==> has_peer(peers, id)),
{
    let r = peers.remove(i);
    assert forall|a: int, b: int| 0 <= a < r.len() && 0 <= b < r.len() && a != b implies #[trigger] r[a].id@
        != #[trigger] r[b].id@ by {
        let a2 = if a < i { a } else { a + 1 };
        let b2 = if b < i { b } else { b + 1 };
        assert(r[a] == peers[a2] && r[b] == peers[b2]);
        assert(peers[a2].id@ != peers[b2].id@);
    }
    if has_peer(r, peers[i].id@) {
        let k = choose|k: int| 0 <= k < r.len() && #[trigger] r[k].id@ == peers[i].id@;
        let k2 = if k < i { k } else { k + 1 };
        assert(r[k] == peers[k2]);
        assert(peers[k2].id@ != peers[i].id@);
    }
    assert forall|id: Seq<char>| id != peers[i].id@ implies (has_peer(r, id) <==> has_peer(peers, id)) by {
        if has_peer(r, id) {
            let k = choose|k: int| 0 <= k < r.len() && #[trigger] r[k].id@ == id;
            let k2 = if k < i { k } else { k + 1 };
            assert(r[k] == peers[k2]);
        }
        if has_peer(peers, id) {
            let k = choose|k: int| 0 <= k < peers.len() && #[trigger] peers[k].id@ == id;
            assert(k != i);
            let k2 = if k < i { k } else { k - 1 };
            assert(r[k2] == peers[k]);
            assert(r[k2].id@ == id);
        }
        if has_peer(r, id) {
            let k = choose|k: int| 0 <= k < r.len() && #[trigger] r[k].id@ == id;
            let k2 = if k < i { k } else { k + 1 };
            assert(peers[k2].id@ == id);
        }
    }
}

/// Appending a peer with a fresh id keeps ids distinct.
proof fn lemma_push_unique(peers: Seq<MeshPeer>, p: MeshPeer)
    requires
        unique_peer_ids(peers),
        !has_peer(peers, p.id@),
    ensures
        unique_peer_ids(peers.push(p)),
        has_peer(peers.push(p), p.id@),
        forall|id: Seq<char>| id != p.id@ ==> (has_peer(peers.push(p), id) <==> has_peer(peers, id)),
{
    let r = peers.push(p);
    assert(r[peers.len() as int] == p);
    assert forall|a: int, b: int| 0 <= a < r.len() && 0 <= b < r.len() && a != b implies #[trigger] r[a].id@
        != #[trigger] r[b].id@ by {
        if a < peers.len() && b < peers.len() {
            assert(r[a] == peers[a] && r[b] == peers[b]);
            assert(peers[a].id@ != peers[b].id@);
        } else if a < peers.len() {
            assert(r[a] == peers[a]);
            assert(b == peers.len());
            assert(peers[a].id@ != p.id@);
        } else {
            assert(r[b] == peers[b]);
            assert(a == peers.len());
            assert(peers[b].id@ != p.id@);
        }
    }
    assert forall|id: Seq<char>| id != p.id@ implies (has_peer(r, id) <==> has_peer(peers, id)) by {
        if has_peer(r, id) {
            let k = choose|k: int| 0 <= k < r.len() && #[trigger] r[k].id@ == id;
            assert(k < peers.len());
            assert(r[k] == peers[k]);
        }
        if has_peer(peers, id) {
            let k = choose|k: int| 0 <= k < peers.len() && #[trigger] peers[k].id@ == id;
            assert(r[k] == peers[k]);
        }
    }
}

impl MeshState {
    /// Register a connected peer under `id`, replacing any entry with that id.
    pub fn register_peer(&mut self, id: String, addr: String, now: u64)
        requires
            old(self).wf(),
        ensures
            final(self).wf(),
            final(self).signing_key == old(self).signing_key,
            final(self).peers@ == peers_upsert(old(self).peers@, fresh_peer(id, addr, now)),
            final(self).claimed_slots == old(self).claimed_slots,
            final(self).slot_coords == old(self).slot_coords,
            final(self).self_slot == old(self).self_slot,
            final(self).self_id == old(self).self_id,
    {
        let peer = MeshPeer {
            id: id.clone(),
            addr,
            public_key: None,
            last_seen: now,
            coordinated: false,
            slot: None,
        };
        let ghost before = self.peers@;
        match self.find_peer(&id) {
            Some(i) => {
                self.peers.set(i, peer);
                proof {
                    let r = self.peers@;
                    assert forall|a: int, b: int| 0 <= a < r.len() && 0 <= b < r.len() && a != b implies #[trigger] r[a].id@
                        != #[trigger] r[b].id@ by {
                        if a != i && b != i {
                            assert(r[a] == before[a] && r[b] == before[b]);
                        } else if a == i {
                            assert(r[b] == before[b]);
                            assert(before[i as int].id@ != before[b].id@);
                        } else {
                            assert(r[a] == before[a]);
                            assert(before[i as int].id@ != before[a].id@);
                        }
                    }
                }
            },
            None => {
                self.peers.push(peer);
                proof {
                    lemma_push_unique(before, fresh_peer(id, self.peers@.last().addr, now));
                }
            },
        }
    }

    /// Remove the peer with id `id`, if known (a connection closed).
    pub fn remove_peer(&mut self, id: &String)
        requires
            old(self).wf(),
        ensures
            final(self).wf(),
            final(self).signing_key == old(self).signing_key,
            final(self).peers@ == peers_without(old(self).peers@, id@),
            final(self).claimed_slots == old(self).claimed_slots,
            final(self).slot_coords == old(self).slot_coords,
            final(self).self_slot == old(self).self_slot,
            final(self).self_id == old(self).self_id,
    {
        match self.find_peer(id) {
            Some(i) => {
                let ghost before = self.peers@;
                self.peers.remove(i);
                proof {
                    lemma_remove_unique(before, i as int);
                }
            },
            None => {},
        }
    }

    /// Handle a `hello` received on the connection registered as `temp_id`, which
    /// announces the peer's real PeerID `node_id`. Returns the new key of the
    /// connection when the entry was re-keyed.
    pub fn rekey_peer(&mut self, temp_id: &String, node_id: String, now: u64) -> (new_key: Option<String>)
        requires
            old(self).wf(),
        ensures
            final(self).wf(),
            final(self).signing_key == old(self).signing_key,
            final(self).peers@ == peers_after_hello(old(self).peers@, old(self).self_id@, temp_id@, node_id, now),
            hello_rekeys(old(self).peers@, old(self).self_id@, temp_id@, node_id@) ==> new_key == Some(node_id),
            !hello_rekeys(old(self).peers@, old(self).self_id@, temp_id@, node_id@) ==> new_key is None,
            final(self).claimed_slots == old(self).claimed_slots,
            final(self).slot_coords == old(self).slot_coords,
            final(self).self_slot == old(self).self_slot,
            final(self).self_id == old(self).self_id,
    {
        match self.find_peer(temp_id) {
            None => None,
            Some(i) => {
                let ghost before = self.peers@;
                let mut peer = self.peers.remove(i);
                proof {
                    lemma_remove_unique(before, i as int);
                }
                if node_id != self.self_id {
                    match self.find_peer(&node_id) {
                        None => {
                            let ghost rest = self.peers@;
                            peer.id = node_id.clone();
                            peer.last_seen = now;
                            self.peers.push(peer);
                            proof {
                                lemma_push_unique(rest, self.peers@.last());
                            }
                            Some(node_id)
                        },
                        Some(_) => None,
                    }
                } else {
                    None
                }
            },
        }
    }
}

/// One entry of a flooded peer list, as read off the wire.
#[derive(Debug)]
pub struct PeerInfo {
    /// The announced PeerID, if the entry has one
    pub id: Option<String>,
    /// The announced address in text form, if the entry has one
    pub addr: Option<String>,
    /// Whether `addr` parses as a socket address
    pub addr_valid: bool,
    /// The announced slot index, if any
    pub slot: Option<u64>,
    /// The SPIRAL coordinate of `slot` (read only when `slot` is present)
    pub slot_coord: HexCoord,
}

/// A real PeerID starts with `b3b3/` (temporary connection keys do not).
pub open spec fn real_peer_id_spec(id: Seq<char>) -> bool {
    id.len() >= 5 && id.subrange(0, 5) == "b3b3/"@
}

/// What merging a peer list works on: the peers, the claims, the claimed
/// coordinates, and the newly discovered peers to re-flood.
pub type MergeState = (Seq<MeshPeer>, Map<u64, SlotClaim>, Seq<HexCoord>, Seq<(String, String, Option<u64>)>);

/// Merge one flooded entry: a real PeerID other than ours, not yet known, with a valid
/// address is added (with its slot, if announced); an announced slot that is not yet
/// claimed is recorded as claimed by that peer.
pub open spec fn merge_peer_info(acc: MergeState, info: PeerInfo, self_id: Seq<char>, now: u64) -> MergeState {
    let (peers, claims, coords, fresh) = acc;
    match (info.id, info.addr) {
        (Some(id), Some(addr)) => {
            if real_peer_id_spec(id@) && id@ != self_id && !has_peer(peers, id@) && info.addr_valid {
                let slot = match info.slot {
                    Some(idx) => Some(SlotClaim { index: idx, coord: info.slot_coord, peer_id: id, confirmations: 0 }),
                    None => None,
                };
                let claims2 = match info.slot {
                    Some(idx) => if !claims.contains_key(idx) {
                        claims.insert(idx, SlotClaim { index: idx, coord: info.slot_coord, peer_id: id, confirmations: 0 })
                    } else {
                        claims
                    },
                    None => claims,
                };
                let coords2 = match info.slot {
                    Some(idx) => if !claims.contains_key(idx) {
                        coords_insert(coords, info.slot_coord)
                    } else {
                        coords
                    },
                    None => coords,
                };
                (
                    peers.push(MeshPeer { id, addr, public_key: None, last_seen: now, coordinated: false, slot }),
                    claims2,
                    coords2,
                    fresh.push((id, addr, info.slot)),
                )
            } else {
                acc
            }
        },
        _ => acc,
    }
}

/// Merge a whole flooded peer list, entry by entry in order.
pub open spec fn merge_peer_infos(acc: MergeState, infos: Seq<PeerInfo>, self_id: Seq<char>, now: u64) -> MergeState
    decreases infos.len(),
{
    if infos.len() == 0 {
        acc
    } else {
        merge_peer_info(merge_peer_infos(acc, infos.drop_last(), self_id, now), infos.last(), self_id, now)
    }
}

/// Whether `id` starts with `b3b3/`, the mark of a real PeerID.
pub fn is_real_peer_id(id: &str) -> (genuine: bool)
    ensures
        genuine == real_peer_id_spec(id@),
{
    let prefix = "b3b3/";
    proof {
        reveal_strlit("b3b3/");
    }
    let n = id.unicode_len();
    if n < 5 {
        return false;
    }
    let mut i: usize = 0;
    while i < 5
        invariant
            i <= 5,
            n == id@.len(),
            n >= 5,
            prefix@ == "b3b3/"@,
            prefix@.len() == 5,
            forall|k: int| 0 <= k < i ==> id@[k] == prefix@[k],
        decreases 5 - i,
    {
        if id.get_char(i) != prefix.get_char(i) {
            proof {
                assert(id@.subrange(0, 5)[i as int] != prefix@[i as int]);
            }
            return false;
        }
        i = i + 1;
    }
    proof {
        assert(id@.subrange(0, 5) =~= prefix@);
    }
    true
}

impl MeshState {
    /// Merge a flooded peer list into the state and return the newly discovered
    /// peers to re-flood (`None` when there are none).
    pub fn merge_flood_peers(&mut self, infos: &Vec<PeerInfo>, now: u64) -> (reflood: Option<FloodMessage>)
        requires
            old(self).wf(),
        ensures
            final(self).wf(),
            final(self).signing_key == old(self).signing_key,
            claims_kept(old(self).claimed_slots@, final(self).claimed_slots@),
            ({
                let r = merge_peer_infos(
                    (old(self).peers@, old(self).claimed_slots@, old(self).slot_coords@, Seq::empty()),
                    infos@,
                    old(self).self_id@,
                    now,
                );
                &&& final(self).peers@ == r.0
                &&& final(self).claimed_slots@ == r.1
                &&& final(self).slot_coords@ == r.2
                &&& r.3.len() == 0 ==> reflood is None
                &&& r.3.len() > 0 ==> (reflood matches Some(FloodMessage::Peers(v)) && v@ == r.3)
            }),
            final(self).self_id == old(self).self_id,
            final(self).self_slot == old(self).self_slot,
    {
        let ghost init: MergeState = (self.peers@, self.claimed_slots@, self.slot_coords@, Seq::empty());
        let mut fresh: Vec<(String, String, Option<u64>)> = Vec::new();
        let mut i: usize = 0;
        while i < infos.len()
            invariant
                i <= infos@.len(),
                self.wf(),
                claims_kept(old(self).claimed_slots@, self.claimed_slots@),
                self.self_id == old(self).self_id,
                self.self_slot == old(self).self_slot,
                self.signing_key == old(self).signing_key,
                init == (old(self).peers@, old(self).claimed_slots@, old(self).slot_coords@, Seq::<(String, String, Option<u64>)>::empty()),
                (self.peers@, self.claimed_slots@, self.slot_coords@, fresh@) == merge_peer_infos(
                    init,
                    infos@.take(i as int),
                    self.self_id@,
                    now,
                ),
            decreases infos@.len() - i,
        {
            proof {
                assert(infos@.take(i as int + 1).drop_last() =~= infos@.take(i as int));
            }
            let info = &infos[i];
            match (&info.id, &info.addr) {
                (Some(id), Some(addr)) => {
                    if is_real_peer_id(id.as_str()) && *id != self.self_id && self.find_peer(id).is_none()
                        && info.addr_valid {
                        let slot = match info.slot {
                            Some(idx) => Some(SlotClaim::new(idx, id.clone(), info.slot_coord)),
                            None => None,
                        };
                        match info.slot {
                            Some(idx) => {
                                if !self.claimed_slots.contains_key(&idx) {
                                    let claim = SlotClaim::new(idx, id.clone(), info.slot_coord);
                                    let ghost coords_before = self.slot_coords@;
                                    self.record_coord(info.slot_coord);
                                    self.claimed_slots.insert(idx, claim);
                                    proof {
                                        lemma_coords_insert_grows(coords_before, info.slot_coord);
                                    }
                                }
                            },
                            None => {},
                        }
                        let ghost before = self.peers@;
                        self.peers.push(
                            MeshPeer {
                                id: id.clone(),
                                addr: addr.clone(),
                                public_key: None,
                                last_seen: now,
                                coordinated: false,
                                slot,
                            },
                        );
                        proof {
                            lemma_push_unique(before, self.peers@.last());
                        }
                        fresh.push((id.clone(), addr.clone(), info.slot));
                    }
                },
                _ => {},
            }
            i = i + 1;
        }
        proof {
            assert(infos@.take(infos@.len() as int) =~= infos@);
        }
        if fresh.len() == 0 {
            None
        } else {
            Some(FloodMessage::Peers(fresh))
        }
    }
}

/// `new` is `old` after processing a claim of slot `index` by `peer_id` at `coord`,
/// where `expected` is the coordinate of SPIRAL index `index` (see `process_slot_claim`).
pub open spec fn slot_claim_processed(
    old: MeshState,
    new: MeshState,
    index: u64,
    peer_id: String,
    coord: (i64, i64, i64),
    expected: HexCoord,
) -> bool {
    let claim = SlotClaim { index, coord: expected, peer_id, confirmations: 0 };
    if claim_acceptable(old.claimed_slots@, index, peer_id@, coord, expected) {
        &&& new.claimed_slots@ == old.claimed_slots@.insert(index, claim)
        &&& new.slot_coords@ == coords_insert(old.slot_coords@, expected)
        &&& new.peers@ == peers_with_slot(old.peers@, peer_id@, claim)
        &&& new.self_id == old.self_id
        &&& new.self_slot == old.self_slot
    } else {
        new == old
    }
}

/// Whether a validation counts as a confirmation: it accepts a known claim of
/// `index` made by `peer_id`.
pub open spec fn validation_counts(claims: Map<u64, SlotClaim>, index: u64, peer_id: Seq<char>, accepted: bool) -> bool {
    accepted && claims.contains_key(index) && claims[index].peer_id@ == peer_id
}

/// The claims after a validation of `index` by `peer_id`: one more confirmation
/// when the validation counts.
pub open spec fn claims_after_validation(
    claims: Map<u64, SlotClaim>,
    index: u64,
    peer_id: Seq<char>,
    accepted: bool,
) -> Map<u64, SlotClaim> {
    if validation_counts(claims, index, peer_id, accepted) {
        claims.insert(index, SlotClaim { confirmations: (claims[index].confirmations + 1) as u32, ..claims[index] })
    } else {
        claims
    }
}

impl MeshState {
    /// Handle a flooded `slot_claim` message: process the claim, and re-flood it
    /// when the slot was not known before (whether or not the claim was accepted).
    pub fn handle_slot_claim(
        &mut self,
        index: u64,
        claimer_id: String,
        coord: (i64, i64, i64),
        expected: HexCoord,
    ) -> (reflood: Option<FloodMessage>)
        requires
            old(self).wf(),
        ensures
            final(self).wf(),
            final(self).signing_key == old(self).signing_key,
            claims_kept(old(self).claimed_slots@, final(self).claimed_slots@),
            slot_claim_processed(*old(self), *final(self), index, claimer_id, coord, expected),
            !old(self).claimed_slots@.contains_key(index) ==> reflood == Some(
                FloodMessage::SlotClaim { index, peer_id: claimer_id, coord },
            ),
            old(self).claimed_slots@.contains_key(index) ==> reflood is None,
    {
        let is_new = !self.claimed_slots.contains_key(&index);
        self.process_slot_claim(index, claimer_id.clone(), coord, expected);
        if is_new {
            Some(FloodMessage::SlotClaim { index, peer_id: claimer_id, coord })
        } else {
            None
        }
    }

    /// Handle a flooded `slot_validation` response for the claim of `index` by `claimer_id`.
    pub fn apply_slot_validation(&mut self, index: u64, claimer_id: &String, accepted: bool)
        requires
            old(self).wf(),
            validation_counts(old(self).claimed_slots@, index, claimer_id@, accepted)
                ==> old(self).claimed_slots@[index].confirmations < u32::MAX,
        ensures
            final(self).wf(),
            final(self).signing_key == old(self).signing_key,
            claims_kept(old(self).claimed_slots@, final(self).claimed_slots@),
            final(self).claimed_slots@ == claims_after_validation(
                old(self).claimed_slots@,
                index,
                claimer_id@,
                accepted,
            ),
            final(self).peers == old(self).peers,
            final(self).slot_coords == old(self).slot_coords,
            final(self).self_slot == old(self).self_slot,
            final(self).self_id == old(self).self_id,
    {
        if accepted {
            match self.claimed_slots.get(&index) {
                Some(claim) => {
                    if claim.peer_id == *claimer_id {
                        let mut updated = claim.clone();
                        updated.confirmations = updated.confirmations + 1;
                        self.claimed_slots.insert(index, updated);
                    }
                },
                None => {},
            }
        }
    }

    /// SPORE: the announcements of every claimed slot that is missing from a peer's
    /// HaveList `their_slots`, one per slot, in the map's iteration order.
    pub fn missing_slots(&self, their_slots: &Vec<u64>) -> (announce: Vec<FloodMessage>)
        requires
            self.wf(),
        ensures
            forall|k: int| 0 <= k < announce@.len() ==> exists|i: u64| #![trigger self.claimed_slots@[i]]
                self.claimed_slots@.contains_key(i) && !their_slots@.contains(i) && #[trigger] announce@[k]
                    == claim_announcement(self.claimed_slots@[i]),
            forall|i: u64|
                self.claimed_slots@.contains_key(i) && !their_slots@.contains(i) ==> #[trigger] announce@.contains(
                    claim_announcement(self.claimed_slots@[i]),
                ),
            announce@.no_duplicates(),
    {
        let mut announce: Vec<FloodMessage> = Vec::new();
        let ghost claims = self.claimed_slots@;
        let ghost entries = spec_hash_map_iter(&self.claimed_slots).remaining();
        for entry in it: self.claimed_slots.iter()
            invariant
                claims == self.claimed_slots@,
                entries == it.seq(),
                self.wf(),
                forall|j: int| 0 <= j < it.seq().len() ==> #[trigger] claims.contains_key(*it.seq()[j].0)
                    && claims[*it.seq()[j].0] == *it.seq()[j].1,
                it.seq().no_duplicates(),
                forall|i: u64| #[trigger] claims.contains_key(i) ==> it.seq().contains((&i, &claims[i])),
                forall|k: int| 0 <= k < announce@.len() ==> exists|j: int| #![trigger it.seq()[j]]
                    0 <= j < it.index() && !their_slots@.contains(*it.seq()[j].0) && #[trigger] announce@[k]
                        == claim_announcement(claims[*it.seq()[j].0]),
                forall|j: int| 0 <= j < it.index() && !their_slots@.contains(*it.seq()[j].0) ==> announce@.contains(
                    claim_announcement(claims[*#[trigger] it.seq()[j].0]),
                ),
                announce@.no_duplicates(),
        {
            let (idx, claim) = entry;
            if !vec_contains(their_slots, *idx) {
                let msg = FloodMessage::SlotClaim {
                    index: claim.index,
                    peer_id: claim.peer_id.clone(),
                    coord: (claim.coord.q, claim.coord.r, claim.coord.z),
                };
                let ghost prior = announce@;
                announce.push(msg);
                proof {
                    assert forall|x: FloodMessage| prior.contains(x) implies announce@.contains(x) by {
                        let k = choose|k: int| 0 <= k < prior.len() && prior[k] == x;
                        assert(announce@[k] == x);
                    }
                    assert(announce@[prior.len() as int] == msg);
                }
            }
        }
        proof {
            assert forall|i: u64|
                claims.contains_key(i) && !their_slots@.contains(i) implies #[trigger] announce@.contains(
                claim_announcement(claims[i]),
            ) by {
                let j = choose|j: int| 0 <= j < entries.len() && entries[j] == (&i, &claims[i]);
                assert(*entries[j].0 == i);
            }
        }
        announce
    }
}

/// The slot index of an optional claim.
pub open spec fn slot_index_of(slot: Option<SlotClaim>) -> Option<u64> {
    match slot {
        Some(c) => Some(c.index),
        None => None,
    }
}

/// The `(id, addr, slot)` entries announced for `peers`: only peers with real PeerIDs,
/// in table order.
pub open spec fn peer_entries(peers: Seq<MeshPeer>) -> Seq<(String, String, Option<u64>)>
    decreases peers.len(),
{
    if peers.len() == 0 {
        Seq::empty()
    } else {
        let p = peers.last();
        let rest = peer_entries(peers.drop_last());
        if real_peer_id_spec(p.id@) {
            rest.push((p.id, p.addr, slot_index_of(p.slot)))
        } else {
            rest
        }
    }
}

/// Whether some claim sits at coordinate `c`.
pub open spec fn coord_has_claim(claims: Map<u64, SlotClaim>, c: HexCoord) -> bool {
    exists|i: u64| #[trigger] claims.contains_key(i) && claims[i].coord == c
}

/// The coordinates among `coords` at which some slot is claimed, in order.
pub open spec fn claimed_coords(claims: Map<u64, SlotClaim>, coords: Seq<HexCoord>) -> Seq<HexCoord>
    decreases coords.len(),
{
    if coords.len() == 0 {
        Seq::empty()
    } else {
        let rest = claimed_coords(claims, coords.drop_last());
        if coord_has_claim(claims, coords.last()) {
            rest.push(coords.last())
        } else {
            rest
        }
    }
}

impl MeshState {
    /// The peer list flooded to a new connection: ourselves first (with our listen
    /// address and slot), then every peer with a real PeerID.
    pub fn peer_announcements(&self, listen_addr: &String) -> (entries: Vec<(String, String, Option<u64>)>)
        ensures
            entries@ == seq![(self.self_id, *listen_addr, slot_index_of(self.self_slot))] + peer_entries(
                self.peers@,
            ),
    {
        let self_slot = match &self.self_slot {
            Some(c) => Some(c.index),
            None => None,
        };
        let mut entries: Vec<(String, String, Option<u64>)> = Vec::new();
        entries.push((self.self_id.clone(), listen_addr.clone(), self_slot));
        let ghost head = entries@;
        let mut i: usize = 0;
        while i < self.peers.len()
            invariant
                i <= self.peers@.len(),
                head == seq![(self.self_id, *listen_addr, slot_index_of(self.self_slot))],
                entries@ == head + peer_entries(self.peers@.take(i as int)),
            decreases self.peers@.len() - i,
        {
            proof {
                assert(self.peers@.take(i as int + 1).drop_last() =~= self.peers@.take(i as int));
            }
            let peer = &self.peers[i];
            if is_real_peer_id(peer.id.as_str()) {
                let slot = match &peer.slot {
                    Some(c) => Some(c.index),
                    None => None,
                };
                entries.push((peer.id.clone(), peer.addr.clone(), slot));
                proof {
                    assert(entries@ =~= head + peer_entries(self.peers@.take(i as int + 1)));
                }
            }
            i = i + 1;
        }
        proof {
            assert(self.peers@.take(self.peers@.len() as int) =~= self.peers@);
        }
        entries
    }

    /// SPORE HaveList: every claimed slot index, once each.
    pub fn have_list(&self) -> (slots: Vec<u64>)
        ensures
            slots@.to_set() == self.claimed_slots@.dom(),
            slots@.no_duplicates(),
    {
        let mut slots: Vec<u64> = Vec::new();
        let ghost claims = self.claimed_slots@;
        let ghost entries = spec_hash_map_iter(&self.claimed_slots).remaining();
        for entry in it: self.claimed_slots.iter()
            invariant
                claims == self.claimed_slots@,
                entries == it.seq(),
                forall|j: int| 0 <= j < it.seq().len() ==> #[trigger] claims.contains_key(*it.seq()[j].0)
                    && claims[*it.seq()[j].0] == *it.seq()[j].1,
                it.seq().no_duplicates(),
                forall|i: u64| #[trigger] claims.contains_key(i) ==> it.seq().contains((&i, &claims[i])),
                slots@.len() == it.index(),
                forall|j: int| 0 <= j < slots@.len() ==> slots@[j] == *#[trigger] entries[j].0,
                slots@.no_duplicates(),
        {
            let (idx, _claim) = entry;
            proof {
                assert forall|j: int| 0 <= j < slots@.len() implies slots@[j] != *idx by {
                    let k = slots@.len() as int;
                    assert(it.seq()[j] != it.seq()[k]);
                    assert(claims[*it.seq()[j].0] == *it.seq()[j].1);
                }
            }
            slots.push(*idx);
        }
        proof {
            assert(slots@.len() == entries.len());
            assert forall|i: u64| slots@.to_set().contains(i) <==> claims.contains_key(i) by {
                if claims.contains_key(i) {
                    let j = choose|j: int| 0 <= j < entries.len() && entries[j] == (&i, &claims[i]);
                    assert(*entries[j].0 == i);
                    assert(slots@[j] == i);
                }
                if slots@.to_set().contains(i) {
                    let j = choose|j: int| 0 <= j < slots@.len() && slots@[j] == i;
                    assert(claims.contains_key(*entries[j].0));
                }
            }
            assert(slots@.to_set() =~= claims.dom());
        }
        slots
    }

    /// Every claim, once each (flooded to a new connection).
    pub fn claim_list(&self) -> (claims: Vec<SlotClaim>)
        requires
            self.wf(),
        ensures
            forall|k: int| 0 <= k < claims@.len() ==> #[trigger] self.claimed_slots@.contains_key(claims@[k].index)
                && self.claimed_slots@[claims@[k].index] == claims@[k],
            forall|i: u64| #[trigger] self.claimed_slots@.contains_key(i) ==> claims@.contains(self.claimed_slots@[i]),
            claims@.no_duplicates(),
    {
        let mut out: Vec<SlotClaim> = Vec::new();
        let ghost claims = self.claimed_slots@;
        let ghost entries = spec_hash_map_iter(&self.claimed_slots).remaining();
        for entry in it: self.claimed_slots.iter()
            invariant
                claims == self.claimed_slots@,
                self.wf(),
                entries == it.seq(),
                forall|j: int| 0 <= j < it.seq().len() ==> #[trigger] claims.contains_key(*it.seq()[j].0)
                    && claims[*it.seq()[j].0] == *it.seq()[j].1,
                it.seq().no_duplicates(),
                forall|i: u64| #[trigger] claims.contains_key(i) ==> it.seq().contains((&i, &claims[i])),
                out@.len() == it.index(),
                forall|j: int| 0 <= j < out@.len() ==> out@[j] == claims[*#[trigger] entries[j].0],
                out@.no_duplicates(),
        {
            let (idx, claim) = entry;
            proof {
                let k = out@.len() as int;
                assert(entry == it.seq()[k]);
                assert(claims[*idx] == *claim);
                assert forall|j: int| 0 <= j < out@.len() implies out@[j] != *claim by {
                    assert(it.seq()[j] != it.seq()[k]);
                    assert(claims.contains_key(*it.seq()[j].0));
                    if *it.seq()[j].0 == *idx {
                        assert(*it.seq()[j].1 == claims[*idx]);
                    }
                    assert(claims[*it.seq()[j].0].index == *it.seq()[j].0);
                    assert(claims[*idx].index == *idx);
                }
            }
            out.push(claim.clone());
        }
        proof {
            assert(out@.len() == entries.len());
            assert forall|i: u64| #[trigger] claims.contains_key(i) implies out@.contains(claims[i]) by {
                let j = choose|j: int| 0 <= j < entries.len() && entries[j] == (&i, &claims[i]);
                assert(*entries[j].0 == i);
                assert(out@[j] == claims[i]);
            }
            assert forall|k: int| 0 <= k < out@.len() implies #[trigger] claims.contains_key(out@[k].index)
                && claims[out@[k].index] == out@[k] by {
                assert(claims[*entries[k].0].index == *entries[k].0);
            }
        }
        out
    }

    /// The claim at coordinate `coord`, if any slot there is claimed.
    pub fn claim_at(&self, coord: &HexCoord) -> (found: Option<SlotClaim>)
        requires
            self.wf(),
        ensures
            match found {
                Some(c) => self.claimed_slots@.contains_key(c.index) && self.claimed_slots@[c.index] == c
                    && c.coord == *coord,
                None => !coord_has_claim(self.claimed_slots@, *coord),
            },
    {
        let ghost claims = self.claimed_slots@;
        let ghost entries = spec_hash_map_iter(&self.claimed_slots).remaining();
        for entry in it: self.claimed_slots.iter()
            invariant
                claims == self.claimed_slots@,
                self.wf(),
                entries == it.seq(),
                forall|j: int| 0 <= j < it.seq().len() ==> #[trigger] claims.contains_key(*it.seq()[j].0)
                    && claims[*it.seq()[j].0] == *it.seq()[j].1,
                forall|i: u64| #[trigger] claims.contains_key(i) ==> it.seq().contains((&i, &claims[i])),
                forall|j: int| 0 <= j < it.index() ==> (*#[trigger] it.seq()[j].1).coord != *coord,
        {
            let (idx, claim) = entry;
            if claim.coord == *coord {
                proof {
                    assert(claims[*idx].index == *idx);
                }
                return Some(claim.clone());
            }
        }
        proof {
            if coord_has_claim(claims, *coord) {
                let i = choose|i: u64| #[trigger] claims.contains_key(i) && claims[i].coord == *coord;
                let j = choose|j: int| 0 <= j < entries.len() && entries[j] == (&i, &claims[i]);
                assert((*entries[j].1).coord != *coord);
            }
        }
        None
    }

    /// The claims at those of our slot's neighbour coordinates (`neighbor_coords`,
    /// the 20 SPIRAL neighbours of our slot) that are present in the mesh, in
    /// neighbour order; empty while we hold no slot.
    pub fn present_neighbors(&self, neighbor_coords: &Vec<HexCoord>) -> (present: Vec<SlotClaim>)
        requires
            self.wf(),
        ensures
            self.self_slot is None ==> present@.len() == 0,
            self.self_slot is Some ==> {
                let hits = claimed_coords(self.claimed_slots@, neighbor_coords@);
                &&& present@.len() == hits.len()
                &&& forall|k: int| 0 <= k < present@.len() ==> (#[trigger] present@[k]).coord == hits[k]
                    && self.claimed_slots@.contains_key(present@[k].index)
                    && self.claimed_slots@[present@[k].index] == present@[k]
            },
    {
        let mut present: Vec<SlotClaim> = Vec::new();
        if self.self_slot.is_none() {
            return present;
        }
        let mut i: usize = 0;
        while i < neighbor_coords.len()
            invariant
                self.wf(),
                i <= neighbor_coords@.len(),
                present@.len() == claimed_coords(self.claimed_slots@, neighbor_coords@.take(i as int)).len(),
                forall|k: int| 0 <= k < present@.len() ==> (#[trigger] present@[k]).coord == claimed_coords(
                    self.claimed_slots@,
                    neighbor_coords@.take(i as int),
                )[k] && self.claimed_slots@.contains_key(present@[k].index)
                    && self.claimed_slots@[present@[k].index] == present@[k],
            decreases neighbor_coords@.len() - i,
        {
            proof {
                assert(neighbor_coords@.take(i as int + 1).drop_last() =~= neighbor_coords@.take(i as int));
            }
            match self.claim_at(&neighbor_coords[i]) {
                Some(c) => {
                    present.push(c);
                },
                None => {},
            }
            i = i + 1;
        }
        proof {
            assert(neighbor_coords@.take(neighbor_coords@.len() as int) =~= neighbor_coords@);
        }
        present
    }

    /// Count how many of our neighbour coordinates hold a claimed slot.
    pub fn neighbor_count(&self, neighbor_coords: &Vec<HexCoord>) -> (count: usize)
        requires
            self.wf(),
        ensures
            self.self_slot is None ==> count == 0,
            self.self_slot is Some ==> count == claimed_coords(self.claimed_slots@, neighbor_coords@).len(),
    {
        self.present_neighbors(neighbor_coords).len()
    }
}

impl MeshState {
    /// What a node floods to a newly connected peer, in order: the admin list
    /// (`admins`, when not empty), the peer list, the announcement of every claimed
    /// slot, and the node's HaveList.
    pub fn greeting_floods(&self, listen_addr: &String, admins: Vec<String>) -> (msgs: Vec<FloodMessage>)
        requires
            self.wf(),
        ensures
            ({
                let a: int = if admins@.len() > 0 { 1 } else { 0 };
                &&& msgs@.len() == a + 2 + self.claimed_slots@.dom().len()
                &&& msgs@.subrange(a + 1, msgs@.len() - 1).no_duplicates()
                &&& admins@.len() > 0 ==> (msgs@[0] matches FloodMessage::Admins(v) && v@ == admins@)
                &&& msgs@[a] matches FloodMessage::Peers(e) && e@ == seq![
                    (self.self_id, *listen_addr, slot_index_of(self.self_slot)),
                ] + peer_entries(self.peers@)
                &&& forall|k: int| a < k < msgs@.len() - 1 ==> exists|i: u64| #![trigger self.claimed_slots@[i]]
                    self.claimed_slots@.contains_key(i) && #[trigger] msgs@[k] == claim_announcement(
                        self.claimed_slots@[i],
                    )
                &&& forall|i: u64| #[trigger] self.claimed_slots@.contains_key(i) ==> exists|k: int|
                    a < k < msgs@.len() - 1 && #[trigger] msgs@[k] == claim_announcement(self.claimed_slots@[i])
                &&& msgs@.last() matches FloodMessage::SporeHaveList { peer_id, slots } && peer_id == self.self_id
                    && slots@.to_set() == self.claimed_slots@.dom() && slots@.no_duplicates()
            }),
    {
        let ghost a: int = if admins@.len() > 0 { 1 } else { 0 };
        let ghost admin_view = admins@;
        let mut msgs: Vec<FloodMessage> = Vec::new();
        if admins.len() > 0 {
            msgs.push(FloodMessage::Admins(admins));
        }
        msgs.push(FloodMessage::Peers(self.peer_announcements(listen_addr)));
        let claims = self.claim_list();
        let ghost head = msgs@;
        assert(admin_view.len() > 0 ==> (head[0] matches FloodMessage::Admins(v) && v@ == admin_view));
        let mut i: usize = 0;
        while i < claims.len()
            invariant
                i <= claims@.len(),
                head.len() == a + 1,
                msgs@.len() == head.len() + i,
                forall|j: int| 0 <= j < head.len() ==> msgs@[j] == head[j],
                forall|k: int| 0 <= k < i ==> #[trigger] msgs@[head.len() + k] == claim_announcement(claims@[k]),
            decreases claims@.len() - i,
        {
            let c = &claims[i];
            msgs.push(FloodMessage::SlotClaim { index: c.index, peer_id: c.peer_id.clone(), coord: (c.coord.q, c.coord.r, c.coord.z) });
            i = i + 1;
        }
        msgs.push(FloodMessage::SporeHaveList { peer_id: self.self_id.clone(), slots: self.have_list() });
        proof {
            let n = msgs@.len();
            assert forall|k: int| a < k < n - 1 implies exists|i: u64| #![trigger self.claimed_slots@[i]]
                self.claimed_slots@.contains_key(i) && #[trigger] msgs@[k] == claim_announcement(
                    self.claimed_slots@[i],
                ) by {
                let j = k - head.len();
                assert(msgs@[head.len() + j] == claim_announcement(claims@[j]));
                assert(self.claimed_slots@.contains_key(claims@[j].index));
            }
            assert forall|i: u64| #[trigger] self.claimed_slots@.contains_key(i) implies exists|k: int|
                a < k < n - 1 && #[trigger] msgs@[k] == claim_announcement(self.claimed_slots@[i]) by {
                let j = choose|j: int| 0 <= j < claims@.len() && claims@[j] == self.claimed_slots@[i];
                assert(msgs@[head.len() + j] == claim_announcement(claims@[j]));
            }
            assert(msgs@[a] == head[a]);
            assert(msgs@[0] == head[0]);
            assert(admins@ == admin_view);
            // one announcement per claim: the claims listed are the claimed slots, once each
            let idx = claims@.map_values(|c: SlotClaim| c.index);
            assert forall|p: int, q: int| 0 <= p < idx.len() && 0 <= q < idx.len() && p != q implies idx[p]
                != idx[q] by {
                assert(self.claimed_slots@.contains_key(claims@[p].index));
                assert(self.claimed_slots@.contains_key(claims@[q].index));
                assert(claims@[p] != claims@[q]);
            }
            assert(idx.to_set() =~= self.claimed_slots@.dom()) by {
                assert forall|i: u64| #[trigger] self.claimed_slots@.contains_key(i) implies idx.to_set().contains(i) by {
                    let j = choose|j: int| 0 <= j < claims@.len() && claims@[j] == self.claimed_slots@[i];
                    assert(idx[j] == i);
                }
                assert forall|i: u64| idx.to_set().contains(i) implies self.claimed_slots@.contains_key(i) by {
                    let j = choose|j: int| 0 <= j < idx.len() && idx[j] == i;
                    assert(self.claimed_slots@.contains_key(claims@[j].index));
                }
            }
            idx.unique_seq_to_set();
            let mid = msgs@.subrange(a + 1, n - 1);
            assert forall|p: int, q: int| 0 <= p < mid.len() && 0 <= q < mid.len() && p != q implies mid[p] != mid[q] by {
                assert(mid[p] == msgs@[head.len() + p]);
                assert(mid[q] == msgs@[head.len() + q]);
                assert(msgs@[head.len() + p] == claim_announcement(claims@[p]));
                assert(msgs@[head.len() + q] == claim_announcement(claims@[q]));
                assert(idx[p] != idx[q]);
            }
        }
        msgs
    }
}

/// A message received from a peer, with the values the mesh logic reads from it.
#[derive(Debug)]
pub enum PeerMessage {
    /// `hello`: the peer's real PeerID, if the message carries one
    Hello { node_id: Option<String> },
    /// `flood_admins` / `sync_admins`: the admin keys listed
    FloodAdmins { admins: Vec<String> },
    /// `flood_peers` / `sync_peers`: the peer entries listed
    FloodPeers { peers: Vec<PeerInfo> },
    /// `slot_claim`: a claim of `index` by `peer_id` at `coord`; `expected` is the
    /// coordinate that SPIRAL index `index` maps to
    SlotClaim { index: u64, peer_id: String, coord: (i64, i64, i64), expected: HexCoord },
    /// `slot_validation`: a validator's answer to a claim
    SlotValidation { index: u64, peer_id: String, validator_id: String, accepted: bool },
    /// `spore_have_list`: the slot indices the peer knows about
    SporeHaveList { slots: Vec<u64> },
    /// Any other message, or one lacking the fields its type needs
    Unknown,
}

/// What handling a peer message asks of the connection and the node.
#[derive(Debug)]
pub struct MessageOutcome {
    /// The new key of the connection's peer entry, when a `hello` re-keyed it
    pub new_key: Option<String>,
    /// Messages to flood to every connection
    pub floods: Vec<FloodMessage>,
    /// Admin keys to record in storage
    pub admins: Vec<String>,
}

impl MeshState {
    /// Handle a message received on the connection whose peer entry is keyed
    /// `peer_key`, at time `now`.
    pub fn handle_message(&mut self, peer_key: &String, msg: PeerMessage, now: u64) -> (out: MessageOutcome)
        requires
            old(self).wf(),
            msg matches PeerMessage::SlotValidation { index, peer_id, accepted, .. } ==> (validation_counts(
                old(self).claimed_slots@,
                index,
                peer_id@,
                accepted,
            ) ==> old(self).claimed_slots@[index].confirmations < u32::MAX),
        ensures
            final(self).wf(),
            final(self).signing_key == old(self).signing_key,
            claims_kept(old(self).claimed_slots@, final(self).claimed_slots@),
            final(self).self_id == old(self).self_id,
            final(self).self_slot == old(self).self_slot,
            match msg {
                PeerMessage::Hello { node_id: Some(node_id) } => {
                    &&& final(self).peers@ == peers_after_hello(old(self).peers@, old(self).self_id@, peer_key@, node_id, now)
                    &&& final(self).claimed_slots == old(self).claimed_slots
                    &&& final(self).slot_coords == old(self).slot_coords
                    &&& out.new_key == if hello_rekeys(old(self).peers@, old(self).self_id@, peer_key@, node_id@) {
                        Some(node_id)
                    } else {
                        None
                    }
                    &&& out.floods@.len() == 0
                    &&& out.admins@.len() == 0
                },
                PeerMessage::FloodAdmins { admins } => {
                    &&& *final(self) == *old(self)
                    &&& out.new_key is None
                    &&& out.floods@.len() == 0
                    &&& out.admins@ == admins@
                },
                PeerMessage::FloodPeers { peers } => {
                    let r = merge_peer_infos(
                        (old(self).peers@, old(self).claimed_slots@, old(self).slot_coords@, Seq::empty()),
                        peers@,
                        old(self).self_id@,
                        now,
                    );
                    &&& final(self).peers@ == r.0
                    &&& final(self).claimed_slots@ == r.1
                    &&& final(self).slot_coords@ == r.2
                    &&& out.new_key is None
                    &&& out.admins@.len() == 0
                    &&& r.3.len() == 0 ==> out.floods@.len() == 0
                    &&& r.3.len() > 0 ==> out.floods@.len() == 1 && (out.floods@[0] matches FloodMessage::Peers(v) && v@ == r.3)
                },
                PeerMessage::SlotClaim { index, peer_id, coord, expected } => {
                    &&& slot_claim_processed(*old(self), *final(self), index, peer_id, coord, expected)
                    &&& out.new_key is None
                    &&& out.admins@.len() == 0
                    &&& old(self).claimed_slots@.contains_key(index) ==> out.floods@.len() == 0
                    &&& !old(self).claimed_slots@.contains_key(index) ==> out.floods@ == seq![
                        FloodMessage::SlotClaim { index, peer_id, coord },
                    ]
                },
                PeerMessage::SlotValidation { index, peer_id, accepted, .. } => {
                    &&& final(self).claimed_slots@ == claims_after_validation(old(self).claimed_slots@, index, peer_id@, accepted)
                    &&& final(self).peers == old(self).peers
                    &&& final(self).slot_coords == old(self).slot_coords
                    &&& out.new_key is None
                    &&& out.floods@.len() == 0
                    &&& out.admins@.len() == 0
                },
                PeerMessage::SporeHaveList { slots } => {
                    &&& *final(self) == *old(self)
                    &&& out.new_key is None
                    &&& out.admins@.len() == 0
                    &&& forall|k: int| 0 <= k < out.floods@.len() ==> exists|i: u64| #![trigger old(self).claimed_slots@[i]]
                        old(self).claimed_slots@.contains_key(i) && !slots@.contains(i) && #[trigger] out.floods@[k]
                            == claim_announcement(old(self).claimed_slots@[i])
                    &&& forall|i: u64|
                        old(self).claimed_slots@.contains_key(i) && !slots@.contains(i) ==> #[trigger] out.floods@.contains(
                            claim_announcement(old(self).claimed_slots@[i]),
                        )
                    &&& out.floods@.no_duplicates()
                },
                _ => {
                    &&& *final(self) == *old(self)
                    &&& out.new_key is None
                    &&& out.floods@.len() == 0
                    &&& out.admins@.len() == 0
                },
            },
    {
        let mut floods: Vec<FloodMessage> = Vec::new();
        match msg {
            PeerMessage::Hello { node_id: Some(node_id) } => {
                let new_key = self.rekey_peer(peer_key, node_id, now);
                MessageOutcome { new_key, floods, admins: Vec::new() }
            },
            PeerMessage::FloodAdmins { admins } => MessageOutcome { new_key: None, floods, admins },
            PeerMessage::FloodPeers { peers } => {
                match self.merge_flood_peers(&peers, now) {
                    Some(m) => floods.push(m),
                    None => {},
                }
                MessageOutcome { new_key: None, floods, admins: Vec::new() }
            },
            PeerMessage::SlotClaim { index, peer_id, coord, expected } => {
                match self.handle_slot_claim(index, peer_id, coord, expected) {
                    Some(m) => floods.push(m),
                    None => {},
                }
                MessageOutcome { new_key: None, floods, admins: Vec::new() }
            },
            PeerMessage::SlotValidation { index, peer_id, accepted, .. } => {
                self.apply_slot_validation(index, &peer_id, accepted);
                MessageOutcome { new_key: None, floods, admins: Vec::new() }
            },
            PeerMessage::SporeHaveList { slots } => {
                let missing = self.missing_slots(&slots);
                MessageOutcome { new_key: None, floods: missing, admins: Vec::new() }
            },
            _ => MessageOutcome { new_key: None, floods, admins: Vec::new() },
        }
    }
}

/// Claim stability composes: across any sequence of operations that each keep
/// every claim and its owner, claims are kept end to end.
pub proof fn lemma_claims_kept_transitive(
    a: Map<u64, SlotClaim>,
    b: Map<u64, SlotClaim>,
    c: Map<u64, SlotClaim>,
)
    requires
        claims_kept(a, b),
        claims_kept(b, c),
    ensures
        claims_kept(a, c),
{
    assert forall|i: u64| #[trigger] a.contains_key(i) implies c.contains_key(i) && c[i].peer_id@
        == a[i].peer_id@ by {
        assert(b.contains_key(i));
    }
}

/// Processing the same slot claim twice leaves the state as processing it once.
pub proof fn lemma_slot_claim_idempotent(
    s0: MeshState,
    s1: MeshState,
    s2: MeshState,
    index: u64,
    peer_id: String,
    coord: (i64, i64, i64),
    expected: HexCoord,
)
    requires
        slot_claim_processed(s0, s1, index, peer_id, coord, expected),
        slot_claim_processed(s1, s2, index, peer_id, coord, expected),
    ensures
        s2.claimed_slots@ == s1.claimed_slots@,
        s2.slot_coords@ == s1.slot_coords@,
        s2.peers@ == s1.peers@,
        s2.self_slot == s1.self_slot,
{
    let claim = SlotClaim { index, coord: expected, peer_id, confirmations: 0 };
    if claim_acceptable(s0.claimed_slots@, index, peer_id@, coord, expected) {
        assert(claim_acceptable(s1.claimed_slots@, index, peer_id@, coord, expected));
        assert(s2.claimed_slots@ =~= s1.claimed_slots@);
        lemma_coords_insert_grows(s0.slot_coords@, expected);
        assert(s2.peers@ =~= s1.peers@);
    }
}

/// SPORE delivery: when a node processes the announcement of a claim (with the
/// coordinate its own SPIRAL mapping gives for that index equal to the announced
/// one), it knows that slot afterwards, whether it accepted the claim or already
/// held the slot as claimed by another peer.
pub proof fn lemma_announced_claim_is_known(
    old: MeshState,
    new: MeshState,
    claim: SlotClaim,
)
    requires
        slot_claim_processed(old, new, claim.index, claim.peer_id, claim.coord.triple(), claim.coord),
    ensures
        new.claimed_slots@.contains_key(claim.index),
{
}

/// Step `k` of a SPORE sync: state `k + 1` is state `k` after processing the
/// announcement of claim `anns[k]` at the coordinate the claim carries.
pub open spec fn sync_step(states: Seq<MeshState>, anns: Seq<SlotClaim>, k: int) -> bool {
    slot_claim_processed(
        states[k],
        states[k + 1],
        anns[k].index,
        anns[k].peer_id,
        anns[k].coord.triple(),
        anns[k].coord,
    )
}

proof fn lemma_sync_keeps_slot(states: Seq<MeshState>, anns: Seq<SlotClaim>, i: u64, k: int, j: int)
    requires
        states.len() == anns.len() + 1,
        forall|m: int| 0 <= m < anns.len() ==> #[trigger] sync_step(states, anns, m),
        0 <= k <= j < states.len(),
        states[k].claimed_slots@.contains_key(i),
    ensures
        states[j].claimed_slots@.contains_key(i),
    decreases j - k,
{
    if k < j {
        assert(sync_step(states, anns, k));
        lemma_sync_keeps_slot(states, anns, i, k + 1, j);
    }
}

/// SPORE convergence: a node that processes, one after another, the announcements
/// of claims covering every slot a sender knows and the node lacks (its own SPIRAL
/// mapping agreeing with the announced coordinates) ends up knowing every slot the
/// sender knows. `states[k + 1]` is the node after the `k`-th announcement.
pub proof fn lemma_spore_sync_covers(sender: Map<u64, SlotClaim>, states: Seq<MeshState>, anns: Seq<SlotClaim>)
    requires
        states.len() == anns.len() + 1,
        forall|k: int| 0 <= k < anns.len() ==> #[trigger] sync_step(states, anns, k),
        forall|i: u64| #[trigger] sender.contains_key(i) ==> states[0].claimed_slots@.contains_key(i) || exists|
            k: int,
        | 0 <= k < anns.len() && #[trigger] anns[k].index == i,
    ensures
        forall|i: u64| #[trigger] sender.contains_key(i) ==> states.last().claimed_slots@.contains_key(i),
{
    assert forall|i: u64| #[trigger] sender.contains_key(i) implies states.last().claimed_slots@.contains_key(i) by {
        if states[0].claimed_slots@.contains_key(i) {
            lemma_sync_keeps_slot(states, anns, i, 0, anns.len() as int);
        } else {
            let k = choose|k: int| 0 <= k < anns.len() && #[trigger] anns[k].index == i;
            assert(sync_step(states, anns, k));
            assert(coord_of_triple(anns[k].coord.triple()) == anns[k].coord);
            assert(states[k + 1].claimed_slots@.contains_key(i));
            lemma_sync_keeps_slot(states, anns, i, k + 1, anns.len() as int);
        }
    }
}

/// The flooded peer list names each peer with a real PeerID together with its
/// address and the index of its known slot (`None` only when no slot is known),
/// and names nothing else.
pub proof fn lemma_announced_peers_carry_slots(peers: Seq<MeshPeer>)
    ensures
        forall|i: int| 0 <= i < peers.len() && real_peer_id_spec((#[trigger] peers[i]).id@) ==> peer_entries(
            peers,
        ).contains(
            (
                peers[i].id,
                peers[i].addr,
                match peers[i].slot {
                    Some(c) => Some(c.index),
                    None => None,
                },
            ),
        ),
        forall|j: int| 0 <= j < peer_entries(peers).len() ==> exists|i: int| {
            &&& 0 <= i < peers.len()
            &&& real_peer_id_spec(peers[i].id@)
            &&& #[trigger] peer_entries(peers)[j] == (
                #[trigger] peers[i].id,
                peers[i].addr,
                match peers[i].slot {
                    Some(c) => Some(c.index),
                    None => None,
                },
            )
        },
    decreases peers.len(),
{
    if peers.len() > 0 {
        let prev = peers.drop_last();
        lemma_announced_peers_carry_slots(prev);
        let last = peers.len() - 1;
        let rest = peer_entries(prev);
        let all = peer_entries(peers);
        assert(peers.last() == peers[last]);
        let e = (
            peers[last].id,
            peers[last].addr,
            match peers[last].slot {
                Some(c) => Some(c.index),
                None => None,
            },
        );
        if real_peer_id_spec(peers[last].id@) {
            assert(all == rest.push(e));
        } else {
            assert(all == rest);
        }
        assert forall|i: int| 0 <= i < peers.len() && real_peer_id_spec((#[trigger] peers[i]).id@) implies all.contains(
            (
                peers[i].id,
                peers[i].addr,
                match peers[i].slot {
                    Some(c) => Some(c.index),
                    None => None,
                },
            ),
        ) by {
            if i < last {
                assert(prev[i] == peers[i]);
                let x = (
                    peers[i].id,
                    peers[i].addr,
                    match peers[i].slot {
                        Some(c) => Some(c.index),
                        None => None,
                    },
                );
                assert(rest.contains(x));
                let k = choose|k: int| 0 <= k < rest.len() && rest[k] == x;
                assert(all[k] == rest[k]);
            } else {
                assert(all[rest.len() as int] == e);
            }
        }
        assert forall|j: int| 0 <= j < all.len() implies exists|i: int| {
            &&& 0 <= i < peers.len()
            &&& real_peer_id_spec(peers[i].id@)
            &&& #[trigger] all[j] == (
                #[trigger] peers[i].id,
                peers[i].addr,
                match peers[i].slot {
                    Some(c) => Some(c.index),
                    None => None,
                },
            )
        } by {
            if j < rest.len() {
                assert(all[j] == rest[j]);
                let i = choose|i: int| {
                    &&& 0 <= i < prev.len()
                    &&& real_peer_id_spec(prev[i].id@)
                    &&& #[trigger] rest[j] == (
                        #[trigger] prev[i].id,
                        prev[i].addr,
                        match prev[i].slot {
                            Some(c) => Some(c.index),
                            None => None,
                        },
                    )
                };
                assert(prev[i] == peers[i]);
            } else {
                assert(all[j] == e);
                assert(peers[last].id == peers[last].id);
            }
        }
    }
}

/// Registering a peer under `id` leaves exactly one entry with that id, holding the
/// address just given, contact time `now`, no key, no slot and no coordination;
/// every other peer stays as it was.
pub proof fn lemma_register_peer_records_address(peers: Seq<MeshPeer>, id: String, addr: String, now: u64)
    requires
        unique_peer_ids(peers),
    ensures
        ({
            let r = peers_upsert(peers, fresh_peer(id, addr, now));
            &&& exists|i: int| 0 <= i < r.len() && (#[trigger] r[i]).id == id
            &&& forall|i: int| 0 <= i < r.len() && (#[trigger] r[i]).id@ == id@ ==> {
                &&& r[i].id == id
                &&& r[i].addr == addr
                &&& r[i].last_seen == now
                &&& r[i].public_key is None
                &&& r[i].slot is None
                &&& !r[i].coordinated
            }
            &&& forall|j: int| 0 <= j < peers.len() && (#[trigger] peers[j]).id@ != id@ ==> r.contains(peers[j])
        }),
{
    let p = fresh_peer(id, addr, now);
    let r = peers_upsert(peers, p);
    if has_peer(peers, id@) {
        let k = peer_position(peers, id@);
        assert(r == peers.update(k, p));
        assert(r[k] == p);
        assert forall|i: int| 0 <= i < r.len() && (#[trigger] r[i]).id@ == id@ implies r[i] == p by {
            if i != k {
                assert(r[i] == peers[i]);
                assert(peers[i].id@ != peers[k].id@);
            }
        }
        assert forall|j: int| 0 <= j < peers.len() && (#[trigger] peers[j]).id@ != id@ implies r.contains(peers[j]) by {
            assert(j != k);
            assert(r[j] == peers[j]);
        }
    } else {
        assert(r == peers.push(p));
        assert(r[peers.len() as int] == p);
        assert forall|i: int| 0 <= i < r.len() && (#[trigger] r[i]).id@ == id@ implies r[i] == p by {
            if i < peers.len() {
                assert(r[i] == peers[i]);
            }
        }
        assert forall|j: int| 0 <= j < peers.len() && (#[trigger] peers[j]).id@ != id@ implies r.contains(peers[j]) by {
            assert(r[j] == peers[j]);
        }
    }
}

/// Every PeerID computed from a key is recognised as a real PeerID by the flood filter.
pub proof fn lemma_computed_ids_are_real(key: Seq<u8>)
    ensures
        real_peer_id_spec(crate::identity::peer_id_spec(key)),
{
    reveal_strlit("b3b3/");
    let id = crate::identity::peer_id_spec(key);
    assert(id.subrange(0, 5) =~= "b3b3/"@);
}

/// Merging flooded peer lists never adds this node itself as a peer.
pub proof fn lemma_merge_never_adds_self(acc: MergeState, infos: Seq<PeerInfo>, self_id: Seq<char>, now: u64)
    requires
        !has_peer(acc.0, self_id),
    ensures
        !has_peer(merge_peer_infos(acc, infos, self_id, now).0, self_id),
    decreases infos.len(),
{
    if infos.len() > 0 {
        lemma_merge_never_adds_self(acc, infos.drop_last(), self_id, now);
        let before = merge_peer_infos(acc, infos.drop_last(), self_id, now);
        let after = merge_peer_info(before, infos.last(), self_id, now);
        if after.0 != before.0 {
            let id = infos.last().id->0;
            let p = MeshPeer {
                id,
                addr: infos.last().addr->0,
                public_key: None,
                last_seen: now,
                coordinated: false,
                slot: match infos.last().slot {
                    Some(idx) => Some(SlotClaim { index: idx, coord: infos.last().slot_coord, peer_id: id, confirmations: 0 }),
                    None => None,
                },
            };
            assert(after.0 == before.0.push(p));
            assert forall|k: int| 0 <= k < after.0.len() implies #[trigger] after.0[k].id@ != self_id by {
                if k < before.0.len() {
                    assert(after.0[k] == before.0[k]);
                }
            }
        }
    }
}

/// Whether `v` holds `x`.
pub fn vec_contains(v: &Vec<u64>, x: u64) -> (found: bool)
    ensures
        found == v@.contains(x),
{
    let mut i: usize = 0;
    while i < v.len()
        invariant
            i <= v@.len(),
            forall|k: int| 0 <= k < i ==> v@[k] != x,
        decreases v@.len() - i,
    {
        if v[i] == x {
            return true;
        }
        i = i + 1;
    }
    false
}

/// Inserting into the coordinate list keeps every coordinate and adds `c`.
proof fn lemma_coords_insert_grows(coords: Seq<HexCoord>, c: HexCoord)
    ensures
        coords_insert(coords, c).contains(c),
        forall|d: HexCoord| coords.contains(d) ==> #[trigger] coords_insert(coords, c).contains(d),
{
    if !coords.contains(c) {
        assert(coords.push(c)[coords.len() as int] == c);
        assert forall|d: HexCoord| coords.contains(d) implies #[trigger] coords.push(c).contains(d) by {
            let i = choose|i: int| 0 <= i < coords.len() && coords[i] == d;
            assert(coords.push(c)[i] == d);
        }
    }
}

/// Every index below `n` lies in `dom`, so `dom` holds at least `n` elements.
proof fn lemma_prefix_in_domain(dom: Set<u64>, n: nat)
    requires
        dom.finite(),
        n <= u64::MAX + 1,
        forall|k: u64| k < n ==> #[trigger] dom.contains(k),
    ensures
        dom.len() >= n,
    decreases n,
{
    let below = Set::new(|k: u64| k < n);
    lemma_below_len(n);
    assert(below.subset_of(dom));
    vstd::set_lib::lemma_len_subset(below, dom);
}

/// The indices below `n` form a finite set of `n` elements.
proof fn lemma_below_len(n: nat)
    ensures
        Set::new(|k: u64| k < n).finite(),
        n <= u64::MAX + 1 ==> Set::new(|k: u64| k < n).len() == n,
    decreases n,
{
    if n == 0 {
        assert(Set::new(|k: u64| k < n) =~= Set::empty());
    } else {
        let m = (n - 1) as nat;
        lemma_below_len(m);
        if n <= u64::MAX + 1 {
            assert(Set::new(|k: u64| k < n) =~= Set::new(|k: u64| k < m).insert(m as u64));
        } else {
            assert(Set::new(|k: u64| k < n) =~= Set::new(|k: u64| k < m));
        }
    }
}

} // verus!
