//! Mesh assembly simulation with event recording: nodes join SPIRAL slots in
//! order, connect to the neighbours already present, and are validated once
//! enough neighbours confirm them.

use std::collections::HashMap;
use vstd::prelude::*;
use crate::mesh::HexCoord;

verus! {

broadcast use vstd::std_specs::hash::group_hash_axioms;

/// Identifier of a simulated node.
#[derive(Clone, Copy, Debug, PartialEq, Eq, Hash, Structural)]
pub struct NodeId(pub u64);

/// A SPIRAL slot index.
#[derive(Clone, Copy, Debug, PartialEq, Eq, Hash, Structural)]
pub struct SpiralIndex(pub u64);

impl SpiralIndex {
    /// The slot with index `value`.
    pub fn new(value: u64) -> (s: SpiralIndex)
        ensures
            s == SpiralIndex(value),
    {
        SpiralIndex(value)
    }

    /// The index of the slot.
    pub fn value(&self) -> (v: u64)
        ensures
            v == self.0,
    {
        self.0
    }
}

/// An event recorded while the mesh assembles.
#[derive(Clone, Copy, Debug, PartialEq, Eq, Structural)]
pub enum MeshEvent {
    /// A node took a slot
    NodeJoined { node: NodeId, slot: SpiralIndex, coord: HexCoord, frame: u64 },
    /// A node opened a connection to a neighbour
    ConnectionEstablished { from: NodeId, to: NodeId, direction: u8, frame: u64 },
    /// A connection was confirmed by the neighbour
    ConnectionConfirmed { from: NodeId, to: NodeId, frame: u64 },
    /// A node reached its validation threshold
    NodeValidated { node: NodeId, connection_count: usize, threshold: usize, frame: u64 },
}

/// The state of one simulated node.
#[derive(Debug)]
pub struct NodeState {
    pub id: NodeId,
    pub slot: SpiralIndex,
    pub coord: HexCoord,
    /// The nodes this node is connected to
    pub connections: Vec<NodeId>,
    /// Whether the node reached its validation threshold when it joined
    pub is_valid: bool,
}

impl Clone for NodeState {
    fn clone(&self) -> (c: Self)
        ensures
            c.id == self.id,
            c.slot == self.slot,
            c.coord == self.coord,
            c.connections@ == self.connections@,
            c.is_valid == self.is_valid,
    {
        let mut connections: Vec<NodeId> = Vec::new();
        let mut i: usize = 0;
        while i < self.connections.len()
            invariant
                i <= self.connections@.len(),
                connections@ == self.connections@.take(i as int),
            decreases self.connections@.len() - i,
        {
            connections.push(self.connections[i]);
            proof {
                assert(self.connections@.take(i as int + 1) =~= self.connections@.take(i as int).push(
                    self.connections@[i as int],
                ));
            }
            i = i + 1;
        }
        proof {
            assert(self.connections@.take(self.connections@.len() as int) =~= self.connections@);
        }
        NodeState {
            id: self.id,
            slot: self.slot,
            coord: self.coord,
            connections,
            is_valid: self.is_valid,
        }
    }
}

/// One directed connection in a snapshot.
#[derive(Clone, Copy, Debug, PartialEq, Eq, Structural)]
pub struct ConnectionState {
    pub from: NodeId,
    pub to: NodeId,
    pub direction: u8,
    pub is_bidirectional: bool,
}

/// The mesh at one frame.
#[derive(Debug)]
pub struct MeshSnapshot {
    pub frame: u64,
    pub nodes: Vec<NodeState>,
    pub connections: Vec<ConnectionState>,
    pub node_count: usize,
    pub valid_count: usize,
    /// The SPIRAL ring of the first free slot
    pub frontier_ring: u64,
}

/// Simulates mesh assembly and records events.
pub struct Simulation {
    events: Vec<MeshEvent>,
    /// The nodes, node `i` at position `i`
    nodes: Vec<NodeState>,
    slot_to_node: HashMap<u64, NodeId>,
    next_node_id: u64,
    current_frame: u64,
    frontier: u64,
}

/// The first node (in id order) among `nodes` that sits at `coord`, if any.
pub open spec fn first_at(nodes: Seq<NodeState>, coord: HexCoord) -> Option<int>
    decreases nodes.len(),
{
    if nodes.len() == 0 {
        None
    } else {
        match first_at(nodes.drop_last(), coord) {
            Some(i) => Some(i),
            None => if nodes.last().coord == coord {
                Some(nodes.len() - 1)
            } else {
                None
            },
        }
    }
}

/// The ids of the nodes among `nodes` whose coordinate is among `coords`, in id order.
pub open spec fn ids_at(nodes: Seq<NodeState>, coords: Seq<HexCoord>) -> Seq<NodeId>
    decreases nodes.len(),
{
    if nodes.len() == 0 {
        Seq::empty()
    } else {
        let rest = ids_at(nodes.drop_last(), coords);
        if coords.contains(nodes.last().coord) {
            rest.push(nodes.last().id)
        } else {
            rest
        }
    }
}

/// What joining does, neighbour by neighbour: for each neighbour coordinate that has a
/// node, two connection events and one more connection for that node.
pub open spec fn join_steps(
    nodes: Seq<NodeState>,
    events: Seq<MeshEvent>,
    count: nat,
    coords: Seq<HexCoord>,
    node: NodeId,
    frame: u64,
) -> (Seq<Seq<NodeId>>, Seq<MeshEvent>, nat)
    decreases coords.len(),
{
    if coords.len() == 0 {
        (nodes.map_values(|n: NodeState| n.connections@), events, count)
    } else {
        let (conns, evs, k) = join_steps(nodes, events, count, coords.drop_last(), node, frame);
        match first_at(nodes, coords.last()) {
            Some(j) => (
                conns.update(j, conns[j].push(node)),
                evs.push(MeshEvent::ConnectionEstablished { from: node, to: nodes[j].id, direction: 0, frame })
                    .push(MeshEvent::ConnectionConfirmed { from: node, to: nodes[j].id, frame }),
                k + 1,
            ),
            None => (conns, evs, k),
        }
    }
}

/// How many join events `events` records.
pub open spec fn joined_count(events: Seq<MeshEvent>) -> nat
    decreases events.len(),
{
    if events.len() == 0 {
        0
    } else {
        joined_count(events.drop_last()) + if events.last() is NodeJoined {
            1nat
        } else {
            0nat
        }
    }
}

/// The directed connections of `nodes`, node by node in id order.
pub open spec fn snapshot_connections(nodes: Seq<NodeState>) -> Seq<ConnectionState>
    decreases nodes.len(),
{
    if nodes.len() == 0 {
        Seq::empty()
    } else {
        let n = nodes.last();
        snapshot_connections(nodes.drop_last()) + n.connections@.map_values(
            |to: NodeId| ConnectionState { from: n.id, to, direction: 0, is_bidirectional: true },
        )
    }
}

/// How many of `nodes` are valid.
pub open spec fn valid_count_spec(nodes: Seq<NodeState>) -> nat
    decreases nodes.len(),
{
    if nodes.len() == 0 {
        0
    } else {
        valid_count_spec(nodes.drop_last()) + if nodes.last().is_valid {
            1nat
        } else {
            0nat
        }
    }
}

impl Simulation {
    /// Well-formedness: node `i` has id `i` and slot `i`; ids, frames and the frontier
    /// all advance with the node count; connections are mutual and name nodes of the
    /// mesh; no two nodes share a coordinate.
    pub closed spec fn wf(&self) -> bool {
        &&& forall|i: int| 0 <= i < self.nodes@.len() ==> (#[trigger] self.nodes@[i]).id == NodeId(i as u64)
            && self.nodes@[i].slot == SpiralIndex(i as u64)
        &&& self.next_node_id == self.nodes@.len()
        &&& self.current_frame == self.nodes@.len()
        &&& self.frontier == self.nodes@.len()
        &&& joined_count(self.events@) == self.nodes@.len()
        &&& connections_symmetric(self.nodes@)
        &&& connections_closed(self.nodes@)
        &&& coords_distinct(self.nodes@)
    }

    /// The recorded events, oldest first.
    pub closed spec fn event_log(&self) -> Seq<MeshEvent> {
        self.events@
    }

    /// The nodes, in id order.
    pub closed spec fn node_states(&self) -> Seq<NodeState> {
        self.nodes@
    }

    /// Create an empty simulation.
    pub fn new() -> (sim: Simulation)
        ensures
            sim.wf(),
            sim.event_log().len() == 0,
            sim.node_states().len() == 0,
    {
        Simulation {
            events: Vec::new(),
            nodes: Vec::new(),
            slot_to_node: HashMap::new(),
            next_node_id: 0,
            current_frame: 0,
            frontier: 0,
        }
    }

    /// The slot the next node will take: slots are filled in SPIRAL order without gaps.
    pub fn next_slot(&self) -> (slot: SpiralIndex)
        requires
            self.wf(),
        ensures
            slot == SpiralIndex(self.node_states().len() as u64),
    {
        SpiralIndex(self.next_node_id)
    }

    /// The first free slot index (the frontier of the spiral).
    pub fn frontier(&self) -> (f: u64)
        requires
            self.wf(),
        ensures
            f == self.node_states().len(),
    {
        self.frontier
    }

    /// Add a node to the mesh by SPIRAL self-assembly. The node takes the next slot
    /// (`next_slot`), whose coordinate is `coord` and whose 20 neighbour coordinates are
    /// `neighbor_coords`; `thresholds[k]` is the validation threshold for a node with
    /// `k` present neighbours. The join, each connection to a present neighbour, and
    /// (when reached) the validation are recorded as events of the current frame.
    pub fn add_node(&mut self, coord: HexCoord, neighbor_coords: &Vec<HexCoord>, thresholds: &Vec<usize>) -> (node: NodeId)
        requires
            old(self).wf(),
            old(self).node_states().len() < u64::MAX,
            thresholds@.len() > neighbor_coords@.len(),
            forall|i: int| 0 <= i < old(self).node_states().len() ==> (#[trigger] old(self).node_states()[i]).coord
                != coord,
        ensures
            final(self).wf(),
            connections_symmetric(final(self).node_states()),
            joined_next(*old(self), *final(self), node),
            add_node_effect(*old(self), *final(self), coord, neighbor_coords@, thresholds@, node),
    {
        let ghost old_nodes = self.nodes@;
        let n = self.nodes.len();
        let node_id = NodeId(self.next_node_id);
        self.next_node_id = self.next_node_id + 1;
        let slot = SpiralIndex(n as u64);
        let frame = self.current_frame;
        self.events.push(MeshEvent::NodeJoined { node: node_id, slot, coord, frame });
        let ghost ev0 = self.events@;
        let connections = self.ids_at_coords(neighbor_coords);
        let mut connection_count: usize = 0;
        let mut k: usize = 0;
        proof {
            assert(neighbor_coords@.take(0) =~= Seq::<HexCoord>::empty());
            assert(self.nodes@.map_values(|st: NodeState| st.connections@) =~= old_nodes.map_values(|st: NodeState| st.connections@));
        }
        while k < neighbor_coords.len()
            invariant
                k <= neighbor_coords@.len(),
                n == old_nodes.len(),
                self.nodes@.len() == n,
                frame == n,
                node_id == NodeId(n as u64),
                self.current_frame == n,
                self.frontier == n,
                self.next_node_id == n + 1,
                n < u64::MAX,
                forall|i: int| 0 <= i < n ==> (#[trigger] old_nodes[i]).id == NodeId(i as u64)
                    && old_nodes[i].slot == SpiralIndex(i as u64),
                forall|i: int| 0 <= i < n ==> {
                    &&& (#[trigger] self.nodes@[i]).id == old_nodes[i].id
                    &&& self.nodes@[i].slot == old_nodes[i].slot
                    &&& self.nodes@[i].coord == old_nodes[i].coord
                    &&& self.nodes@[i].is_valid == old_nodes[i].is_valid
                    &&& self.nodes@[i].connections@ == join_steps(old_nodes, ev0, 0, neighbor_coords@.take(k as int), node_id, frame).0[i]
                },
                self.events@ == join_steps(old_nodes, ev0, 0, neighbor_coords@.take(k as int), node_id, frame).1,
                connection_count == join_steps(old_nodes, ev0, 0, neighbor_coords@.take(k as int), node_id, frame).2,
                connection_count <= k,
            decreases neighbor_coords@.len() - k,
        {
            proof {
                lemma_join_steps_unfold(old_nodes, ev0, neighbor_coords@, k as int, node_id, frame);
                lemma_first_at_same_coords(self.nodes@, old_nodes, neighbor_coords@[k as int]);
                lemma_first_at_bounds(old_nodes, neighbor_coords@[k as int]);
                lemma_join_steps_shape(old_nodes, ev0, 0, neighbor_coords@.take(k as int), node_id, frame);
            }
            match self.find_node_at_coord(neighbor_coords[k]) {
                Some(j) => {
                    let neighbor_id = self.nodes[j].id;
                    self.events.push(MeshEvent::ConnectionEstablished { from: node_id, to: neighbor_id, direction: 0, frame });
                    self.events.push(MeshEvent::ConnectionConfirmed { from: node_id, to: neighbor_id, frame });
                    connection_count = connection_count + 1;
                    let ghost before = self.nodes@;
                    let mut neighbor = self.nodes.remove(j);
                    neighbor.connections.push(node_id);
                    self.nodes.insert(j, neighbor);
                    proof {
                        assert forall|i: int| 0 <= i < n && i != j implies #[trigger] self.nodes@[i] == before[i] by {
                            if i < j {
                                assert(self.nodes@[i] == before[i]);
                            } else {
                                assert(self.nodes@[i] == before[i]);
                            }
                        }
                    }
                },
                None => {},
            }
            k = k + 1;
        }
        proof {
            assert(neighbor_coords@.take(neighbor_coords@.len() as int) =~= neighbor_coords@);
            lemma_join_steps_joined(old_nodes, ev0, 0, neighbor_coords@, node_id, frame);
            lemma_joined_push(old(self).events@, MeshEvent::NodeJoined { node: node_id, slot, coord, frame });
        }
        let threshold = thresholds[connection_count];
        if connection_count >= threshold {
            let ghost before = self.events@;
            self.events.push(MeshEvent::NodeValidated { node: node_id, connection_count, threshold, frame });
            proof {
                lemma_joined_push(before, MeshEvent::NodeValidated { node: node_id, connection_count, threshold, frame });
            }
        }
        let is_valid = connection_count >= threshold;
        self.nodes.push(NodeState { id: node_id, slot, coord, connections, is_valid });
        self.slot_to_node.insert(slot.0, node_id);
        if slot.0 >= self.frontier {
            self.frontier = slot.0 + 1;
        }
        self.current_frame = self.current_frame + 1;
        proof {
            lemma_join_keeps_connections_symmetric(old_nodes, self.nodes@, ev0, coord, neighbor_coords@);
        }
        node_id
    }

    /// Run assembly for `count` nodes: `add_node` once per node, each taking the
    /// next slot, where `slot_coords[i]` and `neighbor_lists[i]` are the coordinate
    /// and neighbour coordinates of SPIRAL slot `i`.
    pub fn run_assembly(
        &mut self,
        count: usize,
        slot_coords: &Vec<HexCoord>,
        neighbor_lists: &Vec<Vec<HexCoord>>,
        thresholds: &Vec<usize>,
    )
        requires
            old(self).wf(),
            old(self).node_states().len() + count <= u64::MAX,
            slot_coords@.len() >= old(self).node_states().len() + count,
            neighbor_lists@.len() >= old(self).node_states().len() + count,
            forall|i: int| 0 <= i < neighbor_lists@.len() ==> thresholds@.len() > (#[trigger] neighbor_lists@[i])@.len(),
            forall|k: int, i: int|
                old(self).node_states().len() <= k < old(self).node_states().len() + count && 0 <= i
                    < old(self).node_states().len() ==> #[trigger] old(self).node_states()[i].coord
                    != #[trigger] slot_coords@[k],
            forall|k: int, m: int|
                old(self).node_states().len() <= k < m < old(self).node_states().len() + count ==> #[trigger] slot_coords@[k]
                    != #[trigger] slot_coords@[m],
        ensures
            final(self).wf(),
            final(self).node_states().len() == old(self).node_states().len() + count,
            exists|states: Seq<Simulation>| {
                &&& states.len() == count + 1
                &&& states[0] == *old(self)
                &&& states[count as int] == *final(self)
                &&& forall|k: int| 0 <= k < count ==> #[trigger] assembly_run_step(
                    states,
                    slot_coords@,
                    neighbor_lists@,
                    thresholds@,
                    k,
                )
            },
    {
        let ghost mut states: Seq<Simulation> = seq![*self];
        let mut i: usize = 0;
        while i < count
            invariant
                i <= count,
                self.wf(),
                self.node_states().len() == old(self).node_states().len() + i,
                old(self).node_states().len() + count <= u64::MAX,
                slot_coords@.len() >= old(self).node_states().len() + count,
                neighbor_lists@.len() >= old(self).node_states().len() + count,
                forall|j: int| 0 <= j < neighbor_lists@.len() ==> thresholds@.len() > (#[trigger] neighbor_lists@[j])@.len(),
                forall|k: int, j: int|
                    self.node_states().len() <= k < old(self).node_states().len() + count && 0 <= j
                        < self.node_states().len() ==> #[trigger] self.node_states()[j].coord
                        != #[trigger] slot_coords@[k],
                forall|k: int, m: int|
                    old(self).node_states().len() <= k < m < old(self).node_states().len() + count
                        ==> #[trigger] slot_coords@[k] != #[trigger] slot_coords@[m],
                states.len() == i + 1,
                states[0] == *old(self),
                states[i as int] == *self,
                forall|k: int| 0 <= k < i ==> #[trigger] assembly_run_step(
                    states,
                    slot_coords@,
                    neighbor_lists@,
                    thresholds@,
                    k,
                ),
            decreases count - i,
        {
            let n = self.node_count();
            let ghost before = *self;
            assert(thresholds@.len() > neighbor_lists@[n as int]@.len());
            assert forall|j: int| 0 <= j < self.node_states().len() implies (#[trigger] self.node_states()[j]).coord
                != slot_coords@[n as int] by {
                assert(self.node_states()[j].coord != slot_coords@[n as int]);
            }
            let node = self.add_node(slot_coords[n], &neighbor_lists[n], thresholds);
            proof {
                assert forall|k: int, j: int|
                    self.node_states().len() <= k < old(self).node_states().len() + count && 0 <= j
                        < self.node_states().len() implies #[trigger] self.node_states()[j].coord
                        != #[trigger] slot_coords@[k] by {
                    if j < n {
                        assert(self.node_states()[j].coord == before.node_states()[j].coord);
                        assert(before.node_states()[j].coord != slot_coords@[k]);
                    } else {
                        assert(self.node_states()[j].coord == slot_coords@[n as int]);
                        assert(slot_coords@[n as int] != slot_coords@[k]);
                    }
                }
                let prev = states;
                states = states.push(*self);
                assert forall|k: int| 0 <= k < i + 1 implies #[trigger] assembly_run_step(
                    states,
                    slot_coords@,
                    neighbor_lists@,
                    thresholds@,
                    k,
                ) by {
                    assert(states[k] == prev[k]);
                    if k < i {
                        assert(states[k + 1] == prev[k + 1]);
                        assert(assembly_run_step(prev, slot_coords@, neighbor_lists@, thresholds@, k));
                    } else {
                        assert(states[k] == before);
                    }
                }
            }
            i = i + 1;
        }
        assert(states.len() == count + 1);
    }

    /// Get all recorded events, oldest first.
    pub fn events(&self) -> (events: &[MeshEvent])
        ensures
            events@ == self.event_log(),
    {
        self.events.as_slice()
    }

    /// Get the number of events recorded.
    pub fn event_count(&self) -> (n: usize)
        ensures
            n == self.event_log().len(),
    {
        self.events.len()
    }

    /// Get the number of nodes in the mesh.
    pub fn node_count(&self) -> (n: usize)
        ensures
            n == self.node_states().len(),
    {
        self.nodes.len()
    }

    /// The state of node `id`, if it has joined.
    pub fn node(&self, id: NodeId) -> (state: Option<&NodeState>)
        requires
            self.wf(),
        ensures
            match state {
                Some(st) => id.0 < self.node_states().len() && *st == self.node_states()[id.0 as int],
                None => id.0 >= self.node_states().len(),
            },
    {
        if id.0 < self.nodes.len() as u64 {
            Some(&self.nodes[id.0 as usize])
        } else {
            None
        }
    }

    /// A snapshot of the mesh at the current frame; `frontier_ring` is the SPIRAL
    /// ring of the frontier slot (`frontier`).
    pub fn snapshot(&self, frontier_ring: u64) -> (snap: MeshSnapshot)
        requires
            self.wf(),
        ensures
            snap.frame == self.node_states().len(),
            snap.nodes@.len() == self.node_states().len(),
            forall|i: int| 0 <= i < snap.nodes@.len() ==> {
                &&& (#[trigger] snap.nodes@[i]).id == self.node_states()[i].id
                &&& snap.nodes@[i].slot == self.node_states()[i].slot
                &&& snap.nodes@[i].coord == self.node_states()[i].coord
                &&& snap.nodes@[i].is_valid == self.node_states()[i].is_valid
                &&& snap.nodes@[i].connections@ == self.node_states()[i].connections@
            },
            snap.connections@ == snapshot_connections(self.node_states()),
            snap.node_count == self.node_states().len(),
            snap.valid_count == valid_count_spec(self.node_states()),
            snap.frontier_ring == frontier_ring,
    {
        let mut nodes: Vec<NodeState> = Vec::new();
        let mut connections: Vec<ConnectionState> = Vec::new();
        let mut valid_count: usize = 0;
        let mut i: usize = 0;
        while i < self.nodes.len()
            invariant
                i <= self.nodes@.len(),
                nodes@.len() == i,
                forall|k: int| 0 <= k < i ==> {
                    &&& (#[trigger] nodes@[k]).id == self.nodes@[k].id
                    &&& nodes@[k].slot == self.nodes@[k].slot
                    &&& nodes@[k].coord == self.nodes@[k].coord
                    &&& nodes@[k].is_valid == self.nodes@[k].is_valid
                    &&& nodes@[k].connections@ == self.nodes@[k].connections@
                },
                connections@ == snapshot_connections(self.nodes@.take(i as int)),
                valid_count == valid_count_spec(self.nodes@.take(i as int)),
                valid_count <= i,
            decreases self.nodes@.len() - i,
        {
            proof {
                assert(self.nodes@.take(i as int + 1).drop_last() =~= self.nodes@.take(i as int));
            }
            let st = &self.nodes[i];
            nodes.push(st.clone());
            if st.is_valid {
                valid_count = valid_count + 1;
            }
            let ghost before = connections@;
            let mut j: usize = 0;
            while j < st.connections.len()
                invariant
                    j <= st.connections@.len(),
                    connections@ == before + st.connections@.take(j as int).map_values(
                        |to: NodeId| ConnectionState { from: st.id, to, direction: 0, is_bidirectional: true },
                    ),
                decreases st.connections@.len() - j,
            {
                connections.push(ConnectionState { from: st.id, to: st.connections[j], direction: 0, is_bidirectional: true });
                proof {
                    assert(st.connections@.take(j as int + 1).map_values(
                        |to: NodeId| ConnectionState { from: st.id, to, direction: 0, is_bidirectional: true },
                    ) =~= st.connections@.take(j as int).map_values(
                        |to: NodeId| ConnectionState { from: st.id, to, direction: 0, is_bidirectional: true },
                    ).push(ConnectionState { from: st.id, to: st.connections@[j as int], direction: 0, is_bidirectional: true }));
                }
                j = j + 1;
            }
            proof {
                assert(st.connections@.take(st.connections@.len() as int) =~= st.connections@);
            }
            i = i + 1;
        }
        proof {
            assert(self.nodes@.take(self.nodes@.len() as int) =~= self.nodes@);
        }
        MeshSnapshot {
            frame: self.current_frame,
            nodes,
            connections,
            node_count: self.nodes.len(),
            valid_count,
            frontier_ring,
        }
    }

    /// The ids of the nodes at any of `coords`, in id order.
    fn ids_at_coords(&self, coords: &Vec<HexCoord>) -> (ids: Vec<NodeId>)
        ensures
            ids@ == ids_at(self.nodes@, coords@),
    {
        let mut ids: Vec<NodeId> = Vec::new();
        let mut i: usize = 0;
        while i < self.nodes.len()
            invariant
                i <= self.nodes@.len(),
                ids@ == ids_at(self.nodes@.take(i as int), coords@),
            decreases self.nodes@.len() - i,
        {
            proof {
                assert(self.nodes@.take(i as int + 1).drop_last() =~= self.nodes@.take(i as int));
            }
            if coords_contain(coords, &self.nodes[i].coord) {
                ids.push(self.nodes[i].id);
            }
            i = i + 1;
        }
        proof {
            assert(self.nodes@.take(self.nodes@.len() as int) =~= self.nodes@);
        }
        ids
    }

    /// The first node (in id order) at `coord`, if any.
    fn find_node_at_coord(&self, coord: HexCoord) -> (found: Option<usize>)
        ensures
            match found {
                Some(i) => first_at(self.nodes@, coord) == Some(i as int),
                None => first_at(self.nodes@, coord) is None,
            },
    {
        let mut i: usize = 0;
        while i < self.nodes.len()
            invariant
                i <= self.nodes@.len(),
                first_at(self.nodes@.take(i as int), coord) is None,
            decreases self.nodes@.len() - i,
        {
            proof {
                assert(self.nodes@.take(i as int + 1).drop_last() =~= self.nodes@.take(i as int));
            }
            if self.nodes[i].coord == coord {
                proof {
                    lemma_first_at_prefix(self.nodes@, coord, i as int + 1);
                }
                return Some(i);
            }
            i = i + 1;
        }
        proof {
            assert(self.nodes@.take(self.nodes@.len() as int) =~= self.nodes@);
        }
        None
    }
}

/// `first_at` reads only the coordinates of the nodes.
proof fn lemma_first_at_same_coords(a: Seq<NodeState>, b: Seq<NodeState>, coord: HexCoord)
    requires
        a.len() == b.len(),
        forall|i: int| 0 <= i < a.len() ==> (#[trigger] a[i]).coord == b[i].coord,
    ensures
        first_at(a, coord) == first_at(b, coord),
    decreases a.len(),
{
    if a.len() > 0 {
        lemma_first_at_same_coords(a.drop_last(), b.drop_last(), coord);
    }
}

/// A first match is a node at that coordinate.
proof fn lemma_first_at_bounds(nodes: Seq<NodeState>, coord: HexCoord)
    ensures
        first_at(nodes, coord) matches Some(i) ==> 0 <= i < nodes.len() && nodes[i].coord == coord,
    decreases nodes.len(),
{
    if nodes.len() > 0 {
        lemma_first_at_bounds(nodes.drop_last(), coord);
    }
}

/// The connection lists, events and count after the neighbour loop stay in shape:
/// one list per node, and at most one connection per neighbour coordinate.
proof fn lemma_join_steps_shape(
    nodes: Seq<NodeState>,
    events: Seq<MeshEvent>,
    count: nat,
    coords: Seq<HexCoord>,
    node: NodeId,
    frame: u64,
)
    ensures
        join_steps(nodes, events, count, coords, node, frame).0.len() == nodes.len(),
        join_steps(nodes, events, count, coords, node, frame).2 <= count + coords.len(),
    decreases coords.len(),
{
    if coords.len() > 0 {
        lemma_join_steps_shape(nodes, events, count, coords.drop_last(), node, frame);
        lemma_first_at_bounds(nodes, coords.last());
    }
}

/// Counting a match at `coords[k]`: the step function on a prefix one longer.
proof fn lemma_join_steps_unfold(
    nodes: Seq<NodeState>,
    events: Seq<MeshEvent>,
    coords: Seq<HexCoord>,
    k: int,
    node: NodeId,
    frame: u64,
)
    requires
        0 <= k < coords.len(),
    ensures
        coords.take(k + 1).drop_last() == coords.take(k),
        coords.take(k + 1).last() == coords[k],
{
    assert(coords.take(k + 1).drop_last() =~= coords.take(k));
}

/// Every node that joined was recorded by exactly one join event, and nodes hold
/// the SPIRAL slots in order: node `i` has id `i` and slot `i`.
pub proof fn lemma_joins_recorded_in_slot_order(sim: Simulation)
    requires
        sim.wf(),
    ensures
        joined_count(sim.event_log()) == sim.node_states().len(),
        forall|i: int| 0 <= i < sim.node_states().len() ==> (#[trigger] sim.node_states()[i]).id
            == NodeId(i as u64) && sim.node_states()[i].slot == SpiralIndex(i as u64),
{
}

/// How many connections `node` opened according to `events`.
pub open spec fn opened_by(events: Seq<MeshEvent>, node: NodeId) -> nat
    decreases events.len(),
{
    if events.len() == 0 {
        0
    } else {
        opened_by(events.drop_last(), node) + if events.last() matches MeshEvent::ConnectionEstablished {
            from,
            ..
        } && from == node {
            1nat
        } else {
            0nat
        }
    }
}

proof fn lemma_opened_by_push(events: Seq<MeshEvent>, e: MeshEvent, node: NodeId)
    ensures
        opened_by(events.push(e), node) == opened_by(events, node) + if e matches MeshEvent::ConnectionEstablished {
            from,
            ..
        } && from == node {
            1nat
        } else {
            0nat
        },
{
    assert(events.push(e).drop_last() =~= events);
}

/// The neighbour loop only appends connection events, one opened connection per
/// counted neighbour.
proof fn lemma_join_steps_appends(
    nodes: Seq<NodeState>,
    events: Seq<MeshEvent>,
    count: nat,
    coords: Seq<HexCoord>,
    node: NodeId,
    frame: u64,
)
    ensures
        ({
            let (conns, evs, k) = join_steps(nodes, events, count, coords, node, frame);
            &&& evs.len() >= events.len()
            &&& k >= count
            &&& forall|i: int| 0 <= i < events.len() ==> #[trigger] evs[i] == events[i]
            &&& forall|i: int| events.len() <= i < evs.len() ==> (#[trigger] evs[i] is ConnectionEstablished
                || evs[i] is ConnectionConfirmed)
            &&& opened_by(evs, node) == opened_by(events, node) + (k - count)
        }),
    decreases coords.len(),
{
    if coords.len() > 0 {
        lemma_join_steps_appends(nodes, events, count, coords.drop_last(), node, frame);
        let (conns, evs, k) = join_steps(nodes, events, count, coords.drop_last(), node, frame);
        match first_at(nodes, coords.last()) {
            Some(j) => {
                let e1 = MeshEvent::ConnectionEstablished { from: node, to: nodes[j].id, direction: 0, frame };
                let e2 = MeshEvent::ConnectionConfirmed { from: node, to: nodes[j].id, frame };
                lemma_opened_by_push(evs, e1, node);
                lemma_opened_by_push(evs.push(e1), e2, node);
                let out = evs.push(e1).push(e2);
                assert forall|i: int| 0 <= i < events.len() implies #[trigger] out[i] == events[i] by {
                    assert(out[i] == evs[i]);
                }
                assert forall|i: int| events.len() <= i < out.len() implies (#[trigger] out[i] is ConnectionEstablished
                    || out[i] is ConnectionConfirmed) by {
                    if i < evs.len() {
                        assert(out[i] == evs[i]);
                    }
                }
            },
            None => {},
        }
    }
}

/// Validation follows the connections made: a joining node is validated (its
/// `NodeValidated` event recorded last, with the count and threshold, and
/// `is_valid` set) exactly when the number `c` of connections it opened is at
/// least `thresholds[c]`.
pub proof fn lemma_validation_follows_connections(
    old: Simulation,
    new: Simulation,
    coord: HexCoord,
    neighbor_coords: Seq<HexCoord>,
    thresholds: Seq<usize>,
    node: NodeId,
)
    requires
        add_node_effect(old, new, coord, neighbor_coords, thresholds, node),
        thresholds.len() > neighbor_coords.len(),
    ensures
        ({
            let c = opened_by(new.event_log(), node) - opened_by(old.event_log(), node);
            let n = old.node_states().len();
            let valid = c >= thresholds[c];
            &&& 0 <= c <= neighbor_coords.len()
            &&& new.node_states()[n as int].is_valid == valid
            &&& (new.event_log().last() is NodeValidated) == valid
            &&& valid ==> new.event_log().last() == MeshEvent::NodeValidated {
                node,
                connection_count: c as usize,
                threshold: thresholds[c],
                frame: n as u64,
            }
        }),
{
    let n = old.node_states().len();
    let id = NodeId(n as u64);
    let joined = MeshEvent::NodeJoined { node: id, slot: SpiralIndex(n as u64), coord, frame: n as u64 };
    let ev0 = old.event_log().push(joined);
    lemma_opened_by_push(old.event_log(), joined, node);
    lemma_join_steps_appends(old.node_states(), ev0, 0, neighbor_coords, id, n as u64);
    lemma_join_steps_shape(old.node_states(), ev0, 0, neighbor_coords, id, n as u64);
    let (conns, evs, k) = join_steps(old.node_states(), ev0, 0, neighbor_coords, id, n as u64);
    let threshold = thresholds[k as int];
    if k >= threshold {
        let v = MeshEvent::NodeValidated { node: id, connection_count: k as usize, threshold, frame: n as u64 };
        lemma_opened_by_push(evs, v, node);
        assert(new.event_log() == evs.push(v));
    } else {
        assert(new.event_log() == evs);
        let last = evs.len() - 1;
        if last < ev0.len() {
            assert(evs[last] == ev0[last]);
            assert(ev0[last] == joined);
        } else {
            assert(evs[last] is ConnectionEstablished || evs[last] is ConnectionConfirmed);
        }
    }
}

/// In every mesh the simulation builds, connections are mutual (node `a` lists
/// node `b` exactly when `b` lists `a`), name only nodes of the mesh, and no two
/// nodes share a coordinate.
pub proof fn lemma_mesh_connections_mutual(sim: Simulation)
    requires
        sim.wf(),
    ensures
        connections_symmetric(sim.node_states()),
        connections_closed(sim.node_states()),
        coords_distinct(sim.node_states()),
{
}

/// The neighbour loop adds two events per present neighbour and counts them.
pub proof fn lemma_join_steps_event_count(
    nodes: Seq<NodeState>,
    events: Seq<MeshEvent>,
    count: nat,
    coords: Seq<HexCoord>,
    node: NodeId,
    frame: u64,
)
    ensures
        ({
            let (conns, evs, k) = join_steps(nodes, events, count, coords, node, frame);
            &&& k >= count
            &&& evs.len() == events.len() + 2 * (k - count)
        }),
    decreases coords.len(),
{
    if coords.len() > 0 {
        lemma_join_steps_event_count(nodes, events, count, coords.drop_last(), node, frame);
    }
}

/// Appending an event adds one to the join count exactly when it is a join.
proof fn lemma_joined_push(events: Seq<MeshEvent>, e: MeshEvent)
    ensures
        joined_count(events.push(e)) == joined_count(events) + if e is NodeJoined {
            1nat
        } else {
            0nat
        },
{
    assert(events.push(e).drop_last() =~= events);
}

/// The neighbour loop records connection events only, never a join.
proof fn lemma_join_steps_joined(
    nodes: Seq<NodeState>,
    events: Seq<MeshEvent>,
    count: nat,
    coords: Seq<HexCoord>,
    node: NodeId,
    frame: u64,
)
    ensures
        joined_count(join_steps(nodes, events, count, coords, node, frame).1) == joined_count(events),
    decreases coords.len(),
{
    if coords.len() > 0 {
        lemma_join_steps_joined(nodes, events, count, coords.drop_last(), node, frame);
        let evs = join_steps(nodes, events, count, coords.drop_last(), node, frame).1;
        match first_at(nodes, coords.last()) {
            Some(j) => {
                let e1 = MeshEvent::ConnectionEstablished { from: node, to: nodes[j].id, direction: 0, frame };
                let e2 = MeshEvent::ConnectionConfirmed { from: node, to: nodes[j].id, frame };
                lemma_joined_push(evs, e1);
                lemma_joined_push(evs.push(e1), e2);
            },
            None => {},
        }
    }
}

/// Once a prefix has a first match, the whole sequence has the same first match.
proof fn lemma_first_at_prefix(nodes: Seq<NodeState>, coord: HexCoord, k: int)
    requires
        0 <= k <= nodes.len(),
        first_at(nodes.take(k), coord) is Some,
    ensures
        first_at(nodes, coord) == first_at(nodes.take(k), coord),
    decreases nodes.len() - k,
{
    if k < nodes.len() {
        assert(nodes.take(k + 1).drop_last() =~= nodes.take(k));
        lemma_first_at_prefix(nodes, coord, k + 1);
    } else {
        assert(nodes.take(k) =~= nodes);
    }
}

/// What `add_node` does to a mesh `old`, giving `new` and the node id `node`: the
/// node takes the next slot at `coord`; the join, each connection to a node at one
/// of `neighbor_coords`, and (when the count reaches `thresholds[count]`) the
/// validation are recorded; neighbours gain the new node and it lists them.
pub open spec fn add_node_effect(
    old: Simulation,
    new: Simulation,
    coord: HexCoord,
    neighbor_coords: Seq<HexCoord>,
    thresholds: Seq<usize>,
    node: NodeId,
) -> bool {
    let n = old.node_states().len();
    let id = NodeId(n as u64);
    let joined = MeshEvent::NodeJoined { node: id, slot: SpiralIndex(n as u64), coord, frame: n as u64 };
    let (conns, evs, k) = join_steps(
        old.node_states(),
        old.event_log().push(joined),
        0,
        neighbor_coords,
        id,
        n as u64,
    );
    let threshold = thresholds[k as int];
    &&& node == id
    &&& new.event_log() == if k >= threshold {
        evs.push(MeshEvent::NodeValidated { node: id, connection_count: k as usize, threshold, frame: n as u64 })
    } else {
        evs
    }
    &&& new.node_states().len() == n + 1
    &&& forall|i: int| 0 <= i < n ==> {
        &&& (#[trigger] new.node_states()[i]).id == old.node_states()[i].id
        &&& new.node_states()[i].slot == old.node_states()[i].slot
        &&& new.node_states()[i].coord == old.node_states()[i].coord
        &&& new.node_states()[i].is_valid == old.node_states()[i].is_valid
        &&& new.node_states()[i].connections@ == conns[i]
    }
    &&& new.node_states()[n as int].id == id
    &&& new.node_states()[n as int].slot == SpiralIndex(n as u64)
    &&& new.node_states()[n as int].coord == coord
    &&& new.node_states()[n as int].is_valid == (k >= threshold)
    &&& new.node_states()[n as int].connections@ == ids_at(old.node_states(), neighbor_coords)
}

/// Step `k` of `run_assembly`: `states[k + 1]` is `states[k]` after adding the node
/// of the next slot, with that slot's coordinate and neighbour coordinates.
pub open spec fn assembly_run_step(
    states: Seq<Simulation>,
    slot_coords: Seq<HexCoord>,
    neighbor_lists: Seq<Vec<HexCoord>>,
    thresholds: Seq<usize>,
    k: int,
) -> bool {
    let slot = states[k].node_states().len() as int;
    add_node_effect(
        states[k],
        states[k + 1],
        slot_coords[slot],
        neighbor_lists[slot]@,
        thresholds,
        NodeId(slot as u64),
    )
}

/// One `add_node` step: the mesh stays well-formed, gains one node, and the new
/// node's id is the old node count.
pub open spec fn joined_next(old: Simulation, new: Simulation, node: NodeId) -> bool {
    &&& new.wf()
    &&& new.node_states().len() == old.node_states().len() + 1
    &&& node == NodeId(old.node_states().len() as u64)
}

/// Step `k` of an assembly run: `states[k + 1]` is `states[k]` after `add_node`
/// returned `results[k]`.
pub open spec fn assembly_step(states: Seq<Simulation>, results: Seq<NodeId>, k: int) -> bool {
    joined_next(states[k], states[k + 1], results[k])
}

/// Assembly numbers nodes in order: starting from an empty mesh, the `k`-th call
/// of `add_node` returns `NodeId(k)`, leaves `k + 1` nodes, and the new node holds
/// SPIRAL slot `k`.
pub proof fn lemma_assembly_numbers_nodes_in_order(states: Seq<Simulation>, results: Seq<NodeId>)
    requires
        states.len() == results.len() + 1,
        states[0].wf(),
        states[0].node_states().len() == 0,
        forall|k: int| 0 <= k < results.len() ==> #[trigger] assembly_step(states, results, k),
    ensures
        forall|k: int| 0 <= k < results.len() ==> {
            &&& #[trigger] results[k] == NodeId(k as u64)
            &&& states[k + 1].node_states().len() == k + 1
            &&& states[k + 1].node_states()[k].id == NodeId(k as u64)
            &&& states[k + 1].node_states()[k].slot == SpiralIndex(k as u64)
        },
    decreases results.len(),
{
    if results.len() > 0 {
        let m = results.len() - 1;
        assert forall|k: int| 0 <= k < results.drop_last().len() implies #[trigger] assembly_step(
            states.drop_last(),
            results.drop_last(),
            k,
        ) by {
            assert(assembly_step(states, results, k));
            assert(states.drop_last()[k] == states[k]);
            assert(states.drop_last()[k + 1] == states[k + 1]);
            assert(results.drop_last()[k] == results[k]);
        }
        assert(states.drop_last()[0] == states[0]);
        lemma_assembly_numbers_nodes_in_order(states.drop_last(), results.drop_last());
        assert forall|k: int| 0 <= k < results.len() implies {
            &&& #[trigger] results[k] == NodeId(k as u64)
            &&& states[k + 1].node_states().len() == k + 1
            &&& states[k + 1].node_states()[k].id == NodeId(k as u64)
            &&& states[k + 1].node_states()[k].slot == SpiralIndex(k as u64)
        } by {
            assert(assembly_step(states, results, k));
            if k < m {
                assert(assembly_step(states.drop_last(), results.drop_last(), k) == assembly_step(states, results, k));
                assert(results.drop_last()[k] == results[k]);
                assert(states.drop_last()[k + 1] == states[k + 1]);
            } else {
                if m > 0 {
                    assert(states.drop_last()[m] == states[m]);
                    assert(results.drop_last()[m - 1] == results[m - 1]);
                }
            }
            lemma_joins_recorded_in_slot_order(states[k + 1]);
        }
    }
}

/// Connections are mutual: node `a` lists node `b` exactly when `b` lists `a`.
pub open spec fn connections_symmetric(nodes: Seq<NodeState>) -> bool {
    forall|a: int, b: int|
        0 <= a < nodes.len() && 0 <= b < nodes.len() ==> (#[trigger] nodes[a].connections@.contains(nodes[b].id)
            <==> #[trigger] nodes[b].connections@.contains(nodes[a].id))
}

/// Every connection names a node of the mesh (ids below the node count).
pub open spec fn connections_closed(nodes: Seq<NodeState>) -> bool {
    forall|a: int, x: NodeId| 0 <= a < nodes.len() && #[trigger] nodes[a].connections@.contains(x) ==> x.0 < nodes.len()
}

/// No two nodes share a coordinate.
pub open spec fn coords_distinct(nodes: Seq<NodeState>) -> bool {
    forall|a: int, b: int| 0 <= a < nodes.len() && 0 <= b < nodes.len() && a != b ==> #[trigger] nodes[a].coord
        != #[trigger] nodes[b].coord
}

/// A node at `coord` makes the search for `coord` succeed.
proof fn lemma_first_at_found(nodes: Seq<NodeState>, coord: HexCoord, j: int)
    requires
        0 <= j < nodes.len(),
        nodes[j].coord == coord,
    ensures
        first_at(nodes, coord) is Some,
    decreases nodes.len(),
{
    if j < nodes.len() - 1 {
        lemma_first_at_found(nodes.drop_last(), coord, j);
    }
}

/// With distinct coordinates, the search for a node's coordinate finds that node.
proof fn lemma_first_at_distinct(nodes: Seq<NodeState>, coord: HexCoord, j: int)
    requires
        coords_distinct(nodes),
        0 <= j < nodes.len(),
    ensures
        (first_at(nodes, coord) == Some(j)) <==> nodes[j].coord == coord,
{
    lemma_first_at_bounds(nodes, coord);
    if nodes[j].coord == coord {
        lemma_first_at_found(nodes, coord, j);
        let i = first_at(nodes, coord)->0;
        if i != j {
            assert(nodes[i].coord != nodes[j].coord);
        }
    }
}

/// Which lists gain the joining node: with distinct coordinates, node `j` gains
/// `node` exactly when its coordinate is among the neighbour coordinates.
proof fn lemma_join_steps_members(
    nodes: Seq<NodeState>,
    events: Seq<MeshEvent>,
    count: nat,
    coords: Seq<HexCoord>,
    node: NodeId,
    frame: u64,
)
    requires
        coords_distinct(nodes),
    ensures
        forall|j: int, x: NodeId|
            0 <= j < nodes.len() ==> (#[trigger] join_steps(nodes, events, count, coords, node, frame).0[j].contains(x)
                <==> nodes[j].connections@.contains(x) || (x == node && coords.contains(nodes[j].coord))),
    decreases coords.len(),
{
    lemma_join_steps_shape(nodes, events, count, coords, node, frame);
    if coords.len() > 0 {
        let prev = coords.drop_last();
        lemma_join_steps_members(nodes, events, count, prev, node, frame);
        lemma_join_steps_shape(nodes, events, count, prev, node, frame);
        let conns = join_steps(nodes, events, count, prev, node, frame).0;
        let now = join_steps(nodes, events, count, coords, node, frame).0;
        assert forall|j: int, x: NodeId| 0 <= j < nodes.len() implies (#[trigger] now[j].contains(x)
            <==> nodes[j].connections@.contains(x) || (x == node && coords.contains(nodes[j].coord))) by {
            lemma_first_at_distinct(nodes, coords.last(), j);
            assert(coords.contains(nodes[j].coord) <==> prev.contains(nodes[j].coord) || coords.last()
                == nodes[j].coord) by {
                if coords.contains(nodes[j].coord) {
                    let k = choose|k: int| 0 <= k < coords.len() && coords[k] == nodes[j].coord;
                    if k < coords.len() - 1 {
                        assert(prev[k] == coords[k]);
                    }
                }
                if prev.contains(nodes[j].coord) {
                    let k = choose|k: int| 0 <= k < prev.len() && prev[k] == nodes[j].coord;
                    assert(coords[k] == prev[k]);
                }
                if coords.last() == nodes[j].coord {
                    assert(coords[coords.len() - 1] == nodes[j].coord);
                }
            }
            match first_at(nodes, coords.last()) {
                Some(j0) => {
                    lemma_first_at_bounds(nodes, coords.last());
                    if j == j0 {
                        assert(now[j] == conns[j].push(node));
                        assert(now[j].contains(x) <==> conns[j].contains(x) || x == node) by {
                            if now[j].contains(x) {
                                let k = choose|k: int| 0 <= k < now[j].len() && now[j][k] == x;
                                if k < conns[j].len() {
                                    assert(conns[j][k] == x);
                                }
                            }
                            if conns[j].contains(x) {
                                let k = choose|k: int| 0 <= k < conns[j].len() && conns[j][k] == x;
                                assert(now[j][k] == x);
                            }
                            if x == node {
                                assert(now[j][conns[j].len() as int] == x);
                            }
                        }
                    } else {
                        assert(now[j] == conns[j]);
                    }
                },
                None => {
                    assert(now[j] == conns[j]);
                },
            }
        }
    } else {
        let now = join_steps(nodes, events, count, coords, node, frame).0;
        assert forall|j: int, x: NodeId| 0 <= j < nodes.len() implies (#[trigger] now[j].contains(x)
            <==> nodes[j].connections@.contains(x) || (x == node && coords.contains(nodes[j].coord))) by {
            assert(now[j] == nodes[j].connections@);
        }
    }
}

/// The ids found at `coords`: with node `i` holding id `i`, node `j` is listed
/// exactly when its coordinate is among `coords`, and only nodes are listed.
proof fn lemma_ids_at_members(nodes: Seq<NodeState>, coords: Seq<HexCoord>)
    requires
        nodes.len() <= u64::MAX,
        forall|i: int| 0 <= i < nodes.len() ==> (#[trigger] nodes[i]).id == NodeId(i as u64),
    ensures
        forall|j: int| 0 <= j < nodes.len() ==> (#[trigger] ids_at(nodes, coords).contains(NodeId(j as u64))
            <==> coords.contains(nodes[j].coord)),
        forall|x: NodeId| #[trigger] ids_at(nodes, coords).contains(x) ==> x.0 < nodes.len(),
    decreases nodes.len(),
{
    if nodes.len() > 0 {
        let prev = nodes.drop_last();
        assert forall|i: int| 0 <= i < prev.len() implies (#[trigger] prev[i]).id == NodeId(i as u64) by {
            assert(prev[i] == nodes[i]);
        }
        lemma_ids_at_members(prev, coords);
        let rest = ids_at(prev, coords);
        let all = ids_at(nodes, coords);
        let last = nodes.len() - 1;
        assert(nodes.last() == nodes[last]);
        assert forall|x: NodeId| #[trigger] all.contains(x) implies (rest.contains(x) || (x == NodeId(last as u64)
            && coords.contains(nodes[last].coord))) && (x.0 < nodes.len()) by {
            if coords.contains(nodes.last().coord) {
                let k = choose|k: int| 0 <= k < all.len() && all[k] == x;
                if k < rest.len() {
                    assert(rest[k] == all[k]);
                }
            } else {
                assert(all == rest);
            }
        }
        assert forall|j: int| 0 <= j < nodes.len() implies (#[trigger] all.contains(NodeId(j as u64))
            <==> coords.contains(nodes[j].coord)) by {
            if coords.contains(nodes.last().coord) {
                assert(all == rest.push(nodes[last].id));
                assert(all[rest.len() as int] == NodeId(last as u64));
                if j < last {
                    assert(prev[j] == nodes[j]);
                    if rest.contains(NodeId(j as u64)) {
                        let k = choose|k: int| 0 <= k < rest.len() && rest[k] == NodeId(j as u64);
                        assert(all[k] == rest[k]);
                    }
                }
            } else {
                assert(all == rest);
                if j < last {
                    assert(prev[j] == nodes[j]);
                } else if rest.contains(NodeId(j as u64)) {
                    assert(NodeId(j as u64).0 < prev.len());
                }
            }
        }
    }
}

/// Joining keeps connections mutual. Take a mesh whose connections are mutual and
/// name only its own nodes, whose nodes sit at distinct coordinates, and a node
/// joining at a coordinate no node holds; after the join (as `add_node` states it)
/// connections are still mutual and closed and coordinates still distinct, and the
/// new node is connected exactly to the old nodes at its neighbour coordinates.
pub proof fn lemma_join_keeps_connections_symmetric(
    old: Seq<NodeState>,
    new: Seq<NodeState>,
    events: Seq<MeshEvent>,
    coord: HexCoord,
    neighbor_coords: Seq<HexCoord>,
)
    requires
        old.len() < u64::MAX,
        forall|i: int| 0 <= i < old.len() ==> (#[trigger] old[i]).id == NodeId(i as u64),
        connections_symmetric(old),
        connections_closed(old),
        coords_distinct(old),
        forall|i: int| 0 <= i < old.len() ==> (#[trigger] old[i]).coord != coord,
        new.len() == old.len() + 1,
        forall|i: int| 0 <= i < old.len() ==> {
            &&& (#[trigger] new[i]).id == old[i].id
            &&& new[i].coord == old[i].coord
            &&& new[i].connections@ == join_steps(
                old,
                events,
                0,
                neighbor_coords,
                NodeId(old.len() as u64),
                old.len() as u64,
            ).0[i]
        },
        new[old.len() as int].id == NodeId(old.len() as u64),
        new[old.len() as int].coord == coord,
        new[old.len() as int].connections@ == ids_at(old, neighbor_coords),
    ensures
        connections_symmetric(new),
        connections_closed(new),
        coords_distinct(new),
        forall|i: int| 0 <= i < old.len() ==> (#[trigger] new[old.len() as int].connections@.contains(old[i].id)
            <==> neighbor_coords.contains(old[i].coord)),
{
    let n = old.len() as int;
    let node = NodeId(n as u64);
    lemma_join_steps_members(old, events, 0, neighbor_coords, node, n as u64);
    lemma_ids_at_members(old, neighbor_coords);
    assert forall|a: int, b: int| 0 <= a < new.len() && 0 <= b < new.len() implies (
    #[trigger] new[a].connections@.contains(new[b].id) <==> #[trigger] new[b].connections@.contains(new[a].id)) by {
        if a < n {
            assert(new[a].connections@ == join_steps(old, events, 0, neighbor_coords, node, n as u64).0[a]);
        }
        if b < n {
            assert(new[b].connections@ == join_steps(old, events, 0, neighbor_coords, node, n as u64).0[b]);
        }
        if a < n && b < n {
            assert(old[a].connections@.contains(old[b].id) <==> old[b].connections@.contains(old[a].id));
        } else if a < n && b == n {
            assert(!old[a].connections@.contains(node));
        } else if a == n && b < n {
            assert(!old[b].connections@.contains(node));
        }
    }
    assert forall|a: int, x: NodeId| 0 <= a < new.len() && #[trigger] new[a].connections@.contains(x) implies x.0
        < new.len() by {
        if a < n {
            assert(new[a].connections@ == join_steps(old, events, 0, neighbor_coords, node, n as u64).0[a]);
        }
    }
    assert forall|a: int, b: int| 0 <= a < new.len() && 0 <= b < new.len() && a != b implies #[trigger] new[a].coord
        != #[trigger] new[b].coord by {
        if a < n && b < n {
            assert(old[a].coord != old[b].coord);
        }
    }
}

/// Whether `coords` holds `c`.
fn coords_contain(coords: &Vec<HexCoord>, c: &HexCoord) -> (found: bool)
    ensures
        found == coords@.contains(*c),
{
    let mut i: usize = 0;
    while i < coords.len()
        invariant
            i <= coords@.len(),
            forall|k: int| 0 <= k < i ==> coords@[k] != *c,
        decreases coords@.len() - i,
    {
        if coords[i] == *c {
            return true;
        }
        i = i + 1;
    }
    false
}

} // verus!
