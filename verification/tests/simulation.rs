use citadel::mesh::HexCoord;
use citadel::simulation::{MeshEvent, NodeId, Simulation, SpiralIndex};

const DIRS: [(i64, i64); 6] = [(1, -1), (1, 0), (0, 1), (-1, 1), (-1, 0), (0, -1)];

/// A small stand-in topology: slot 0 at the origin, slots 1..=6 around it,
/// then further slots stacked on the layers above.
fn coord_of(slot: u64) -> HexCoord {
    if slot == 0 {
        HexCoord::new(0, 0, 0)
    } else {
        let k = (slot - 1) as usize;
        let (q, r) = DIRS[k % 6];
        HexCoord::new(q, r, (k / 6) as i64)
    }
}

fn neighbors_of(c: HexCoord) -> Vec<HexCoord> {
    let mut v: Vec<HexCoord> = DIRS.iter().map(|(dq, dr)| HexCoord::new(c.q + dq, c.r + dr, c.z)).collect();
    v.push(HexCoord::new(c.q, c.r, c.z + 1));
    v.push(HexCoord::new(c.q, c.r, c.z - 1));
    v
}

/// Scaled validation: ceil(k * 11 / 20) of the k present neighbours.
fn thresholds() -> Vec<usize> {
    (0..=20usize).map(|k| (k * 11 + 19) / 20).collect()
}

fn add(sim: &mut Simulation) -> NodeId {
    let slot = sim.next_slot();
    let coord = coord_of(slot.value());
    sim.add_node(coord, &neighbors_of(coord), &thresholds())
}

fn run_assembly(sim: &mut Simulation, count: usize) {
    let total = sim.node_count() + count;
    let coords: Vec<HexCoord> = (0..total as u64).map(coord_of).collect();
    let neighbor_lists: Vec<Vec<HexCoord>> = coords.iter().map(|c| neighbors_of(*c)).collect();
    sim.run_assembly(count, &coords, &neighbor_lists, &thresholds());
}

#[test]
fn simulation_starts_empty() {
    let sim = Simulation::new();
    assert_eq!(sim.node_count(), 0);
    assert_eq!(sim.event_count(), 0);
}

#[test]
fn first_node_is_origin() {
    let mut sim = Simulation::new();
    let node = add(&mut sim);

    assert_eq!(node, NodeId(0));
    assert_eq!(sim.node_count(), 1);

    let state = sim.node(node).unwrap();
    assert_eq!(state.slot, SpiralIndex::new(0));
    assert_eq!(state.coord, HexCoord::new(0, 0, 0));
}

#[test]
fn nodes_get_sequential_slots() {
    let mut sim = Simulation::new();
    for i in 0..10 {
        let node = add(&mut sim);
        let state = sim.node(node).unwrap();
        assert_eq!(state.slot.value(), i as u64);
    }
}

#[test]
fn connections_established_to_neighbors() {
    let mut sim = Simulation::new();
    run_assembly(&mut sim, 7);
    let origin = sim.node(NodeId(0)).unwrap();
    assert!(!origin.connections.is_empty());
}

#[test]
fn snapshot_captures_state() {
    let mut sim = Simulation::new();
    run_assembly(&mut sim, 10);
    let snap = sim.snapshot(1);
    assert_eq!(snap.node_count, 10);
    assert!(snap.nodes.len() == 10);
}

#[test]
fn events_recorded_for_each_join() {
    let mut sim = Simulation::new();
    run_assembly(&mut sim, 5);
    let join_events = sim.events().iter().filter(|e| matches!(e, MeshEvent::NodeJoined { .. })).count();
    assert_eq!(join_events, 5);
}

#[test]
fn second_node_connects_and_validates() {
    let mut sim = Simulation::new();
    add(&mut sim);
    let b = add(&mut sim);
    let events = sim.events().to_vec();
    // origin: join, then validated with threshold 0 of 0 neighbours
    assert_eq!(
        events[0],
        MeshEvent::NodeJoined { node: NodeId(0), slot: SpiralIndex(0), coord: HexCoord::new(0, 0, 0), frame: 0 }
    );
    assert_eq!(events[1], MeshEvent::NodeValidated { node: NodeId(0), connection_count: 0, threshold: 0, frame: 0 });
    assert_eq!(events[3], MeshEvent::ConnectionEstablished { from: b, to: NodeId(0), direction: 0, frame: 1 });
    assert_eq!(events[4], MeshEvent::ConnectionConfirmed { from: b, to: NodeId(0), frame: 1 });
    assert_eq!(events[5], MeshEvent::NodeValidated { node: b, connection_count: 1, threshold: 1, frame: 1 });
    assert_eq!(events.len(), 6);
    assert_eq!(sim.node(NodeId(0)).unwrap().connections, vec![b]);
    assert_eq!(sim.node(b).unwrap().connections, vec![NodeId(0)]);
    assert!(sim.node(b).unwrap().is_valid);
    assert_eq!(sim.frontier(), 2);
}

#[test]
fn snapshot_lists_connections_and_validity() {
    let mut sim = Simulation::new();
    run_assembly(&mut sim, 3);
    let snap = sim.snapshot(7);
    assert_eq!(snap.frame, 3);
    assert_eq!(snap.frontier_ring, 7);
    let total: usize = snap.nodes.iter().map(|n| n.connections.len()).sum();
    assert_eq!(snap.connections.len(), total);
    assert!(snap.connections.iter().all(|c| c.is_bidirectional && c.direction == 0));
    assert_eq!(snap.valid_count, snap.nodes.iter().filter(|n| n.is_valid).count());
}

#[test]
fn connections_stay_mutual() {
    let mut sim = Simulation::new();
    run_assembly(&mut sim, 12);
    for a in 0..12u64 {
        for b in 0..12u64 {
            let na = sim.node(NodeId(a)).unwrap();
            let nb = sim.node(NodeId(b)).unwrap();
            assert_eq!(na.connections.contains(&NodeId(b)), nb.connections.contains(&NodeId(a)));
        }
    }
    // The origin neighbours the six nodes of the first ring.
    let origin = sim.node(NodeId(0)).unwrap();
    assert_eq!(origin.connections, vec![NodeId(1), NodeId(2), NodeId(3), NodeId(4), NodeId(5), NodeId(6)]);
}

#[test]
fn assembly_matches_single_steps() {
    let mut stepwise = Simulation::new();
    for _ in 0..9 {
        add(&mut stepwise);
    }
    let mut batch = Simulation::new();
    run_assembly(&mut batch, 4);
    run_assembly(&mut batch, 5);
    assert_eq!(batch.events(), stepwise.events());
    assert_eq!(batch.node_count(), 9);
    for k in 0..9u64 {
        assert_eq!(batch.node(NodeId(k)).unwrap().slot.value(), k);
        assert_eq!(batch.node(NodeId(k)).unwrap().connections, stepwise.node(NodeId(k)).unwrap().connections);
    }
}
