use citadel::mesh::{FloodMessage, HexCoord, MeshState, PeerInfo, PeerMessage, SlotClaim};
use ed25519_dalek::SigningKey;

const SELF_ID: &str = "b3b3/self";

fn state() -> MeshState {
    MeshState::new(SELF_ID.to_string(), SigningKey::from_bytes(&[1u8; 32]))
}

fn c(q: i64) -> HexCoord {
    HexCoord::new(q, -q, 0)
}

fn info(id: Option<&str>, addr: Option<&str>, valid: bool, slot: Option<u64>) -> PeerInfo {
    PeerInfo {
        id: id.map(|s| s.to_string()),
        addr: addr.map(|s| s.to_string()),
        addr_valid: valid,
        slot,
        slot_coord: c(slot.unwrap_or(0) as i64),
    }
}

#[test]
fn next_available_slot_fills_gaps() {
    let mut s = state();
    assert_eq!(s.next_available_slot(), 0);
    s.process_slot_claim(0, "b3b3/a".to_string(), (0, 0, 0), c(0));
    s.process_slot_claim(1, "b3b3/b".to_string(), (1, -1, 0), c(1));
    s.process_slot_claim(3, "b3b3/c".to_string(), (3, -3, 0), c(3));
    assert_eq!(s.next_available_slot(), 2);
}

#[test]
fn claim_slot_once() {
    let mut s = state();
    let flood = s.claim_slot(0, c(0));
    match flood {
        Some(FloodMessage::SlotClaim { index, peer_id, coord }) => {
            assert_eq!(index, 0);
            assert_eq!(peer_id, SELF_ID);
            assert_eq!(coord, (0, 0, 0));
        }
        _ => panic!("expected a slot claim announcement"),
    }
    assert_eq!(s.self_slot.as_ref().map(|c| c.index), Some(0));
    assert!(s.is_slot_claimed(&c(0)));
    assert!(!s.is_slot_claimed(&c(1)));
    assert!(s.claim_slot(0, c(0)).is_none());
    assert_eq!(s.claimed_slots.len(), 1);
    assert_eq!(s.next_available_slot(), 1);
}

#[test]
fn claims_are_checked_and_never_stolen() {
    let mut s = state();
    // wrong coordinate for the index
    assert!(!s.process_slot_claim(5, "b3b3/a".to_string(), (9, 9, 9), c(5)));
    assert!(s.claimed_slots.is_empty());
    assert!(s.process_slot_claim(5, "b3b3/a".to_string(), (5, -5, 0), c(5)));
    // another peer cannot take it
    assert!(!s.process_slot_claim(5, "b3b3/b".to_string(), (5, -5, 0), c(5)));
    assert_eq!(s.claimed_slots.get(&5).unwrap().peer_id, "b3b3/a");
    // the same peer re-claiming is accepted and resets confirmations
    s.apply_slot_validation(5, &"b3b3/a".to_string(), true);
    assert_eq!(s.claimed_slots.get(&5).unwrap().confirmations, 1);
    assert!(s.process_slot_claim(5, "b3b3/a".to_string(), (5, -5, 0), c(5)));
    assert_eq!(s.claimed_slots.get(&5).unwrap().confirmations, 0);
    assert_eq!(s.slot_coords.len(), 1);
}

#[test]
fn validations_count_only_for_the_claimer() {
    let mut s = state();
    s.process_slot_claim(2, "b3b3/a".to_string(), (2, -2, 0), c(2));
    s.apply_slot_validation(2, &"b3b3/a".to_string(), true);
    s.apply_slot_validation(2, &"b3b3/a".to_string(), true);
    s.apply_slot_validation(2, &"b3b3/b".to_string(), true);
    s.apply_slot_validation(2, &"b3b3/a".to_string(), false);
    s.apply_slot_validation(7, &"b3b3/a".to_string(), true);
    assert_eq!(s.claimed_slots.get(&2).unwrap().confirmations, 2);
    assert!(!s.claimed_slots.contains_key(&7));
}

#[test]
fn slot_claim_messages_reflood_only_new_slots() {
    let mut s = state();
    let r = s.handle_slot_claim(4, "b3b3/a".to_string(), (4, -4, 0), c(4));
    assert!(matches!(r, Some(FloodMessage::SlotClaim { index: 4, .. })));
    let again = s.handle_slot_claim(4, "b3b3/a".to_string(), (4, -4, 0), c(4));
    assert!(again.is_none());
    // a new slot is re-flooded even when the claim itself is rejected
    let bad = s.handle_slot_claim(6, "b3b3/a".to_string(), (0, 0, 0), c(6));
    assert!(matches!(bad, Some(FloodMessage::SlotClaim { index: 6, .. })));
    assert!(!s.claimed_slots.contains_key(&6));
}

#[test]
fn peers_are_registered_rekeyed_and_removed() {
    let mut s = state();
    s.register_peer("peer-9001".to_string(), "127.0.0.1:9001".to_string(), 10);
    assert_eq!(s.peers.len(), 1);
    // re-registering the same key replaces the entry
    s.register_peer("peer-9001".to_string(), "127.0.0.1:9001".to_string(), 11);
    assert_eq!(s.peers.len(), 1);
    assert_eq!(s.peers[0].last_seen, 11);
    let key = s.rekey_peer(&"peer-9001".to_string(), "b3b3/real".to_string(), 20);
    assert_eq!(key.as_deref(), Some("b3b3/real"));
    assert_eq!(s.peers.len(), 1);
    assert_eq!(s.peers[0].id, "b3b3/real");
    assert_eq!(s.peers[0].addr, "127.0.0.1:9001");
    assert_eq!(s.peers[0].last_seen, 20);

    // a hello carrying our own id drops the temporary entry
    s.register_peer("peer-9002".to_string(), "127.0.0.1:9002".to_string(), 30);
    assert!(s.rekey_peer(&"peer-9002".to_string(), SELF_ID.to_string(), 31).is_none());
    assert_eq!(s.peers.len(), 1);
    // so does a hello for a peer already known
    s.register_peer("peer-9003".to_string(), "127.0.0.1:9003".to_string(), 40);
    assert!(s.rekey_peer(&"peer-9003".to_string(), "b3b3/real".to_string(), 41).is_none());
    assert_eq!(s.peers.len(), 1);
    // unknown connection key: nothing happens
    assert!(s.rekey_peer(&"peer-1".to_string(), "b3b3/x".to_string(), 50).is_none());

    s.remove_peer(&"b3b3/real".to_string());
    assert!(s.peers.is_empty());
    s.remove_peer(&"b3b3/real".to_string());
    assert!(s.peers.is_empty());
}

#[test]
fn flooded_peer_lists_are_filtered() {
    let mut s = state();
    s.process_slot_claim(1, "b3b3/owner".to_string(), (1, -1, 0), c(1));
    let infos = vec![
        info(Some("b3b3/p1"), Some("10.0.0.1:9000"), true, Some(3)),
        info(Some("peer-9000"), Some("10.0.0.2:9000"), true, None),
        info(Some(SELF_ID), Some("10.0.0.3:9000"), true, None),
        info(Some("b3b3/p2"), Some("not an address"), false, None),
        info(Some("b3b3/p3"), None, true, None),
        info(Some("b3b3/p1"), Some("10.0.0.9:9000"), true, None),
        info(Some("b3b3/p4"), Some("10.0.0.4:9000"), true, Some(1)),
    ];
    let reflood = s.merge_flood_peers(&infos, 99);
    let ids: Vec<&str> = s.peers.iter().map(|p| p.id.as_str()).collect();
    assert_eq!(ids, vec!["b3b3/p1", "b3b3/p4"]);
    match reflood {
        Some(FloodMessage::Peers(list)) => assert_eq!(
            list,
            vec![
                ("b3b3/p1".to_string(), "10.0.0.1:9000".to_string(), Some(3)),
                ("b3b3/p4".to_string(), "10.0.0.4:9000".to_string(), Some(1)),
            ]
        ),
        _ => panic!("expected newly discovered peers"),
    }
    // slot 3 was free and is now held by p1; slot 1 keeps its owner
    assert_eq!(s.claimed_slots.get(&3).unwrap().peer_id, "b3b3/p1");
    assert_eq!(s.claimed_slots.get(&1).unwrap().peer_id, "b3b3/owner");
    assert_eq!(s.peers[1].slot.as_ref().map(|c| c.index), Some(1));
    assert_eq!(s.peers[0].last_seen, 99);
    // nothing new the second time
    assert!(s.merge_flood_peers(&infos, 100).is_none());
}

#[test]
fn connected_peer_learns_its_slot() {
    let mut s = state();
    s.register_peer("b3b3/a".to_string(), "10.0.0.1:1".to_string(), 0);
    assert!(s.process_slot_claim(8, "b3b3/a".to_string(), (8, -8, 0), c(8)));
    let slot: &SlotClaim = s.peers[0].slot.as_ref().unwrap();
    assert_eq!(slot.index, 8);
    assert_eq!(slot.coord, c(8));
}

#[test]
fn spore_have_list_and_missing_slots() {
    let mut s = state();
    for i in 0..5u64 {
        s.process_slot_claim(i, format!("b3b3/n{}", i), (i as i64, -(i as i64), 0), c(i as i64));
    }
    let mut have = s.have_list();
    have.sort();
    assert_eq!(have, vec![0, 1, 2, 3, 4]);
    let missing = s.missing_slots(&vec![0, 2, 4, 42]);
    let mut idx: Vec<u64> = missing
        .iter()
        .map(|m| match m {
            FloodMessage::SlotClaim { index, peer_id, coord } => {
                assert_eq!(*peer_id, format!("b3b3/n{}", index));
                assert_eq!(*coord, (*index as i64, -(*index as i64), 0));
                *index
            }
            _ => panic!("expected slot claims"),
        })
        .collect();
    idx.sort();
    assert_eq!(idx, vec![1, 3]);
    assert!(s.missing_slots(&have).is_empty());
    let mut all: Vec<u64> = s.claim_list().iter().map(|c| c.index).collect();
    all.sort();
    assert_eq!(all, vec![0, 1, 2, 3, 4]);
}

#[test]
fn spore_sync_between_two_nodes_converges() {
    let mut a = state();
    let mut b = MeshState::new("b3b3/other".to_string(), SigningKey::from_bytes(&[2u8; 32]));
    for i in [0u64, 2, 5] {
        a.process_slot_claim(i, format!("b3b3/n{}", i), (i as i64, -(i as i64), 0), c(i as i64));
    }
    b.process_slot_claim(1, "b3b3/n1".to_string(), (1, -1, 0), c(1));
    for msg in a.missing_slots(&b.have_list()) {
        if let FloodMessage::SlotClaim { index, peer_id, coord } = msg {
            b.handle_slot_claim(index, peer_id, coord, c(index as i64));
        }
    }
    let mut have = b.have_list();
    have.sort();
    assert_eq!(have, vec![0, 1, 2, 5]);
}

#[test]
fn announcements_for_a_new_connection() {
    let mut s = state();
    s.register_peer("peer-1".to_string(), "10.0.0.1:1".to_string(), 0);
    s.register_peer("b3b3/a".to_string(), "10.0.0.2:2".to_string(), 0);
    let before = s.peer_announcements(&"0.0.0.0:9000".to_string());
    assert_eq!(
        before,
        vec![
            (SELF_ID.to_string(), "0.0.0.0:9000".to_string(), None),
            ("b3b3/a".to_string(), "10.0.0.2:2".to_string(), None),
        ]
    );
    s.claim_slot(0, c(0));
    let after = s.peer_announcements(&"0.0.0.0:9000".to_string());
    assert_eq!(after[0].2, Some(0));
}

#[test]
fn present_neighbors_in_neighbor_order() {
    let mut s = state();
    let neighbors = vec![c(1), c(2), c(3), c(4)];
    s.process_slot_claim(3, "b3b3/x".to_string(), (3, -3, 0), c(3));
    s.process_slot_claim(1, "b3b3/y".to_string(), (1, -1, 0), c(1));
    // no slot of our own yet
    assert!(s.present_neighbors(&neighbors).is_empty());
    assert_eq!(s.neighbor_count(&neighbors), 0);
    s.claim_slot(0, c(0));
    let present: Vec<u64> = s.present_neighbors(&neighbors).iter().map(|c| c.index).collect();
    assert_eq!(present, vec![1, 3]);
    assert_eq!(s.neighbor_count(&neighbors), 2);
    assert!(s.claim_at(&c(2)).is_none());
    assert_eq!(s.claim_at(&c(3)).unwrap().peer_id, "b3b3/x");
}

#[test]
fn handle_message_dispatches_each_kind() {
    let mut s = state();
    s.register_peer("peer-7".to_string(), "10.0.0.7:7".to_string(), 1);
    let out = s.handle_message(&"peer-7".to_string(), PeerMessage::Hello { node_id: Some("b3b3/seven".to_string()) }, 2);
    assert_eq!(out.new_key.as_deref(), Some("b3b3/seven"));
    assert!(out.floods.is_empty());

    let out = s.handle_message(
        &"b3b3/seven".to_string(),
        PeerMessage::FloodAdmins { admins: vec!["k1".to_string(), "k2".to_string()] },
        3,
    );
    assert_eq!(out.admins, vec!["k1".to_string(), "k2".to_string()]);

    let out = s.handle_message(
        &"b3b3/seven".to_string(),
        PeerMessage::SlotClaim { index: 9, peer_id: "b3b3/seven".to_string(), coord: (9, -9, 0), expected: c(9) },
        4,
    );
    assert_eq!(out.floods.len(), 1);
    assert_eq!(s.peers[0].slot.as_ref().map(|c| c.index), Some(9));

    let out = s.handle_message(
        &"b3b3/seven".to_string(),
        PeerMessage::SlotValidation { index: 9, peer_id: "b3b3/seven".to_string(), validator_id: "b3b3/v".to_string(), accepted: true },
        5,
    );
    assert!(out.floods.is_empty());
    assert_eq!(s.claimed_slots.get(&9).unwrap().confirmations, 1);

    let out = s.handle_message(&"b3b3/seven".to_string(), PeerMessage::SporeHaveList { slots: vec![] }, 6);
    assert_eq!(out.floods.len(), 1);

    let out = s.handle_message(
        &"b3b3/seven".to_string(),
        PeerMessage::FloodPeers { peers: vec![info(Some("b3b3/new"), Some("10.0.0.8:8"), true, None)] },
        7,
    );
    assert!(matches!(out.floods.as_slice(), [FloodMessage::Peers(list)] if list.len() == 1));

    let out = s.handle_message(&"b3b3/seven".to_string(), PeerMessage::Unknown, 8);
    assert!(out.floods.is_empty() && out.admins.is_empty() && out.new_key.is_none());
    let out = s.handle_message(&"b3b3/seven".to_string(), PeerMessage::Hello { node_id: None }, 9);
    assert!(out.new_key.is_none());
    assert_eq!(s.peers.len(), 2);
}

#[test]
fn greeting_floods_in_order() {
    let mut s = state();
    s.register_peer("b3b3/a".to_string(), "10.0.0.2:2".to_string(), 0);
    s.claim_slot(0, c(0));
    s.process_slot_claim(2, "b3b3/a".to_string(), (2, -2, 0), c(2));
    let listen = "0.0.0.0:9000".to_string();

    let msgs = s.greeting_floods(&listen, vec!["admin-key".to_string()]);
    assert_eq!(msgs.len(), 5);
    assert!(matches!(&msgs[0], FloodMessage::Admins(a) if a == &vec!["admin-key".to_string()]));
    assert!(matches!(&msgs[1], FloodMessage::Peers(p) if p.len() == 2 && p[0].2 == Some(0)));
    let mut claimed: Vec<u64> = msgs[2..4]
        .iter()
        .map(|m| match m {
            FloodMessage::SlotClaim { index, .. } => *index,
            other => panic!("unexpected {:?}", other),
        })
        .collect();
    claimed.sort();
    assert_eq!(claimed, vec![0, 2]);
    match &msgs[4] {
        FloodMessage::SporeHaveList { peer_id, slots } => {
            assert_eq!(peer_id, SELF_ID);
            let mut slots = slots.clone();
            slots.sort();
            assert_eq!(slots, vec![0, 2]);
        }
        other => panic!("unexpected {:?}", other),
    }

    let quiet = s.greeting_floods(&listen, vec![]);
    assert_eq!(quiet.len(), 4);
    assert!(matches!(&quiet[0], FloodMessage::Peers(_)));
}
