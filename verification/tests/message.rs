use citadel::json::{parse_json_line, JsonValue};
use citadel::message::peer_message_of;
use citadel::mesh::PeerMessage;

fn decode(line: &str) -> PeerMessage {
    peer_message_of(&parse_json_line(line).expect("valid JSON"))
}

#[test]
fn malformed_line_is_rejected() {
    assert!(parse_json_line("{not json").is_none());
    assert!(parse_json_line("").is_none());
}

#[test]
fn parsed_values_keep_numbers_and_fields() {
    match parse_json_line(r#"{"a": [1, -2, "x"], "b": true}"#).unwrap() {
        JsonValue::Object(entries) => {
            assert_eq!(entries.len(), 2);
            assert_eq!(entries[0].0, "a");
            match &entries[0].1 {
                JsonValue::Array(items) => {
                    assert!(matches!(items[0], JsonValue::Number { as_u64: Some(1), as_i64: Some(1) }));
                    assert!(matches!(items[1], JsonValue::Number { as_u64: None, as_i64: Some(-2) }));
                    assert!(matches!(&items[2], JsonValue::Str(s) if s == "x"));
                }
                other => panic!("unexpected {:?}", other),
            }
            assert!(matches!(entries[1].1, JsonValue::Bool(true)));
        }
        other => panic!("unexpected {:?}", other),
    }
}

#[test]
fn hello_and_admins() {
    assert!(matches!(decode(r#"{"type":"hello","node_id":"b3b3/x"}"#),
        PeerMessage::Hello { node_id: Some(ref id) } if id == "b3b3/x"));
    assert!(matches!(decode(r#"{"type":"hello"}"#), PeerMessage::Hello { node_id: None }));
    match decode(r#"{"type":"sync_admins","admins":["k1", 7, "k2"]}"#) {
        PeerMessage::FloodAdmins { admins } => assert_eq!(admins, vec!["k1".to_string(), "k2".to_string()]),
        other => panic!("unexpected {:?}", other),
    }
    assert!(matches!(decode(r#"{"type":"flood_admins"}"#), PeerMessage::Unknown));
}

#[test]
fn peer_lists_keep_every_entry() {
    match decode(r#"{"type":"flood_peers","peers":[{"id":"b3b3/a","addr":"1.2.3.4:5","slot":3},{"addr":"x"},9]}"#) {
        PeerMessage::FloodPeers { peers } => {
            assert_eq!(peers.len(), 3);
            assert_eq!(peers[0].id.as_deref(), Some("b3b3/a"));
            assert_eq!(peers[0].addr.as_deref(), Some("1.2.3.4:5"));
            assert_eq!(peers[0].slot, Some(3));
            assert!(!peers[0].addr_valid);
            assert_eq!(peers[1].id, None);
            assert_eq!(peers[2].addr, None);
        }
        other => panic!("unexpected {:?}", other),
    }
}

#[test]
fn slot_messages() {
    match decode(r#"{"type":"slot_claim","index":4,"peer_id":"b3b3/c","coord":[1,-1]}"#) {
        PeerMessage::SlotClaim { index, peer_id, coord, .. } => {
            assert_eq!(index, 4);
            assert_eq!(peer_id, "b3b3/c");
            assert_eq!(coord, (1, -1, 0));
        }
        other => panic!("unexpected {:?}", other),
    }
    match decode(r#"{"type":"slot_claim","index":4,"peer_id":"b3b3/c"}"#) {
        PeerMessage::SlotClaim { coord, .. } => assert_eq!(coord, (0, 0, 0)),
        other => panic!("unexpected {:?}", other),
    }
    assert!(matches!(decode(r#"{"type":"slot_claim","index":-4,"peer_id":"b3b3/c"}"#), PeerMessage::Unknown));
    assert!(matches!(
        decode(r#"{"type":"slot_validation","index":2,"peer_id":"p","validator_id":"v","accepted":true}"#),
        PeerMessage::SlotValidation { index: 2, accepted: true, .. }
    ));
    assert!(matches!(
        decode(r#"{"type":"slot_validation","index":2,"peer_id":"p","validator_id":"v"}"#),
        PeerMessage::Unknown
    ));
    match decode(r#"{"type":"spore_have_list","slots":[0, 2, "x", 5]}"#) {
        PeerMessage::SporeHaveList { slots } => assert_eq!(slots, vec![0, 2, 5]),
        other => panic!("unexpected {:?}", other),
    }
    assert!(matches!(decode(r#"{"type":"gossip"}"#), PeerMessage::Unknown));
    assert!(matches!(decode(r#"[1,2]"#), PeerMessage::Unknown));
}
