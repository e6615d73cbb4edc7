//! Decoding of the JSON lines that peers send: the `type` field selects the
//! message, and the fields the mesh logic reads are taken from the object.
//!
//! Two things a line does not carry are left for the receiver to fill in: the
//! coordinate that its SPIRAL mapping gives a claimed index (`expected`, and
//! `slot_coord` of each peer entry), and whether an announced address parses as
//! a socket address (`addr_valid`). Decoding leaves them at the origin and `false`.

use vstd::prelude::*;
use crate::json::{
    array_field, as_array, as_bool, as_i64, as_str, as_u64, bool_field, get, str_field, strings_in,
    strings_of, text_is, u64_field, u64s_in, u64s_of, JsonValue,
};
use crate::mesh::{HexCoord, PeerInfo, PeerMessage};

verus! {

/// The coordinate a decoded message carries before the receiver resolves it.
pub open spec fn unresolved_coord() -> HexCoord {
    HexCoord { q: 0, r: 0, z: 0 }
}

/// The text of the `type` field, empty when there is none.
pub open spec fn type_of(v: JsonValue) -> Seq<char> {
    match as_str(get(v, "type"@)) {
        Some(s) => s@,
        None => Seq::empty(),
    }
}

/// Element `k` of a coordinate array as an `i64`, 0 when missing or not an integer.
pub open spec fn coord_part(items: Seq<JsonValue>, k: int) -> i64 {
    if k < items.len() {
        match as_i64(Some(items[k])) {
            Some(x) => x,
            None => 0,
        }
    } else {
        0
    }
}

/// The `(q, r, z)` triple of a `coord` field: `(0, 0, 0)` when it is not an array.
pub open spec fn coord_of(c: Option<JsonValue>) -> (i64, i64, i64) {
    match as_array(c) {
        Some(items) => (coord_part(items, 0), coord_part(items, 1), coord_part(items, 2)),
        None => (0, 0, 0),
    }
}

/// One entry of a flooded peer list: its `id`, `addr` and `slot` fields.
pub open spec fn peer_info_of(item: JsonValue) -> PeerInfo {
    PeerInfo {
        id: as_str(get(item, "id"@)),
        addr: as_str(get(item, "addr"@)),
        addr_valid: false,
        slot: as_u64(get(item, "slot"@)),
        slot_coord: unresolved_coord(),
    }
}

/// The message that the JSON value `v` decodes to.
pub open spec fn decodes_to(v: JsonValue, m: PeerMessage) -> bool {
    let t = type_of(v);
    if t == "hello"@ {
        m == PeerMessage::Hello { node_id: as_str(get(v, "node_id"@)) }
    } else if t == "flood_admins"@ || t == "sync_admins"@ {
        match as_array(get(v, "admins"@)) {
            Some(items) => m matches PeerMessage::FloodAdmins { admins } && admins@ == strings_of(items),
            None => m is Unknown,
        }
    } else if t == "flood_peers"@ || t == "sync_peers"@ {
        match as_array(get(v, "peers"@)) {
            Some(items) => m matches PeerMessage::FloodPeers { peers } && peers@ == items.map_values(
                |item: JsonValue| peer_info_of(item),
            ),
            None => m is Unknown,
        }
    } else if t == "slot_claim"@ {
        match (as_u64(get(v, "index"@)), as_str(get(v, "peer_id"@))) {
            (Some(index), Some(peer_id)) => m == PeerMessage::SlotClaim {
                index,
                peer_id,
                coord: coord_of(get(v, "coord"@)),
                expected: unresolved_coord(),
            },
            _ => m is Unknown,
        }
    } else if t == "slot_validation"@ {
        match (
            as_u64(get(v, "index"@)),
            as_str(get(v, "peer_id"@)),
            as_str(get(v, "validator_id"@)),
            as_bool(get(v, "accepted"@)),
        ) {
            (Some(index), Some(peer_id), Some(validator_id), Some(accepted)) => m
                == PeerMessage::SlotValidation { index, peer_id, validator_id, accepted },
            _ => m is Unknown,
        }
    } else if t == "spore_have_list"@ {
        match as_array(get(v, "slots"@)) {
            Some(items) => m matches PeerMessage::SporeHaveList { slots } && slots@ == u64s_of(items),
            None => m is Unknown,
        }
    } else {
        m is Unknown
    }
}

fn coord_part_at(items: &Vec<JsonValue>, k: usize) -> (x: i64)
    ensures
        x == coord_part(items@, k as int),
{
    if k < items.len() {
        match &items[k] {
            JsonValue::Number { as_i64: Some(x), .. } => *x,
            _ => 0,
        }
    } else {
        0
    }
}

fn coord_field(v: &JsonValue) -> (c: (i64, i64, i64))
    ensures
        c == coord_of(get(*v, "coord"@)),
{
    match array_field(v, "coord") {
        Some(items) => (coord_part_at(items, 0), coord_part_at(items, 1), coord_part_at(items, 2)),
        None => (0, 0, 0),
    }
}

fn peer_infos_in(items: &Vec<JsonValue>) -> (infos: Vec<PeerInfo>)
    ensures
        infos@ == items@.map_values(|item: JsonValue| peer_info_of(item)),
{
    let mut infos: Vec<PeerInfo> = Vec::new();
    let mut i: usize = 0;
    while i < items.len()
        invariant
            i <= items@.len(),
            infos@ == items@.take(i as int).map_values(|item: JsonValue| peer_info_of(item)),
        decreases items@.len() - i,
    {
        let item = &items[i];
        infos.push(
            PeerInfo {
                id: str_field(item, "id"),
                addr: str_field(item, "addr"),
                addr_valid: false,
                slot: u64_field(item, "slot"),
                slot_coord: HexCoord::new(0, 0, 0),
            },
        );
        proof {
            assert(items@.take(i as int + 1) =~= items@.take(i as int).push(items@[i as int]));
            assert(infos@ =~= items@.take(i as int + 1).map_values(|item: JsonValue| peer_info_of(item)));
        }
        i = i + 1;
    }
    proof {
        assert(items@.take(items@.len() as int) =~= items@);
    }
    infos
}

/// Decode a peer message from its JSON value (see the module documentation for
/// the fields left to the receiver).
pub fn peer_message_of(v: &JsonValue) -> (m: PeerMessage)
    ensures
        decodes_to(*v, m),
{
    let ty = match str_field(v, "type") {
        Some(t) => t,
        None => String::new(),
    };
    if text_is(&ty, "hello") {
        PeerMessage::Hello { node_id: str_field(v, "node_id") }
    } else if text_is(&ty, "flood_admins") || text_is(&ty, "sync_admins") {
        match array_field(v, "admins") {
            Some(items) => PeerMessage::FloodAdmins { admins: strings_in(items) },
            None => PeerMessage::Unknown,
        }
    } else if text_is(&ty, "flood_peers") || text_is(&ty, "sync_peers") {
        match array_field(v, "peers") {
            Some(items) => PeerMessage::FloodPeers { peers: peer_infos_in(items) },
            None => PeerMessage::Unknown,
        }
    } else if text_is(&ty, "slot_claim") {
        match (u64_field(v, "index"), str_field(v, "peer_id")) {
            (Some(index), Some(peer_id)) => PeerMessage::SlotClaim {
                index,
                peer_id,
                coord: coord_field(v),
                expected: HexCoord::new(0, 0, 0),
            },
            _ => PeerMessage::Unknown,
        }
    } else if text_is(&ty, "slot_validation") {
        match (
            u64_field(v, "index"),
            str_field(v, "peer_id"),
            str_field(v, "validator_id"),
            bool_field(v, "accepted"),
        ) {
            (Some(index), Some(peer_id), Some(validator_id), Some(accepted)) => PeerMessage::SlotValidation {
                index,
                peer_id,
                validator_id,
                accepted,
            },
            _ => PeerMessage::Unknown,
        }
    } else if text_is(&ty, "spore_have_list") {
        match array_field(v, "slots") {
            Some(items) => PeerMessage::SporeHaveList { slots: u64s_in(items) },
            None => PeerMessage::Unknown,
        }
    } else {
        PeerMessage::Unknown
    }
}

/// The text of a string value, `None` for any other value.
pub open spec fn text_of(x: JsonValue) -> Option<String> {
    match x {
        JsonValue::Str(s) => Some(s),
        _ => None,
    }
}

proof fn lemma_strings_are_text_entries(items: Seq<JsonValue>)
    ensures
        strings_of(items) == items.filter_map(|x: JsonValue| text_of(x)),
    decreases items.len(),
{
    if items.len() > 0 {
        lemma_strings_are_text_entries(items.drop_last());
        let rest = items.drop_last().filter_map(|x: JsonValue| text_of(x));
        match text_of(items.last()) {
            Some(t) => {
                assert(rest.push(t) =~= rest + seq![t]);
            },
            None => {},
        }
    }
}

/// Admin lists are taken in whole: a line whose `type` is `flood_admins` or
/// `sync_admins` and whose `admins` field is an array decodes to `FloodAdmins`
/// holding the string entries of that array, in order.
pub proof fn lemma_admin_list_decodes(v: JsonValue, m: PeerMessage, items: Seq<JsonValue>)
    requires
        decodes_to(v, m),
        as_str(get(v, "type"@)) matches Some(t) && (t@ == "flood_admins"@ || t@ == "sync_admins"@),
        as_array(get(v, "admins"@)) == Some(items),
    ensures
        m matches PeerMessage::FloodAdmins { admins } && admins@ == items.filter_map(|x: JsonValue| text_of(x)),
{
    reveal_strlit("hello");
    reveal_strlit("flood_admins");
    reveal_strlit("sync_admins");
    assert("hello"@ != "flood_admins"@ && "hello"@ != "sync_admins"@) by {
        assert("hello"@[0] != "flood_admins"@[0]);
        assert("hello"@[0] != "sync_admins"@[0]);
    }
    lemma_strings_are_text_entries(items);
}

} // verus!
