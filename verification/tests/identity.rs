use citadel::identity::{compute_peer_id, compute_peer_id_from_bytes, peer_id_matches, verify_peer_id};
use citadel::mesh::is_real_peer_id;
use ed25519_dalek::SigningKey;

fn double_blake3_hex(bytes: &[u8]) -> String {
    let h1 = blake3::hash(bytes);
    let h2 = blake3::hash(h1.as_bytes());
    h2.to_hex().to_string()
}

#[test]
fn peer_id_is_double_blake3() {
    let key = [3u8; 32];
    let id = compute_peer_id_from_bytes(&key);
    assert_eq!(id, format!("b3b3/{}", double_blake3_hex(&key)));
    assert_eq!(id.len(), 69);
    assert!(is_real_peer_id(&id));
    assert_ne!(id, compute_peer_id_from_bytes(&[4u8; 32]));
}

#[test]
fn peer_id_of_verifying_key_uses_its_bytes() {
    let signing = SigningKey::from_bytes(&[9u8; 32]);
    let verifying = signing.verifying_key();
    let id = compute_peer_id(&verifying);
    assert_eq!(id, compute_peer_id_from_bytes(verifying.as_bytes()));
    assert!(verify_peer_id(&id, &verifying));
    assert!(!verify_peer_id("b3b3/00", &verifying));
    assert!(peer_id_matches(&id, verifying.as_bytes()));
    assert!(!peer_id_matches(&id, &[0u8; 32]));
}

#[test]
fn real_peer_id_prefix() {
    assert!(is_real_peer_id("b3b3/abc"));
    assert!(is_real_peer_id("b3b3/"));
    assert!(!is_real_peer_id("peer-9000"));
    assert!(!is_real_peer_id("b3b3"));
    assert!(!is_real_peer_id("B3B3/abc"));
}

#[test]
fn content_ids_are_64_lowercase_hex_digits() {
    let id = citadel::identity::generate_content_id(b"test content");
    assert_eq!(id.len(), 64);
    assert!(id.chars().all(|c| c.is_ascii_digit() || ('a'..='f').contains(&c)));
    assert_eq!(id, blake3::hash(b"test content").to_hex().to_string());
}

#[test]
fn content_item_generate_id_deterministic() {
    let id1 = citadel::identity::generate_content_id(b"test content");
    let id2 = citadel::identity::generate_content_id(b"test content");
    assert_eq!(id1, id2);
}
