//! Peer identity and content identifiers: double-BLAKE3 PeerIDs and
//! hex-encoded BLAKE3 content hashes.

use vstd::prelude::*;
use ed25519_dalek::{SigningKey, VerifyingKey};

verus! {

/// The digest that BLAKE3 computes for `data`: 32 bytes, a function of the input alone.
pub uninterp spec fn blake3_hash(data: Seq<u8>) -> Seq<u8>;

/// One lowercase hexadecimal digit for a value below 16.
pub open spec fn hex_digit(n: int) -> char {
    if n < 10 {
        (48 + n) as char
    } else {
        (87 + n) as char
    }
}

/// Lowercase hexadecimal text of `bytes`: two digits per byte, high nibble first.
pub open spec fn hex_lower(bytes: Seq<u8>) -> Seq<char>
    decreases bytes.len(),
{
    if bytes.len() == 0 {
        Seq::empty()
    } else {
        seq![hex_digit(bytes[0] as int / 16), hex_digit(bytes[0] as int % 16)] + hex_lower(bytes.drop_first())
    }
}

/// PeerID of a public key: `"b3b3/"` followed by the hex of BLAKE3(BLAKE3(key)).
pub open spec fn peer_id_spec(pubkey: Seq<u8>) -> Seq<char> {
    "b3b3/"@ + hex_lower(blake3_hash(blake3_hash(pubkey)))
}

/// Content identifier: the hex of BLAKE3(content).
pub open spec fn content_id_spec(content: Seq<u8>) -> Seq<char> {
    hex_lower(blake3_hash(content))
}

/// Whether `c` is a lowercase hexadecimal digit (`0`-`9` or `a`-`f`).
pub open spec fn is_lower_hex_digit(c: char) -> bool {
    ('0' <= c && c <= '9') || ('a' <= c && c <= 'f')
}

/// Whether every character of `text` is a lowercase hexadecimal digit.
pub open spec fn is_lower_hex(text: Seq<char>) -> bool {
    forall|i: int| 0 <= i < text.len() ==> is_lower_hex_digit(#[trigger] text[i])
}

/// The hex text of `bytes` has two digits per byte, all lowercase hexadecimal.
pub proof fn lemma_hex_lower_shape(bytes: Seq<u8>)
    ensures
        hex_lower(bytes).len() == 2 * bytes.len(),
        is_lower_hex(hex_lower(bytes)),
    decreases bytes.len(),
{
    if bytes.len() > 0 {
        lemma_hex_lower_shape(bytes.drop_first());
        let hi = bytes[0] as int / 16;
        let lo = bytes[0] as int % 16;
        let head = seq![hex_digit(hi), hex_digit(lo)];
        let rest = hex_lower(bytes.drop_first());
        assert(hex_lower(bytes) == head + rest);
        assert forall|i: int| 0 <= i < hex_lower(bytes).len() implies is_lower_hex_digit(
            #[trigger] hex_lower(bytes)[i],
        ) by {
            if i >= 2 {
                assert(hex_lower(bytes)[i] == rest[i - 2]);
            }
        }
    }
}

/// The 32 bytes of an ed25519 public key: the compressed Edwards point that the
/// key holds, a function of the key alone.
pub uninterp spec fn key_bytes_of(key: VerifyingKey) -> Seq<u8>;

#[verifier::external_type_specification]
#[verifier::external_body]
pub struct ExVerifyingKey(VerifyingKey);

#[verifier::external_type_specification]
#[verifier::external_body]
pub struct ExSigningKey(SigningKey);

/// Calls `blake3::hash` and copies out the digest bytes (`Hash::as_bytes`).
/// Claimed: the result is the 32-byte BLAKE3 digest of `data`, which depends on
/// `data` alone; its value is not stated beyond that name.
#[verifier::external_body]
fn blake3_digest(data: &[u8]) -> (digest: Vec<u8>)
    ensures
        digest@ == blake3_hash(data@),
        digest@.len() == 32,
{
    blake3::hash(data).as_bytes().to_vec()
}

/// Calls `hex::encode`. Claimed: the result is the lowercase hex text of `data`,
/// two characters per byte, high nibble first (the `HEX_CHARS_LOWER` table of the crate).
#[verifier::external_body]
fn hex_encode(data: &[u8]) -> (text: String)
    ensures
        text@ == hex_lower(data@),
{
    hex::encode(data)
}

/// Calls `VerifyingKey::as_bytes` and copies the bytes out. Claimed: the result is
/// the key's 32 stored bytes (the compressed Edwards point), named `key_bytes_of`.
#[verifier::external_body]
fn verifying_key_bytes(pubkey: &VerifyingKey) -> (bytes: Vec<u8>)
    ensures
        bytes@ == key_bytes_of(*pubkey),
        bytes@.len() == 32,
{
    pubkey.as_bytes().to_vec()
}

/// Compute a PeerID from raw public key bytes using double BLAKE3:
/// `b3b3/` followed by the hex of BLAKE3(BLAKE3(key)).
pub fn compute_peer_id_from_bytes(pubkey_bytes: &[u8]) -> (id: String)
    ensures
        id@ == peer_id_spec(pubkey_bytes@),
        id@.len() == 69,
{
    let hash1 = blake3_digest(pubkey_bytes);
    let hash2 = blake3_digest(hash1.as_slice());
    let hex = hex_encode(hash2.as_slice());
    proof {
        lemma_hex_lower_shape(hash2@);
        reveal_strlit("b3b3/");
    }
    let prefix = String::from_str("b3b3/");
    prefix.concat(hex.as_str())
}

/// Compute the PeerID of an ed25519 public key from its 32 key bytes.
pub fn compute_peer_id(pubkey: &VerifyingKey) -> (id: String)
    ensures
        id@ == peer_id_spec(key_bytes_of(*pubkey)),
        id@.len() == 69,
{
    let bytes = verifying_key_bytes(pubkey);
    compute_peer_id_from_bytes(bytes.as_slice())
}

/// Whether `claimed_id` is exactly the PeerID computed from the key bytes `pubkey_bytes`.
pub fn peer_id_matches(claimed_id: &str, pubkey_bytes: &[u8]) -> (ok: bool)
    ensures
        ok == (claimed_id@ == peer_id_spec(pubkey_bytes@)),
{
    let computed = compute_peer_id_from_bytes(pubkey_bytes);
    let claimed = String::from_str(claimed_id);
    computed == claimed
}

/// Verify that a claimed PeerID matches the given public key.
pub fn verify_peer_id(claimed_id: &str, pubkey: &VerifyingKey) -> (ok: bool)
    ensures
        ok == (claimed_id@ == peer_id_spec(key_bytes_of(*pubkey))),
{
    let bytes = verifying_key_bytes(pubkey);
    peer_id_matches(claimed_id, bytes.as_slice())
}

/// Content identifier: the lowercase hex of the BLAKE3 hash of `content`.
pub fn generate_content_id(content: &[u8]) -> (id: String)
    ensures
        id@ == content_id_spec(content@),
        id@.len() == 64,
        is_lower_hex(id@),
{
    let digest = blake3_digest(content);
    proof {
        lemma_hex_lower_shape(digest@);
    }
    hex_encode(digest.as_slice())
}

} // verus!
