//! Consensus threshold for slot claims, scaled by mesh size.

use vstd::prelude::*;

verus! {

/// Number of confirmations a slot claim needs in a mesh of `mesh_size` nodes.
pub open spec fn threshold_spec(mesh_size: int) -> int {
    if mesh_size <= 1 {
        1
    } else if mesh_size == 2 {
        2
    } else if mesh_size == 3 {
        2
    } else if mesh_size == 4 {
        3
    } else if mesh_size <= 6 {
        4
    } else if mesh_size <= 9 {
        5
    } else if mesh_size <= 14 {
        7
    } else if mesh_size <= 19 {
        9
    } else {
        11
    }
}

/// Calculate the consensus threshold for a mesh of `mesh_size` nodes: the genesis
/// node claims alone, two nodes need bilateral agreement, and the requirement grows
/// to 11 of 20 neighbours once the mesh is full.
pub fn consensus_threshold(mesh_size: usize) -> (t: usize)
    ensures
        t == threshold_spec(mesh_size as int),
{
    match mesh_size {
        0 | 1 => 1,
        2 => 2,
        3 => 2,
        4 => 3,
        5..=6 => 4,
        7..=9 => 5,
        10..=14 => 7,
        15..=19 => 9,
        _ => 11,
    }
}

/// The threshold is never zero: even the genesis node must confirm its own claim.
pub proof fn lemma_threshold_positive(mesh_size: int)
    ensures
        threshold_spec(mesh_size) >= 1,
{
}

/// Growing the mesh never lowers the threshold.
pub proof fn lemma_threshold_monotone(smaller: int, larger: int)
    requires
        smaller <= larger,
    ensures
        threshold_spec(smaller) <= threshold_spec(larger),
{
}

/// A claim never needs more confirmations than there are nodes in the mesh.
pub proof fn lemma_threshold_at_most_mesh_size(mesh_size: int)
    requires
        mesh_size >= 1,
    ensures
        threshold_spec(mesh_size) <= mesh_size,
{
}

/// The threshold is capped at 11 of 20 neighbours, and reaches that cap for
/// every mesh of 20 or more nodes.
pub proof fn lemma_threshold_full_mesh(mesh_size: int)
    ensures
        threshold_spec(mesh_size) <= 11,
        mesh_size >= 20 ==> threshold_spec(mesh_size) == 11,
{
}

} // verus!
