//! Citadel mesh library: slot claiming, consensus thresholds, peer identity,
//! content models and transfer framing, with their contracts checked by Verus.

pub mod admin;
pub mod identity;
pub mod json;
pub mod mesh;
pub mod message;
pub mod models;
pub mod simulation;
pub mod threshold;
pub mod traffic;
pub mod transfer;
