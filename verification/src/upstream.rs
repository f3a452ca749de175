//! The calls into the Zcash protocol crates.
//!
//! Every function here takes and returns plain values. What the protocol crates
//! compute is either stated outright or named by a function without a body.

pub mod consensus_rules;
pub mod fields;
pub mod merkle_hashes;
pub mod orchard_notes;
pub mod sapling_notes;
pub mod text;
pub mod transactions;
pub mod transparent_keys;
pub mod unified_keys;
