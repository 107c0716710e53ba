//! Zero-knowledge circuit gadgets over the Pallas base field: a constraint
//! system model (gates, lookups, copy constraints, public bindings), a
//! routine that replays an assignment against it, and the chips that compose
//! into a Merkle-membership circuit and into range checks.
pub mod arith;
pub mod circuit;
pub mod circuits;
pub mod field;
pub mod hash;
pub mod merkle;
pub mod range;
pub mod range_lookup;
