//! Top-level circuits that compose the chips and bind results to public inputs.
pub mod hash;
pub mod tornado;
