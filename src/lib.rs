//! Deterministic cellular (Worley) biome selection.
//!
//! The verified core of a biome field: per-cell hashing, feature-point placement,
//! biome generators, the fixed 3x3 neighbourhood and the stable selection of the
//! nearest cells.
pub mod biome_picker;
pub mod distance_fn;
pub mod utils;
pub mod worley;
