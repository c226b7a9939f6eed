//! Variable-density Poisson-disc sampling over an integer lattice.
//!
//! The sampler generates a point set in which every accepted point keeps a
//! locally varying minimum separation from every other: a caller-supplied
//! density oracle maps each position to the exclusion radius required there,
//! or rejects the position outright.  Coordinates and radii are fixed-point
//! integers, so every geometric comparison the sampler makes is exact.

use vstd::prelude::*;

pub mod engine;
pub mod geometry;
pub mod grid;
pub mod laws;
pub mod points;
pub mod oracle;
pub mod source;

pub use engine::get_points;
pub use grid::get_2d_points_with_min_max;

verus! {

/// Largest magnitude a coordinate of a sampled position may have.  Positions
/// outside the box `[-COORD_LIMIT, COORD_LIMIT]` on any axis are treated as
/// lying outside the sampling domain.
pub const COORD_LIMIT: i64 = 1_000_000_000;

/// Largest exclusion radius the sampler accepts from a density oracle; a
/// larger (or non-positive) answer is treated as a rejection of the position.
pub const RADIUS_LIMIT: i64 = 1_000_000_000;

} // verus!
