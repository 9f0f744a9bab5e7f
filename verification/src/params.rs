//! Fixed-point conventions and the numeric limits of the simulation.
//!
//! All physical quantities are integers in "milli-units": one spatial unit
//! is `MILLI` counts, one second of simulated time is `MILLI` counts of
//! `dt`, and a restitution coefficient is given in thousandths
//! (`RESTITUTION_ONE` means perfectly elastic). The limits below keep every
//! intermediate product inside `i64`, which is proved wherever arithmetic
//! happens; callers see them in `requires` clauses.

use vstd::prelude::*;

verus! {

/// Counts per unit: positions, velocities and times carry three fractional
/// decimal digits.
pub const MILLI: i64 = 1000;

/// Restitution is a fraction of `RESTITUTION_ONE`; `800` means 0.8.
pub const RESTITUTION_ONE: i64 = 1000;

/// Largest magnitude of a velocity component (1000 units/second).
/// Integration and collision response clamp to this speed limit.
pub const VEL_LIMIT: i64 = 1_000_000;

/// Largest magnitude of a viewport corner coordinate (a million units).
pub const COORD_LIMIT: i64 = 1_000_000_000;

/// Largest half-extent of a box (1000 units).
pub const EXTENT_LIMIT: i64 = 1_000_000;

/// Most boxes a `World` may be configured to hold. Keeping the set small
/// bounds the cost of a step and the drift that sequential pair
/// corrections can accumulate inside one substep.
pub const BOX_COUNT_LIMIT: usize = 64;

/// Largest finite mass (masses are dimensionless weights here).
pub const MASS_LIMIT: i64 = 1_000_000;

/// Largest magnitude of a gravity component (1000 units/second^2).
pub const GRAVITY_LIMIT: i64 = 1_000_000;

/// Largest `dt` a single `step` call accepts (1000 seconds).
pub const DT_LIMIT: i64 = 1_000_000;

/// A step with `dt` above this is split into equal sub-steps no longer
/// than this (20 milliseconds), so a dropped frame cannot tunnel a fast
/// box through a wall or another box.
pub const SUBSTEP_DT: i64 = 20;

} // verus!
