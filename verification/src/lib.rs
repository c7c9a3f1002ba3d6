//! Simulation core of a grid-based colony game: a terrain grid with
//! per-cell walkability and resource richness, A* pathfinding over it,
//! a per-agent task scheduler, and an offline catch-up simulator that
//! grants the resources agents would have produced while their region
//! was not being ticked.
//!
//! All quantities are fixed-point integers: times are milliseconds of
//! game time (10_000 ms = one game hour), terrain multipliers are in
//! tenths, resource richness is in hundredths, and work progress runs
//! from 0 to `PROGRESS_SCALE` (one completed unit of work).
use vstd::prelude::*;

pub mod components;
pub mod global_simulation;
pub mod pathfinding;
pub mod resources;
mod rng;
pub mod work;
pub mod world;

verus! {

/// One completed unit of work, as a fixed-point progress value.
pub const PROGRESS_SCALE: u64 = 60_000_000;

/// Milliseconds of game time in one game hour.
pub const MS_PER_HOUR: u32 = 10_000;

} // verus!
