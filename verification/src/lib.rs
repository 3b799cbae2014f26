//! Verified core of a toroidal-grid Snake game: the board occupancy model,
//! food placement, direction-change arbitration, and the per-tick movement,
//! growth and termination rules. Window and input plumbing live outside this
//! crate; a host loop drives the simulation through `game::Game`.
use vstd::prelude::*;

pub mod board;
pub mod game;
pub mod motion;

verus! {

/// Side length of the square grid: the board is `MATRIX_SIZE` by `MATRIX_SIZE` cells.
pub const MATRIX_SIZE: usize = 27;

} // verus!
