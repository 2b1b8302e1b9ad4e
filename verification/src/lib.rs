//! Density maps of escape-time fractal trajectories: the discovery,
//! sampling and accumulation core, with machine-checked contracts.

pub mod buddha;
pub mod cell;
pub mod covarage_grid;
pub mod covarage_grid_gen;
pub mod draw_manager;
pub mod grid;
pub mod grid_reducer;
pub mod iterat_point;
pub mod pixels;
pub mod range;
pub mod range_encoder;
pub mod rect;
pub mod sample_cells;
pub mod sample_checker;
pub mod sample_gen;
pub mod sampled_cell;
pub mod sorting;
pub mod u_rect;
pub mod worker;

use vstd::prelude::*;

verus! {

/// The width of the screen in pixels.
pub const WIDTH: usize = 1024;

/// The height of the screen in pixels: the width times 2.64 / 3.
pub const HEIGHT: usize = 901;

/// A candidate that escapes within this many iterations is dropped: it
/// lies plainly outside the set.
pub const MIN_ITER: usize = 50;

/// A candidate that does not escape within fewer iterations than this is
/// dropped: it lies inside the set, or too close to it.
pub const MAX_ITER: usize = 100;

/// A mutation that escapes within this many iterations is dropped.
pub const MUTATION_MIN_ITER: usize = 30;

/// A mutation that does not escape within fewer iterations than this is
/// dropped.
pub const MUTATION_MAX_ITER: usize = 100;

} // verus!
