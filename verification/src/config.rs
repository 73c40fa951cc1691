//! Compile-time simulation dimensions and initial population.

use vstd::prelude::*;

verus! {

/// Width of the window, in screen pixels.
pub const WINDOW_WIDTH: u16 = 256;

/// Height of the window, in screen pixels.
pub const WINDOW_HEIGHT: u16 = 144;

/// How many simulation cells stand for one window pixel, along each axis.
pub const SIM_SCALE_MULTIPLIER: u16 = 10;

/// Width of the simulation grid, in cells.
pub const SIM_WIDTH: u16 = 2560;

/// Height of the simulation grid, in cells.
pub const SIM_HEIGHT: u16 = 1440;

/// Number of cells of the simulation grid.
pub const SIM_SIZE: usize = 3686400;

/// Number of blobs spawned at start-up.
pub const BLOB_COUNT: u32 = 50000;

/// Radius of the circle that the blobs are spawned in.
pub const BLOB_SPAWN_RADIUS: u16 = 250;

/// The grid dimensions are those of the window scaled up, and the grid holds
/// `SIM_WIDTH * SIM_HEIGHT` cells.
pub proof fn lemma_grid_dimensions()
    ensures
        SIM_WIDTH == WINDOW_WIDTH * SIM_SCALE_MULTIPLIER,
        SIM_HEIGHT == WINDOW_HEIGHT * SIM_SCALE_MULTIPLIER,
        SIM_SIZE == SIM_WIDTH * SIM_HEIGHT,
        SIM_WIDTH > 0,
        SIM_HEIGHT > 0,
{
}

} // verus!
