//! Board dimensions and timing constants, fixed at construction.

use vstd::prelude::*;

verus! {

/// Board width in cells.
pub const X_SQUARES: i8 = 10;

/// Board height in cells; rows are numbered 0 (top) to `Y_SQUARES - 1` (bottom).
pub const Y_SQUARES: i8 = 20;

/// Number of frames between gravity ticks.
pub const TICK_INTERVAL: usize = 60;

/// Frames between repeats once a held key starts repeating.
pub const INPUT_INTERVAL: u16 = 5;

/// Frames a key must be held before it starts repeating.
pub const INPUT_REPEAT_DELAY: u16 = 8;

} // verus!
