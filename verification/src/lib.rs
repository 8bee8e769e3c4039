//! A falling-block puzzle engine: piece geometry, rotation with boundary
//! correction, gravity and collision, hold/swap, bag-based piece sequencing,
//! and line clearing. Rendering and input polling are left to the caller.

pub mod actions;
pub mod block;
pub mod consts;
pub mod game_state;
pub mod input;
pub mod signal;
