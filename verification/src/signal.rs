//! Signals a state emits for the surrounding flow layer: starting a game
//! and ending one with final stats.

use vstd::prelude::*;

verus! {

/// The final stats carried by a game-over signal.
#[derive(Clone, Copy, Debug, PartialEq, Eq, Structural)]
pub struct GameOverData {
    /// Total rows cleared.
    pub lines: usize,
    /// Elapsed play time, counted in frames.
    pub time: usize,
}

/// A request from a state to the flow layer that owns it.
#[derive(Clone, Copy, Debug, PartialEq, Eq, Structural)]
pub enum Signal {
    StartGame,
    EndGame(GameOverData),
}

/// A state that accumulates signals for its owner to collect.
pub trait SignalState {
    /// The signals accumulated so far.
    spec fn spec_signals(&self) -> Seq<Signal>;

    /// Read access to the accumulated signals.
    fn signals(&self) -> (r: &Vec<Signal>)
        ensures
            r@ == self.spec_signals(),
    ;
}

} // verus!
