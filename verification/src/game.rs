//! An earlier shape of the main-loop outcome, kept for callers of the old
//! interface.

use vstd::prelude::*;

verus! {

/// Result of one pass of the main game loop.
#[derive(Debug, PartialEq, Eq, Structural)]
pub enum GameLoopResult {
    /// The player has changed depth.
    DepthChanged(usize),
    /// Game window was closed by player.
    WindowClosed,
    /// Player died and we need to return.
    PlayerDead,
    /// No actors remaining in queue; should never happen in normal play.
    NoActors,
    /// Nothing special happened.
    Continue,
}

} // verus!
