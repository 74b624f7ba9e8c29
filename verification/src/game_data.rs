//! Game-wide data: the outcome type of the main loop.

use vstd::prelude::*;

verus! {

/// Result of the main game loop.
#[derive(Debug, PartialEq, Eq, Structural)]
pub enum GameLoopOutcome {
    /// The player has changed depth.
    DepthChanged,
    /// Game window was closed by player.
    WindowClosed,
    /// Game has been quit.
    QuitGame,
    /// Player died and we need to return.
    PlayerDead,
    /// No actors remaining in queue; should never happen in normal play.
    NoActors,
    /// Nothing special happened.
    Continue,
}

} // verus!
