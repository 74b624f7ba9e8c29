//! Core logic of a turn-based dungeon game: exact rational turn values, a
//! discrete-event scheduler over actors and objects, a tile grid, and a
//! room-placement dungeon generator.

pub mod actor;
pub mod console;
pub mod convert;
pub mod coord;
pub mod defs;
pub mod direction;
pub mod dungeon;
pub mod error;
pub mod game;
pub mod game_data;
pub mod generate;
pub mod item;
pub mod lang;
pub mod language;
pub mod math;
pub mod object;
pub mod org;
pub mod player;
pub mod rectangle;
pub mod rng;
pub mod string_util;
pub mod tile;
pub mod ui;
use vstd::prelude::*;

verus! {

/// A generic result type used throughout the game.
pub type GameResult<T> = Result<T, crate::error::GameError>;

} // verus!
