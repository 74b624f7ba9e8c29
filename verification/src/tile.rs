//! Game tiles: shared tile-kind info and the per-tile state of the grid.

use crate::error::GameError;
use crate::item::ItemStash;
use crate::string_util::str_eq;
use crate::GameResult;
use vstd::prelude::*;

verus! {

/// Which staircase, if any, a tile kind carries.
#[derive(Clone, Copy, Debug, PartialEq, Eq, Structural)]
pub enum Staircase {
    Up,
    Down,
    UpDown,
    NoStairs,
}

/// The staircase denoted by a configuration string, if any.
pub open spec fn staircase_of(s: Seq<char>) -> Option<Staircase> {
    if s == "up"@ {
        Option::Some(Staircase::Up)
    } else if s == "down"@ {
        Option::Some(Staircase::Down)
    } else if s == "updown"@ {
        Option::Some(Staircase::UpDown)
    } else if s == "none"@ {
        Option::Some(Staircase::NoStairs)
    } else {
        Option::None
    }
}

impl Staircase {
    /// Parses a staircase tag; exactly the four configuration strings are
    /// accepted.
    pub fn from_str(s: &str) -> (r: GameResult<Staircase>)
        ensures
            match staircase_of(s@) {
                Option::Some(v) => r matches Ok(u) && u == v,
                Option::None => r matches Err(e) && e is ConversionError,
            },
    {
        proof {
            reveal_strlit("up");
            reveal_strlit("down");
            reveal_strlit("updown");
            reveal_strlit("none");
        }
        if str_eq(s, "up") {
            Ok(Staircase::Up)
        } else if str_eq(s, "down") {
            Ok(Staircase::Down)
        } else if str_eq(s, "updown") {
            Ok(Staircase::UpDown)
        } else if str_eq(s, "none") {
            Ok(Staircase::NoStairs)
        } else {
            Err(
                GameError::ConversionError {
                    val: s.to_owned(),
                    msg: "Invalid staircase value",
                },
            )
        }
    }
}

/// Struct containing the tile information for a class of tiles. Any two
/// tiles of the same kind share the same info values.
#[derive(Debug)]
pub struct TileInfo {
    pub name: String,
    pub c: char,
    /// Can the tile be walked on?
    pub passable: bool,
    /// Is the tile see-through?
    pub transparent: bool,
    pub staircase: Staircase,
}

impl TileInfo {
    /// Bundles the info fields of a tile kind, as read from configuration.
    pub fn new(name: String, c: char, passable: bool, transparent: bool, staircase: Staircase) -> (
        r: TileInfo)
        ensures
            r.name == name,
            r.c == c,
            r.passable == passable,
            r.transparent == transparent,
            r.staircase == staircase,
    {
        TileInfo { name, c, passable, transparent, staircase }
    }

    /// An exact copy of this tile info.
    pub fn clone_info(&self) -> (r: TileInfo)
        ensures
            r == *self,
    {
        TileInfo {
            name: self.name.clone(),
            c: self.c,
            passable: self.passable,
            transparent: self.transparent,
            staircase: self.staircase,
        }
    }
}

/// One tile of the dungeon grid. Entities are stored by their arena ids;
/// the dungeon owns the arenas.
#[derive(Debug)]
pub struct Tile {
    /// The kind information of this tile.
    pub info: TileInfo,
    /// Elevation of this tile in the heightmap. 0 is ground level, < 0 is
    /// below ground.
    pub height: i32,
    /// Id of the actor standing here, if any.
    pub actor: Option<usize>,
    /// Id of the object sitting here, if any.
    pub object: Option<usize>,
    /// Items lying here, if any.
    pub item_stash: Option<ItemStash>,
}

impl Tile {
    /// Returns a new, empty `Tile` of the given kind.
    pub fn new(info: TileInfo) -> (r: Tile)
        ensures
            r.info == info,
            r.height == 0,
            r.actor is None,
            r.object is None,
            r.item_stash is None,
    {
        Tile { info, height: 0, actor: Option::None, object: Option::None, item_stash: Option::None }
    }

    /// Replaces the kind information of this tile, keeping its occupants.
    pub fn set_tile_info(&mut self, info: TileInfo)
        ensures
            final (self).info == info,
            final (self).height == old(self).height,
            final (self).actor == old(self).actor,
            final (self).object == old(self).object,
            final (self).item_stash == old(self).item_stash,
    {
        self.info = info;
    }

    /// Whether the tile kind can be walked on.
    pub fn passable(&self) -> (r: bool)
        ensures
            r == self.info.passable,
    {
        self.info.passable
    }

    /// Whether the tile kind is see-through.
    pub fn transparent(&self) -> (r: bool)
        ensures
            r == self.info.transparent,
    {
        self.info.transparent
    }

    /// Which staircase the tile kind carries.
    pub fn staircase(&self) -> (r: Staircase)
        ensures
            r == self.info.staircase,
    {
        self.info.staircase
    }
}

} // verus!
