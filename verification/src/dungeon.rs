//! The dungeon: a tile grid, the arenas of actors and objects that live on
//! it, and the turn scheduler that runs them. This struct is responsible
//! for running the actor and object priority queues.

use crate::actor::{actor_wf, Actor};
use crate::coord::Coord;
use crate::defs::{gameratio_max, gr_is_max, gr_le, gr_wf, GameRatio};
use crate::error::GameError;
use crate::object::{object_wf, Object};
use crate::string_util::str_eq;
use crate::tile::{Tile, TileInfo};
use crate::GameResult;
use vstd::prelude::*;

verus! {

/// The kind of layout a dungeon depth is generated with.
#[derive(Clone, Copy, Debug, PartialEq, Eq, Structural)]
pub enum DungeonType {
    Room,
    /// Used in tests.
    Empty,
}

/// The dungeon type denoted by a configuration string, if any.
pub open spec fn dungeon_type_of(s: Seq<char>) -> Option<DungeonType> {
    if s == "room"@ {
        Option::Some(DungeonType::Room)
    } else if s == "empty"@ {
        Option::Some(DungeonType::Empty)
    } else {
        Option::None
    }
}

impl DungeonType {
    /// Parses a dungeon type tag; exactly the two configuration strings
    /// are accepted.
    pub fn from_str(s: &str) -> (r: GameResult<DungeonType>)
        ensures
            match dungeon_type_of(s@) {
                Option::Some(v) => r matches Ok(u) && u == v,
                Option::None => r matches Err(e) && e is ConversionError,
            },
    {
        proof {
            reveal_strlit("room");
            reveal_strlit("empty");
        }
        if str_eq(s, "room") {
            Ok(DungeonType::Room)
        } else if str_eq(s, "empty") {
            Ok(DungeonType::Empty)
        } else {
            Err(
                GameError::ConversionError {
                    val: s.to_owned(),
                    msg: "Invalid dungeon type",
                },
            )
        }
    }
}

/// Enum of possible results of an action.
#[derive(Debug, PartialEq, Eq, Structural)]
pub enum ActResult {
    WindowClosed,
    QuitGame,
    /// Nothing special happened.
    Continue,
}

/// An entry of a scheduling queue: the cached turn value of the entity it
/// stands for, and the entity's arena id.
#[derive(Clone, Copy, Debug)]
pub struct QEntry {
    pub turn: GameRatio,
    pub id: usize,
}

/// Struct containing a single depth of the dungeon.
///
/// The grid stores entity ids; the entities themselves live in the `actors`
/// and `objects` arenas, and the two scheduling queues hold `(turn, id)`
/// entries, so every entity value has exactly one owner.
pub struct Dungeon {
    danger_level: u32,
    dungeon_type: DungeonType,

    tiles: Vec<Tile>,
    width: usize,
    height: usize,

    actors: Vec<Option<Actor>>,
    objects: Vec<Option<Object>>,

    actor_queue: Vec<QEntry>,
    object_queue: Vec<QEntry>,

    /// The global game turn: the turn value of the entity that acted last.
    turn: GameRatio,

    fov_start: Coord,
    fov_end: Coord,
    fov_vis: Vec<bool>,
}

impl Dungeon {
    /// The danger level of this depth.
    pub closed spec fn spec_danger_level(self) -> u32 {
        self.danger_level
    }

    /// The layout kind of this depth.
    pub closed spec fn spec_dungeon_type(self) -> DungeonType {
        self.dungeon_type
    }

    /// The danger level of this depth.
    pub fn danger_level(&self) -> (r: u32)
        ensures
            r == self.spec_danger_level(),
    {
        self.danger_level
    }

    /// The layout kind of this depth.
    pub fn dungeon_type(&self) -> (r: DungeonType)
        ensures
            r == self.spec_dungeon_type(),
    {
        self.dungeon_type
    }

    /// The grid width.
    pub closed spec fn spec_width(self) -> int {
        self.width as int
    }

    /// The grid height.
    pub closed spec fn spec_height(self) -> int {
        self.height as int
    }

    /// The tiles of the grid, column-major.
    pub closed spec fn spec_tiles(self) -> Seq<Tile> {
        self.tiles@
    }

    /// The actor arena.
    pub closed spec fn spec_actors(self) -> Seq<Option<Actor>> {
        self.actors@
    }

    /// The object arena.
    pub closed spec fn spec_objects(self) -> Seq<Option<Object>> {
        self.objects@
    }

    /// The actor scheduling queue.
    pub closed spec fn spec_aq(self) -> Seq<QEntry> {
        self.actor_queue@
    }

    /// The object scheduling queue.
    pub closed spec fn spec_oq(self) -> Seq<QEntry> {
        self.object_queue@
    }

    /// The global game turn.
    pub closed spec fn spec_turn(self) -> GameRatio {
        self.turn
    }

    /// Index of the tile at `(x, y)` in the column-major tile vector.
    pub open spec fn idx_of(self, x: int, y: int) -> int {
        x * self.spec_height() + y
    }

    /// True if `c` lies on the grid.
    pub open spec fn in_bounds_spec(self, c: Coord) -> bool {
        0 <= c.x < self.spec_width() && 0 <= c.y < self.spec_height()
    }

    /// The tile at `c`.
    pub open spec fn tile_at(self, c: Coord) -> Tile {
        self.spec_tiles()[self.idx_of(c.x as int, c.y as int)]
    }

    /// The grid is the size its dimensions claim, and the dimensions fit
    /// in the coordinate type.
    pub open spec fn grid_wf(self) -> bool {
        &&& self.spec_tiles().len() == self.spec_width() * self.spec_height()
        &&& self.spec_width() * self.spec_height() <= usize::MAX
        &&& self.spec_width() <= i32::MAX
        &&& self.spec_height() <= i32::MAX
    }

    /// True if arena slot `i` holds a live actor.
    pub open spec fn actor_live(self, i: int) -> bool {
        0 <= i < self.spec_actors().len() && self.spec_actors()[i] is Some
    }

    /// The live actor in arena slot `i`.
    pub open spec fn actor_at(self, i: int) -> Actor {
        self.spec_actors()[i]->0
    }

    /// True if arena slot `i` holds a live object.
    pub open spec fn object_live(self, i: int) -> bool {
        0 <= i < self.spec_objects().len() && self.spec_objects()[i] is Some
    }

    /// The live object in arena slot `i`.
    pub open spec fn object_at(self, i: int) -> Object {
        self.spec_objects()[i]->0
    }

    /// Every live actor is well-formed, scheduled no earlier than the
    /// global turn, stands on the grid, and its tile points back at it.
    pub open spec fn actors_ok(self) -> bool {
        forall|i: int|
            #[trigger] self.actor_live(i) ==> {
                let a = self.actor_at(i);
                &&& a.id == i
                &&& actor_wf(a)
                &&& gr_le(self.spec_turn(), a.turn)
                &&& self.in_bounds_spec(a.coord)
                &&& self.tile_at(a.coord).actor == Option::Some(i as usize)
            }
    }

    /// Every tile naming an actor names a live actor standing on it.
    pub open spec fn grid_actors_ok(self) -> bool {
        forall|x: int, y: int|
            0 <= x < self.spec_width() && 0 <= y < self.spec_height() ==> match (
            #[trigger] self.spec_tiles()[self.idx_of(x, y)]).actor {
                Option::Some(id) => self.actor_live(id as int) && self.actor_at(id as int).coord
                    == (Coord { x: x as i32, y: y as i32 }),
                Option::None => true,
            }
    }

    /// Every live object is well-formed, scheduled no earlier than the
    /// global turn, sits on the grid, and its tile points back at it.
    pub open spec fn objects_ok(self) -> bool {
        forall|i: int|
            #[trigger] self.object_live(i) ==> {
                let o = self.object_at(i);
                &&& o.id == i
                &&& object_wf(o)
                &&& gr_le(self.spec_turn(), o.turn)
                &&& self.in_bounds_spec(o.coord)
                &&& self.tile_at(o.coord).object == Option::Some(i as usize)
            }
    }

    /// Every tile naming an object names a live object sitting on it.
    pub open spec fn grid_objects_ok(self) -> bool {
        forall|x: int, y: int|
            0 <= x < self.spec_width() && 0 <= y < self.spec_height() ==> match (
            #[trigger] self.spec_tiles()[self.idx_of(x, y)]).object {
                Option::Some(id) => self.object_live(id as int) && self.object_at(id as int).coord
                    == (Coord { x: x as i32, y: y as i32 }),
                Option::None => true,
            }
    }

    /// Every actor queue entry names a live actor and caches its turn, and
    /// no actor is named twice.
    pub open spec fn aq_ok(self) -> bool {
        &&& forall|k: int|
            0 <= k < self.spec_aq().len() ==> {
                let e = #[trigger] self.spec_aq()[k];
                self.actor_live(e.id as int) && self.actor_at(e.id as int).turn == e.turn
            }
        &&& forall|k1: int, k2: int|
            0 <= k1 < k2 < self.spec_aq().len() ==> (#[trigger] self.spec_aq()[k1]).id != (
            #[trigger] self.spec_aq()[k2]).id
    }

    /// Every live actor except `ex` has an entry in the actor queue.
    pub open spec fn aq_covers_except(self, ex: int) -> bool {
        forall|i: int|
            #[trigger] self.actor_live(i) && i != ex ==> exists|k: int|
                0 <= k < self.spec_aq().len() && (#[trigger] self.spec_aq()[k]).id == i
    }

    /// Every live actor has an entry in the actor queue.
    pub open spec fn aq_covers(self) -> bool {
        self.aq_covers_except(-1)
    }

    /// Every object queue entry names a live object and caches its turn,
    /// and no object is named twice.
    pub open spec fn oq_ok(self) -> bool {
        &&& forall|k: int|
            0 <= k < self.spec_oq().len() ==> {
                let e = #[trigger] self.spec_oq()[k];
                self.object_live(e.id as int) && self.object_at(e.id as int).turn == e.turn
            }
        &&& forall|k1: int, k2: int|
            0 <= k1 < k2 < self.spec_oq().len() ==> (#[trigger] self.spec_oq()[k1]).id != (
            #[trigger] self.spec_oq()[k2]).id
    }

    /// Every live object except `ex` has an entry in the object queue.
    pub open spec fn oq_covers_except(self, ex: int) -> bool {
        forall|i: int|
            #[trigger] self.object_live(i) && i != ex ==> exists|k: int|
                0 <= k < self.spec_oq().len() && (#[trigger] self.spec_oq()[k]).id == i
    }

    /// Every live object has an entry in the object queue.
    pub open spec fn oq_covers(self) -> bool {
        self.oq_covers_except(-1)
    }

    /// Full well-formedness of a dungeon: the grid, the arenas, and the
    /// scheduling queues agree.
    pub open spec fn wf(self) -> bool {
        &&& self.grid_wf()
        &&& gr_wf(self.spec_turn())
        &&& self.actors_ok()
        &&& self.grid_actors_ok()
        &&& self.objects_ok()
        &&& self.grid_objects_ok()
        &&& self.aq_ok()
        &&& self.aq_covers()
        &&& self.oq_ok()
        &&& self.oq_covers()
    }

    /// Returns a new dungeon with an empty grid and no entities, at game
    /// turn zero.
    pub fn new(danger_level: u32, dungeon_type: DungeonType) -> (r: Dungeon)
        ensures
            r.wf(),
            r.spec_danger_level() == danger_level,
            r.spec_dungeon_type() == dungeon_type,
            r.spec_width() == 0,
            r.spec_height() == 0,
            r.spec_actors().len() == 0,
            r.spec_objects().len() == 0,
            r.spec_aq().len() == 0,
            r.spec_oq().len() == 0,
            r.spec_turn() == (GameRatio { num: 0, den: 1 }),
    {
        Dungeon {
            danger_level,
            dungeon_type,
            tiles: Vec::new(),
            width: 0,
            height: 0,
            actors: Vec::new(),
            objects: Vec::new(),
            actor_queue: Vec::new(),
            object_queue: Vec::new(),
            turn: GameRatio { num: 0, den: 1 },
            fov_start: Coord { x: 0, y: 0 },
            fov_end: Coord { x: 0, y: 0 },
            fov_vis: Vec::new(),
        }
    }

    /// Returns the width of the tile grid.
    pub fn width(&self) -> (r: usize)
        ensures
            r == self.spec_width(),
    {
        self.width
    }

    /// Returns the height of the tile grid.
    pub fn height(&self) -> (r: usize)
        ensures
            r == self.spec_height(),
    {
        self.height
    }

    /// The current global game turn: the turn value of the entity that
    /// acted last.
    pub fn turn(&self) -> (r: GameRatio)
        ensures
            r == self.spec_turn(),
    {
        self.turn
    }

    /// True if `coord` lies on the grid.
    pub fn in_bounds(&self, coord: Coord) -> (r: bool)
        requires
            self.grid_wf(),
        ensures
            r == self.in_bounds_spec(coord),
    {
        let Coord { x, y } = coord;
        x >= 0 && y >= 0 && (x as i64) < (self.width as i64) && (y as i64) < (self.height as i64)
    }

    /// The position of `coord`'s tile in the tile vector.
    fn tile_index(&self, coord: Coord) -> (r: usize)
        requires
            self.grid_wf(),
            self.in_bounds_spec(coord),
        ensures
            r == self.idx_of(coord.x as int, coord.y as int),
            r < self.spec_tiles().len(),
    {
        proof {
            lemma_idx_bound(
                coord.x as int,
                coord.y as int,
                self.spec_width(),
                self.spec_height(),
            );
        }
        (coord.x as usize) * self.height + (coord.y as usize)
    }

    /// Replaces the tile grid with a fresh `width` by `height` grid of
    /// tiles of kind `tile_data`. Only an empty dungeon (no actors or
    /// objects yet) may be re-gridded.
    pub fn init_grid(&mut self, width: usize, height: usize, tile_data: &TileInfo) -> (r:
        GameResult<()>)
        requires
            old(self).wf(),
            old(self).spec_actors().len() == 0,
            old(self).spec_objects().len() == 0,
            1 <= width <= i32::MAX,
            1 <= height <= i32::MAX,
            width * height <= usize::MAX,
        ensures
            r is Ok,
            final (self).wf(),
            final (self).spec_width() == width,
            final (self).spec_height() == height,
            final (self).spec_tiles().len() == width * height,
            forall|i: int|
                0 <= i < final (self).spec_tiles().len() ==> {
                    let t = #[trigger] final (self).spec_tiles()[i];
                    &&& t.info == *tile_data
                    &&& t.height == 0
                    &&& t.actor is None
                    &&& t.object is None
                    &&& t.item_stash is None
                },
            final (self).spec_actors() == old(self).spec_actors(),
            final (self).spec_objects() == old(self).spec_objects(),
            final (self).spec_aq() == old(self).spec_aq(),
            final (self).spec_oq() == old(self).spec_oq(),
            final (self).spec_turn() == old(self).spec_turn(),
            final (self).spec_danger_level() == old(self).spec_danger_level(),
            final (self).spec_dungeon_type() == old(self).spec_dungeon_type(),
    {
        let n = width * height;
        let mut tiles: Vec<Tile> = Vec::new();
        let mut i: usize = 0;
        while i < n
            invariant
                0 <= i <= n,
                tiles@.len() == i,
                forall|j: int|
                    0 <= j < i ==> {
                        let t = #[trigger] tiles@[j];
                        &&& t.info == *tile_data
                        &&& t.height == 0
                        &&& t.actor is None
                        &&& t.object is None
                        &&& t.item_stash is None
                    },
            decreases n - i,
        {
            tiles.push(Tile::new(tile_data.clone_info()));
            i = i + 1;
        }
        self.width = width;
        self.height = height;
        self.tiles = tiles;
        proof {
            let s = *self;
            // With no entities, the old queues must already be empty.
            if s.spec_aq().len() > 0 {
                assert(old(self).actor_live(old(self).spec_aq()[0].id as int));
                assert(false);
            }
            if s.spec_oq().len() > 0 {
                assert(old(self).object_live(old(self).spec_oq()[0].id as int));
                assert(false);
            }
            assert forall|x: int, y: int|
                #![trigger s.spec_tiles()[s.idx_of(x, y)]]
                0 <= x < s.spec_width() && 0 <= y < s.spec_height() implies (
            s.spec_tiles()[s.idx_of(x, y)]).actor is None && (
            s.spec_tiles()[s.idx_of(x, y)]).object is None by {
                lemma_idx_bound(x, y, s.spec_width(), s.spec_height());
            }
        }
        Ok(())
    }

    /// The number of live entries of the actor queue, which is the number
    /// of actors in the dungeon.
    pub fn num_actors(&self) -> (r: usize)
        ensures
            r == self.spec_aq().len(),
    {
        self.actor_queue.len()
    }

    /// Adds an actor to both the tile grid and the scheduling queue, under
    /// a fresh id. Its tile must be free of actors, and it may not be
    /// scheduled before the current game turn.
    pub fn add_actor(&mut self, actor: Actor)
        requires
            old(self).wf(),
            actor_wf(actor),
            old(self).in_bounds_spec(actor.coord),
            old(self).tile_at(actor.coord).actor is None,
            gr_le(old(self).spec_turn(), actor.turn),
        ensures
            final (self).wf(),
            old(self).spec_actors().len() <= usize::MAX,
            final (self).spec_actors() == old(self).spec_actors().push(
                Option::Some(
                    Actor { id: old(self).spec_actors().len() as usize, ..actor },
                ),
            ),
            final (self).spec_aq() == old(self).spec_aq().push(
                QEntry { turn: actor.turn, id: old(self).spec_actors().len() as usize },
            ),
            final (self).spec_tiles() == old(self).spec_tiles().update(
                old(self).idx_of(actor.coord.x as int, actor.coord.y as int),
                (Tile {
                    actor: Option::Some(old(self).spec_actors().len() as usize),
                    ..old(self).tile_at(actor.coord)
                }),
            ),
            final (self).spec_objects() == old(self).spec_objects(),
            final (self).spec_oq() == old(self).spec_oq(),
            final (self).spec_turn() == old(self).spec_turn(),
            final (self).spec_width() == old(self).spec_width(),
            final (self).spec_height() == old(self).spec_height(),
            final (self).spec_danger_level() == old(self).spec_danger_level(),
            final (self).spec_dungeon_type() == old(self).spec_dungeon_type(),
    {
        let id = self.actors.len();
        let idx = self.tile_index(actor.coord);
        let ghost oldself = *self;
        let turn = actor.turn;
        let coord = actor.coord;
        let mut a = actor;
        a.id = id;
        let t = &mut self.tiles[idx];
        t.actor = Some(id);
        self.actors.push(Some(a));
        self.actor_queue.push(QEntry { turn, id });
        proof {
            let prev = oldself;
            let s = *self;
            let h = s.spec_height();
            assert(s.spec_tiles() == prev.spec_tiles().update(
                prev.idx_of(coord.x as int, coord.y as int),
                (Tile { actor: Option::Some(id), ..prev.tile_at(coord) }),
            ));
            assert forall|i: int| s.actor_live(i) implies {
                let a = s.actor_at(i);
                &&& a.id == i
                &&& actor_wf(a)
                &&& gr_le(s.spec_turn(), a.turn)
                &&& s.in_bounds_spec(a.coord)
                &&& s.tile_at(a.coord).actor == Option::Some(i as usize)
            } by {
                if i < id {
                    assert(prev.actor_live(i));
                    let a = prev.actor_at(i);
                    assert(s.actor_at(i) == a);
                    if a.coord == coord {
                        assert(false);
                    } else {
                        lemma_idx_bound(a.coord.x as int, a.coord.y as int, s.spec_width(), h);
                        lemma_idx_inj(
                            a.coord.x as int,
                            a.coord.y as int,
                            coord.x as int,
                            coord.y as int,
                            h,
                        );
                        assert(s.tile_at(a.coord) == prev.tile_at(a.coord));
                    }
                } else {
                    assert(i == id);
                }
            }
            assert forall|x: int, y: int|
                #![trigger s.spec_tiles()[s.idx_of(x, y)]]
                0 <= x < s.spec_width() && 0 <= y < s.spec_height() implies match (
            s.spec_tiles()[s.idx_of(x, y)]).actor {
                Option::Some(aid) => s.actor_live(aid as int) && s.actor_at(aid as int).coord == (
                Coord { x: x as i32, y: y as i32 }),
                Option::None => true,
            } by {
                lemma_idx_bound(x, y, s.spec_width(), h);
                if s.idx_of(x, y) == prev.idx_of(coord.x as int, coord.y as int) {
                    lemma_idx_inj_converse(x, y, coord.x as int, coord.y as int, h);
                    assert(x == coord.x as int && y == coord.y as int);
                } else {
                    assert(s.spec_tiles()[s.idx_of(x, y)] == prev.spec_tiles()[prev.idx_of(x, y)]);
                }
            }
            assert forall|i: int| s.object_live(i) implies {
                let o = s.object_at(i);
                &&& o.id == i
                &&& object_wf(o)
                &&& gr_le(s.spec_turn(), o.turn)
                &&& s.in_bounds_spec(o.coord)
                &&& s.tile_at(o.coord).object == Option::Some(i as usize)
            } by {
                assert(prev.object_live(i));
                let o = prev.object_at(i);
                lemma_idx_bound(o.coord.x as int, o.coord.y as int, s.spec_width(), h);
                if o.coord == coord {
                    assert(s.tile_at(o.coord).object == prev.tile_at(o.coord).object);
                } else {
                    lemma_idx_inj(
                        o.coord.x as int,
                        o.coord.y as int,
                        coord.x as int,
                        coord.y as int,
                        h,
                    );
                    assert(s.tile_at(o.coord) == prev.tile_at(o.coord));
                }
            }
            assert forall|x: int, y: int|
                #![trigger s.spec_tiles()[s.idx_of(x, y)]]
                0 <= x < s.spec_width() && 0 <= y < s.spec_height() implies match (
            s.spec_tiles()[s.idx_of(x, y)]).object {
                Option::Some(oid) => s.object_live(oid as int) && s.object_at(oid as int).coord
                    == (Coord { x: x as i32, y: y as i32 }),
                Option::None => true,
            } by {
                lemma_idx_bound(x, y, s.spec_width(), h);
                assert((s.spec_tiles()[s.idx_of(x, y)]).object == (
                prev.spec_tiles()[prev.idx_of(x, y)]).object);
            }
            assert(s.aq_ok()) by {
                assert(forall|k: int|
                    0 <= k < prev.spec_aq().len() ==> #[trigger] prev.spec_aq()[k]
                        == s.spec_aq()[k]);
                assert forall|k: int| 0 <= k < s.spec_aq().len() implies {
                    let e = #[trigger] s.spec_aq()[k];
                    s.actor_live(e.id as int) && s.actor_at(e.id as int).turn == e.turn
                } by {
                    if k < prev.spec_aq().len() {
                        assert(prev.actor_live(prev.spec_aq()[k].id as int));
                    }
                }
                assert forall|k1: int, k2: int|
                    0 <= k1 < k2 < s.spec_aq().len() implies (#[trigger] s.spec_aq()[k1]).id != (
                #[trigger] s.spec_aq()[k2]).id by {
                    if k2 == s.spec_aq().len() - 1 && k1 < prev.spec_aq().len() {
                        assert(prev.actor_live(prev.spec_aq()[k1].id as int));
                        assert(prev.spec_aq()[k1].id < id);
                    }
                }
            }
            assert(s.aq_covers()) by {
                assert forall|i: int| #[trigger] s.actor_live(i) && i != -1 implies exists|k: int|
                    0 <= k < s.spec_aq().len() && (#[trigger] s.spec_aq()[k]).id == i by {
                    if i < id {
                        assert(prev.actor_live(i));
                        let k = choose|k: int|
                            0 <= k < prev.spec_aq().len() && (#[trigger] prev.spec_aq()[k]).id
                                == i;
                        assert(s.spec_aq()[k].id == i);
                    } else {
                        assert(s.spec_aq()[s.spec_aq().len() - 1].id == i);
                    }
                }
            }
            assert(s.oq_ok()) by {
                assert forall|k: int| 0 <= k < s.spec_oq().len() implies {
                    let e = #[trigger] s.spec_oq()[k];
                    s.object_live(e.id as int) && s.object_at(e.id as int).turn == e.turn
                } by {
                    assert(prev.object_live(prev.spec_oq()[k].id as int));
                }
            }
            assert(s.oq_covers()) by {
                assert forall|i: int| #[trigger] s.object_live(i) && i != -1 implies exists|k: int|
                    0 <= k < s.spec_oq().len() && (#[trigger] s.spec_oq()[k]).id == i by {
                    assert(prev.object_live(i));
                    let k = choose|k: int|
                        0 <= k < prev.spec_oq().len() && (#[trigger] prev.spec_oq()[k]).id == i;
                    assert(s.spec_oq()[k].id == i);
                }
            }
        }
    }

    /// Moves the actor standing at `old_coord` to the free tile at
    /// `new_coord`, updating both the grid and the arena. Moving onto a
    /// tile that already holds an actor is forbidden.
    pub fn move_actor(&mut self, old_coord: Coord, new_coord: Coord)
        requires
            old(self).wf(),
            old(self).in_bounds_spec(old_coord),
            old(self).in_bounds_spec(new_coord),
            old(self).tile_at(old_coord).actor is Some,
            old(self).tile_at(new_coord).actor is None,
        ensures
            final (self).wf(),
            ({
                let id = old(self).tile_at(old_coord).actor->0;
                &&& final (self).spec_actors() == old(self).spec_actors().update(
                    id as int,
                    Option::Some(
                        Actor { coord: new_coord, ..old(self).actor_at(id as int) },
                    ),
                )
                &&& final (self).spec_tiles() == old(self).spec_tiles().update(
                    old(self).idx_of(old_coord.x as int, old_coord.y as int),
                    (Tile { actor: Option::None, ..old(self).tile_at(old_coord) }),
                ).update(
                    old(self).idx_of(new_coord.x as int, new_coord.y as int),
                    (Tile { actor: Option::Some(id), ..old(self).tile_at(new_coord) }),
                )
            }),
            final (self).spec_objects() == old(self).spec_objects(),
            final (self).spec_aq() == old(self).spec_aq(),
            final (self).spec_oq() == old(self).spec_oq(),
            final (self).spec_turn() == old(self).spec_turn(),
            final (self).spec_width() == old(self).spec_width(),
            final (self).spec_height() == old(self).spec_height(),
            final (self).spec_danger_level() == old(self).spec_danger_level(),
            final (self).spec_dungeon_type() == old(self).spec_dungeon_type(),
    {
        let idx_old = self.tile_index(old_coord);
        let id = self.tiles[idx_old].actor.unwrap();
        proof {
            assert(old(self).actor_live(id as int));
            assert(old(self).actor_at(id as int).coord == old_coord);
        }
        let t = &mut self.tiles[idx_old];
        t.actor = None;
        let idx_new = self.tile_index(new_coord);
        let t2 = &mut self.tiles[idx_new];
        t2.actor = Some(id);
        let slot = &mut self.actors[id];
        match slot {
            Some(a) => {
                a.set_coord(new_coord);
            },
            None => {
                proof {
                    assert(false);
                }
            },
        }
        proof {
            let prev = *old(self);
            let s = *self;
            let h = s.spec_height();
            let w = s.spec_width();
            let io = prev.idx_of(old_coord.x as int, old_coord.y as int);
            let inw = prev.idx_of(new_coord.x as int, new_coord.y as int);
            lemma_idx_bound(old_coord.x as int, old_coord.y as int, w, h);
            lemma_idx_bound(new_coord.x as int, new_coord.y as int, w, h);
            lemma_idx_inj(
                old_coord.x as int,
                old_coord.y as int,
                new_coord.x as int,
                new_coord.y as int,
                h,
            );
            assert forall|i: int| s.actor_live(i) implies {
                let a = s.actor_at(i);
                &&& a.id == i
                &&& actor_wf(a)
                &&& gr_le(s.spec_turn(), a.turn)
                &&& s.in_bounds_spec(a.coord)
                &&& s.tile_at(a.coord).actor == Option::Some(i as usize)
            } by {
                assert(prev.actor_live(i));
                if i == id {
                    assert(s.actor_at(i) == (Actor {
                        coord: new_coord,
                        ..prev.actor_at(id as int)
                    }));
                    assert(s.tile_at(new_coord).actor == Option::Some(id));
                } else {
                    let a = prev.actor_at(i);
                    assert(s.actor_at(i) == a);
                    assert(a.coord != old_coord);
                    assert(a.coord != new_coord);
                    lemma_idx_bound(a.coord.x as int, a.coord.y as int, w, h);
                    lemma_idx_inj(
                        a.coord.x as int,
                        a.coord.y as int,
                        old_coord.x as int,
                        old_coord.y as int,
                        h,
                    );
                    lemma_idx_inj(
                        a.coord.x as int,
                        a.coord.y as int,
                        new_coord.x as int,
                        new_coord.y as int,
                        h,
                    );
                    assert(s.tile_at(a.coord) == prev.tile_at(a.coord));
                }
            }
            assert forall|x: int, y: int|
                #![trigger s.spec_tiles()[s.idx_of(x, y)]]
                0 <= x < s.spec_width() && 0 <= y < s.spec_height() implies match (
            s.spec_tiles()[s.idx_of(x, y)]).actor {
                Option::Some(aid) => s.actor_live(aid as int) && s.actor_at(aid as int).coord == (
                Coord { x: x as i32, y: y as i32 }),
                Option::None => true,
            } by {
                lemma_idx_bound(x, y, w, h);
                if s.idx_of(x, y) == inw {
                    lemma_idx_inj_converse(x, y, new_coord.x as int, new_coord.y as int, h);
                } else if s.idx_of(x, y) == io {
                    lemma_idx_inj_converse(x, y, old_coord.x as int, old_coord.y as int, h);
                } else {
                    assert(s.spec_tiles()[s.idx_of(x, y)] == prev.spec_tiles()[prev.idx_of(x, y)]);
                    match (prev.spec_tiles()[prev.idx_of(x, y)]).actor {
                        Option::Some(aid) => {
                            assert(prev.actor_live(aid as int));
                            assert(aid != id) by {
                                if aid == id {
                                    lemma_idx_inj_converse(
                                        x,
                                        y,
                                        old_coord.x as int,
                                        old_coord.y as int,
                                        h,
                                    );
                                }
                            }
                        },
                        Option::None => {},
                    }
                }
            }
            assert forall|i: int| s.object_live(i) implies {
                let o = s.object_at(i);
                &&& o.id == i
                &&& object_wf(o)
                &&& gr_le(s.spec_turn(), o.turn)
                &&& s.in_bounds_spec(o.coord)
                &&& s.tile_at(o.coord).object == Option::Some(i as usize)
            } by {
                assert(prev.object_live(i));
                let o = prev.object_at(i);
                lemma_idx_bound(o.coord.x as int, o.coord.y as int, w, h);
                assert(s.tile_at(o.coord).object == prev.tile_at(o.coord).object);
            }
            assert forall|x: int, y: int|
                #![trigger s.spec_tiles()[s.idx_of(x, y)]]
                0 <= x < s.spec_width() && 0 <= y < s.spec_height() implies match (
            s.spec_tiles()[s.idx_of(x, y)]).object {
                Option::Some(oid) => s.object_live(oid as int) && s.object_at(oid as int).coord
                    == (Coord { x: x as i32, y: y as i32 }),
                Option::None => true,
            } by {
                lemma_idx_bound(x, y, w, h);
                assert((s.spec_tiles()[s.idx_of(x, y)]).object == (
                prev.spec_tiles()[prev.idx_of(x, y)]).object);
            }
            assert(s.aq_ok()) by {
                assert forall|k: int| 0 <= k < s.spec_aq().len() implies {
                    let e = #[trigger] s.spec_aq()[k];
                    s.actor_live(e.id as int) && s.actor_at(e.id as int).turn == e.turn
                } by {
                    assert(prev.actor_live(prev.spec_aq()[k].id as int));
                }
            }
            assert(s.aq_covers()) by {
                assert forall|i: int| #[trigger] s.actor_live(i) && i != -1 implies exists|k: int|
                    0 <= k < s.spec_aq().len() && (#[trigger] s.spec_aq()[k]).id == i by {
                    assert(prev.actor_live(i));
                    let k = choose|k: int|
                        0 <= k < prev.spec_aq().len() && (#[trigger] prev.spec_aq()[k]).id == i;
                    assert(s.spec_aq()[k].id == i);
                }
            }
            assert(s.oq_ok()) by {
                assert forall|k: int| 0 <= k < s.spec_oq().len() implies {
                    let e = #[trigger] s.spec_oq()[k];
                    s.object_live(e.id as int) && s.object_at(e.id as int).turn == e.turn
                } by {
                    assert(prev.object_live(prev.spec_oq()[k].id as int));
                }
            }
            assert(s.oq_covers()) by {
                assert forall|i: int| #[trigger] s.object_live(i) && i != -1 implies exists|k: int|
                    0 <= k < s.spec_oq().len() && (#[trigger] s.spec_oq()[k]).id == i by {
                    assert(prev.object_live(i));
                    let k = choose|k: int|
                        0 <= k < prev.spec_oq().len() && (#[trigger] prev.spec_oq()[k]).id == i;
                    assert(s.spec_oq()[k].id == i);
                }
            }
        }
    }

    /// Removes the actor standing at `coord` from the grid, the arena, and
    /// the scheduling queue, and returns it. Its queue entry is removed as
    /// well, so the removed actor is unreachable from the scheduler.
    pub fn remove_actor(&mut self, coord: Coord) -> (r: Actor)
        requires
            old(self).wf(),
            old(self).in_bounds_spec(coord),
            old(self).tile_at(coord).actor is Some,
        ensures
            final (self).wf(),
            ({
                let id = old(self).tile_at(coord).actor->0;
                &&& r == old(self).actor_at(id as int)
                &&& final (self).spec_actors() == old(self).spec_actors().update(
                    id as int,
                    Option::None,
                )
                &&& final (self).spec_tiles() == old(self).spec_tiles().update(
                    old(self).idx_of(coord.x as int, coord.y as int),
                    (Tile { actor: Option::None, ..old(self).tile_at(coord) }),
                )
                &&& exists|k: int|
                    0 <= k < old(self).spec_aq().len() && (#[trigger] old(self).spec_aq()[k]).id
                        == id && final (self).spec_aq() == old(self).spec_aq().remove(k)
            }),
            final (self).spec_objects() == old(self).spec_objects(),
            final (self).spec_oq() == old(self).spec_oq(),
            final (self).spec_turn() == old(self).spec_turn(),
            final (self).spec_width() == old(self).spec_width(),
            final (self).spec_height() == old(self).spec_height(),
            final (self).spec_danger_level() == old(self).spec_danger_level(),
            final (self).spec_dungeon_type() == old(self).spec_dungeon_type(),
    {
        let idx = self.tile_index(coord);
        let id = self.tiles[idx].actor.unwrap();
        proof {
            assert(old(self).actor_live(id as int));
            assert(old(self).actor_at(id as int).coord == coord);
        }
        let mut k: usize = 0;
        while k < self.actor_queue.len() && self.actor_queue[k].id != id
            invariant
                *self == *old(self),
                0 <= k <= self.spec_aq().len(),
                forall|j: int| 0 <= j < k ==> (#[trigger] self.spec_aq()[j]).id != id,
            decreases self.spec_aq().len() - k,
        {
            k = k + 1;
        }
        proof {
            if k == self.spec_aq().len() {
                assert(old(self).actor_live(id as int));
                let k0 = choose|k0: int|
                    0 <= k0 < old(self).spec_aq().len() && (#[trigger] old(self).spec_aq()[k0]).id
                        == id as int;
                assert(self.spec_aq()[k0].id != id);
                assert(false);
            }
        }
        self.actor_queue.remove(k);
        let slot = &mut self.actors[id];
        let taken = slot.take();
        let t = &mut self.tiles[idx];
        t.actor = None;
        let result = taken.unwrap();
        proof {
            let prev = *old(self);
            let s = *self;
            let h = s.spec_height();
            let w = s.spec_width();
            let ic = prev.idx_of(coord.x as int, coord.y as int);
            lemma_idx_bound(coord.x as int, coord.y as int, w, h);
            assert forall|i: int| s.actor_live(i) implies {
                let a = s.actor_at(i);
                &&& a.id == i
                &&& actor_wf(a)
                &&& gr_le(s.spec_turn(), a.turn)
                &&& s.in_bounds_spec(a.coord)
                &&& s.tile_at(a.coord).actor == Option::Some(i as usize)
            } by {
                assert(i != id);
                assert(prev.actor_live(i));
                let a = prev.actor_at(i);
                assert(s.actor_at(i) == a);
                assert(a.coord != coord);
                lemma_idx_bound(a.coord.x as int, a.coord.y as int, w, h);
                lemma_idx_inj(a.coord.x as int, a.coord.y as int, coord.x as int, coord.y as int, h);
                assert(s.tile_at(a.coord) == prev.tile_at(a.coord));
            }
            assert forall|x: int, y: int|
                #![trigger s.spec_tiles()[s.idx_of(x, y)]]
                0 <= x < s.spec_width() && 0 <= y < s.spec_height() implies match (
            s.spec_tiles()[s.idx_of(x, y)]).actor {
                Option::Some(aid) => s.actor_live(aid as int) && s.actor_at(aid as int).coord == (
                Coord { x: x as i32, y: y as i32 }),
                Option::None => true,
            } by {
                lemma_idx_bound(x, y, w, h);
                if s.idx_of(x, y) == ic {
                    lemma_idx_inj_converse(x, y, coord.x as int, coord.y as int, h);
                } else {
                    assert(s.spec_tiles()[s.idx_of(x, y)] == prev.spec_tiles()[prev.idx_of(x, y)]);
                    match (prev.spec_tiles()[prev.idx_of(x, y)]).actor {
                        Option::Some(aid) => {
                            assert(prev.actor_live(aid as int));
                            assert(aid != id) by {
                                if aid == id {
                                    lemma_idx_inj_converse(x, y, coord.x as int, coord.y as int, h);
                                }
                            }
                        },
                        Option::None => {},
                    }
                }
            }
            assert forall|i: int| s.object_live(i) implies {
                let o = s.object_at(i);
                &&& o.id == i
                &&& object_wf(o)
                &&& gr_le(s.spec_turn(), o.turn)
                &&& s.in_bounds_spec(o.coord)
                &&& s.tile_at(o.coord).object == Option::Some(i as usize)
            } by {
                assert(prev.object_live(i));
                let o = prev.object_at(i);
                lemma_idx_bound(o.coord.x as int, o.coord.y as int, w, h);
                assert(s.tile_at(o.coord).object == prev.tile_at(o.coord).object);
            }
            assert forall|x: int, y: int|
                #![trigger s.spec_tiles()[s.idx_of(x, y)]]
                0 <= x < s.spec_width() && 0 <= y < s.spec_height() implies match (
            s.spec_tiles()[s.idx_of(x, y)]).object {
                Option::Some(oid) => s.object_live(oid as int) && s.object_at(oid as int).coord
                    == (Coord { x: x as i32, y: y as i32 }),
                Option::None => true,
            } by {
                lemma_idx_bound(x, y, w, h);
                assert((s.spec_tiles()[s.idx_of(x, y)]).object == (
                prev.spec_tiles()[prev.idx_of(x, y)]).object);
            }
            assert(s.aq_ok()) by {
                assert forall|k2: int| 0 <= k2 < s.spec_aq().len() implies {
                    let e = #[trigger] s.spec_aq()[k2];
                    s.actor_live(e.id as int) && s.actor_at(e.id as int).turn == e.turn
                } by {
                    let k0: int = if k2 < k {
                        k2
                    } else {
                        k2 + 1
                    };
                    assert(s.spec_aq()[k2] == prev.spec_aq()[k0]);
                    assert(prev.actor_live(prev.spec_aq()[k0].id as int));
                    assert(prev.spec_aq()[k0].id != id || k0 == k as int);
                }
                assert forall|k1: int, k2: int|
                    0 <= k1 < k2 < s.spec_aq().len() implies (#[trigger] s.spec_aq()[k1]).id != (
                #[trigger] s.spec_aq()[k2]).id by {
                    let a1: int = if k1 < k {
                        k1
                    } else {
                        k1 + 1
                    };
                    let a2: int = if k2 < k {
                        k2
                    } else {
                        k2 + 1
                    };
                    assert(s.spec_aq()[k1] == prev.spec_aq()[a1]);
                    assert(s.spec_aq()[k2] == prev.spec_aq()[a2]);
                }
            }
            assert(s.aq_covers()) by {
                assert forall|i: int| #[trigger] s.actor_live(i) && i != -1 implies exists|k3: int|
                    0 <= k3 < s.spec_aq().len() && (#[trigger] s.spec_aq()[k3]).id == i by {
                    assert(i != id);
                    assert(prev.actor_live(i));
                    let k0 = choose|k0: int|
                        0 <= k0 < prev.spec_aq().len() && (#[trigger] prev.spec_aq()[k0]).id == i;
                    assert(k0 != k as int);
                    if k0 < k {
                        assert(s.spec_aq()[k0].id == i);
                    } else {
                        assert(s.spec_aq()[k0 - 1].id == i);
                    }
                }
            }
            assert(s.oq_ok()) by {
                assert forall|k2: int| 0 <= k2 < s.spec_oq().len() implies {
                    let e = #[trigger] s.spec_oq()[k2];
                    s.object_live(e.id as int) && s.object_at(e.id as int).turn == e.turn
                } by {
                    assert(prev.object_live(prev.spec_oq()[k2].id as int));
                }
            }
            assert(s.oq_covers()) by {
                assert forall|i: int| #[trigger] s.object_live(i) && i != -1 implies exists|k3: int|
                    0 <= k3 < s.spec_oq().len() && (#[trigger] s.spec_oq()[k3]).id == i by {
                    assert(prev.object_live(i));
                    let k0 = choose|k0: int|
                        0 <= k0 < prev.spec_oq().len() && (#[trigger] prev.spec_oq()[k0]).id == i;
                    assert(s.spec_oq()[k0].id == i);
                }
            }
        }
        result
    }

    /// Adds an object to both the tile grid and the scheduling queue,
    /// under a fresh id. Its tile must be free of objects, and it may not
    /// be scheduled before the current game turn.
    pub fn add_object(&mut self, object: Object)
        requires
            old(self).wf(),
            object_wf(object),
            old(self).in_bounds_spec(object.coord),
            old(self).tile_at(object.coord).object is None,
            gr_le(old(self).spec_turn(), object.turn),
        ensures
            final (self).wf(),
            old(self).spec_objects().len() <= usize::MAX,
            final (self).spec_objects() == old(self).spec_objects().push(
                Option::Some(
                    Object { id: old(self).spec_objects().len() as usize, ..object },
                ),
            ),
            final (self).spec_oq() == old(self).spec_oq().push(
                QEntry { turn: object.turn, id: old(self).spec_objects().len() as usize },
            ),
            final (self).spec_tiles() == old(self).spec_tiles().update(
                old(self).idx_of(object.coord.x as int, object.coord.y as int),
                (Tile {
                    object: Option::Some(old(self).spec_objects().len() as usize),
                    ..old(self).tile_at(object.coord)
                }),
            ),
            final (self).spec_actors() == old(self).spec_actors(),
            final (self).spec_aq() == old(self).spec_aq(),
            final (self).spec_turn() == old(self).spec_turn(),
            final (self).spec_width() == old(self).spec_width(),
            final (self).spec_height() == old(self).spec_height(),
            final (self).spec_danger_level() == old(self).spec_danger_level(),
            final (self).spec_dungeon_type() == old(self).spec_dungeon_type(),
    {
        let id = self.objects.len();
        let idx = self.tile_index(object.coord);
        let turn = object.turn;
        let coord = object.coord;
        let mut o = object;
        o.id = id;
        let t = &mut self.tiles[idx];
        t.object = Some(id);
        self.objects.push(Some(o));
        self.object_queue.push(QEntry { turn, id });
        proof {
            let prev = *old(self);
            let s = *self;
            let h = s.spec_height();
            let w = s.spec_width();
            assert forall|i: int| s.object_live(i) implies {
                let o2 = s.object_at(i);
                &&& o2.id == i
                &&& object_wf(o2)
                &&& gr_le(s.spec_turn(), o2.turn)
                &&& s.in_bounds_spec(o2.coord)
                &&& s.tile_at(o2.coord).object == Option::Some(i as usize)
            } by {
                if i < id {
                    assert(prev.object_live(i));
                    let o2 = prev.object_at(i);
                    assert(s.object_at(i) == o2);
                    if o2.coord == coord {
                        assert(false);
                    } else {
                        lemma_idx_bound(o2.coord.x as int, o2.coord.y as int, w, h);
                        lemma_idx_inj(
                            o2.coord.x as int,
                            o2.coord.y as int,
                            coord.x as int,
                            coord.y as int,
                            h,
                        );
                        assert(s.tile_at(o2.coord) == prev.tile_at(o2.coord));
                    }
                } else {
                    assert(i == id);
                }
            }
            assert forall|x: int, y: int|
                #![trigger s.spec_tiles()[s.idx_of(x, y)]]
                0 <= x < s.spec_width() && 0 <= y < s.spec_height() implies match (
            s.spec_tiles()[s.idx_of(x, y)]).object {
                Option::Some(oid) => s.object_live(oid as int) && s.object_at(oid as int).coord
                    == (Coord { x: x as i32, y: y as i32 }),
                Option::None => true,
            } by {
                lemma_idx_bound(x, y, w, h);
                if s.idx_of(x, y) == prev.idx_of(coord.x as int, coord.y as int) {
                    lemma_idx_inj_converse(x, y, coord.x as int, coord.y as int, h);
                    assert(x == coord.x as int && y == coord.y as int);
                } else {
                    assert(s.spec_tiles()[s.idx_of(x, y)] == prev.spec_tiles()[prev.idx_of(x, y)]);
                }
            }
            assert forall|i: int| s.actor_live(i) implies {
                let a = s.actor_at(i);
                &&& a.id == i
                &&& actor_wf(a)
                &&& gr_le(s.spec_turn(), a.turn)
                &&& s.in_bounds_spec(a.coord)
                &&& s.tile_at(a.coord).actor == Option::Some(i as usize)
            } by {
                assert(prev.actor_live(i));
                let a = prev.actor_at(i);
                lemma_idx_bound(a.coord.x as int, a.coord.y as int, w, h);
                if a.coord == coord {
                    assert(s.tile_at(a.coord).actor == prev.tile_at(a.coord).actor);
                } else {
                    lemma_idx_inj(
                        a.coord.x as int,
                        a.coord.y as int,
                        coord.x as int,
                        coord.y as int,
                        h,
                    );
                    assert(s.tile_at(a.coord) == prev.tile_at(a.coord));
                }
            }
            assert forall|x: int, y: int|
                #![trigger s.spec_tiles()[s.idx_of(x, y)]]
                0 <= x < s.spec_width() && 0 <= y < s.spec_height() implies match (
            s.spec_tiles()[s.idx_of(x, y)]).actor {
                Option::Some(aid) => s.actor_live(aid as int) && s.actor_at(aid as int).coord == (
                Coord { x: x as i32, y: y as i32 }),
                Option::None => true,
            } by {
                lemma_idx_bound(x, y, w, h);
                assert((s.spec_tiles()[s.idx_of(x, y)]).actor == (
                prev.spec_tiles()[prev.idx_of(x, y)]).actor);
            }
            assert(s.oq_ok()) by {
                assert forall|k: int| 0 <= k < s.spec_oq().len() implies {
                    let e = #[trigger] s.spec_oq()[k];
                    s.object_live(e.id as int) && s.object_at(e.id as int).turn == e.turn
                } by {
                    if k < prev.spec_oq().len() {
                        assert(prev.object_live(prev.spec_oq()[k].id as int));
                    }
                }
                assert forall|k1: int, k2: int|
                    0 <= k1 < k2 < s.spec_oq().len() implies (#[trigger] s.spec_oq()[k1]).id != (
                #[trigger] s.spec_oq()[k2]).id by {
                    if k2 == s.spec_oq().len() - 1 && k1 < prev.spec_oq().len() {
                        assert(prev.object_live(prev.spec_oq()[k1].id as int));
                        assert(prev.spec_oq()[k1].id < id);
                    }
                }
            }
            assert(s.oq_covers()) by {
                assert forall|i: int| #[trigger] s.object_live(i) && i != -1 implies exists|k: int|
                    0 <= k < s.spec_oq().len() && (#[trigger] s.spec_oq()[k]).id == i by {
                    if i < id {
                        assert(prev.object_live(i));
                        let k = choose|k: int|
                            0 <= k < prev.spec_oq().len() && (#[trigger] prev.spec_oq()[k]).id
                                == i;
                        assert(s.spec_oq()[k].id == i);
                    } else {
                        assert(s.spec_oq()[s.spec_oq().len() - 1].id == i);
                    }
                }
            }
            assert(s.aq_ok()) by {
                assert forall|k: int| 0 <= k < s.spec_aq().len() implies {
                    let e = #[trigger] s.spec_aq()[k];
                    s.actor_live(e.id as int) && s.actor_at(e.id as int).turn == e.turn
                } by {
                    assert(prev.actor_live(prev.spec_aq()[k].id as int));
                }
            }
            assert(s.aq_covers()) by {
                assert forall|i: int| #[trigger] s.actor_live(i) && i != -1 implies exists|k: int|
                    0 <= k < s.spec_aq().len() && (#[trigger] s.spec_aq()[k]).id == i by {
                    assert(prev.actor_live(i));
                    let k = choose|k: int|
                        0 <= k < prev.spec_aq().len() && (#[trigger] prev.spec_aq()[k]).id == i;
                    assert(s.spec_aq()[k].id == i);
                }
            }
        }
    }

    /// Moves the object sitting at `old_coord` to the free tile at
    /// `new_coord`, updating both the grid and the arena. Moving onto a
    /// tile that already holds an object is forbidden.
    pub fn move_object(&mut self, old_coord: Coord, new_coord: Coord)
        requires
            old(self).wf(),
            old(self).in_bounds_spec(old_coord),
            old(self).in_bounds_spec(new_coord),
            old(self).tile_at(old_coord).object is Some,
            old(self).tile_at(new_coord).object is None,
        ensures
            final (self).wf(),
            ({
                let id = old(self).tile_at(old_coord).object->0;
                &&& final (self).spec_objects() == old(self).spec_objects().update(
                    id as int,
                    Option::Some(
                        Object { coord: new_coord, ..old(self).object_at(id as int) },
                    ),
                )
                &&& final (self).spec_tiles() == old(self).spec_tiles().update(
                    old(self).idx_of(old_coord.x as int, old_coord.y as int),
                    (Tile { object: Option::None, ..old(self).tile_at(old_coord) }),
                ).update(
                    old(self).idx_of(new_coord.x as int, new_coord.y as int),
                    (Tile { object: Option::Some(id), ..old(self).tile_at(new_coord) }),
                )
            }),
            final (self).spec_actors() == old(self).spec_actors(),
            final (self).spec_oq() == old(self).spec_oq(),
            final (self).spec_aq() == old(self).spec_aq(),
            final (self).spec_turn() == old(self).spec_turn(),
            final (self).spec_width() == old(self).spec_width(),
            final (self).spec_height() == old(self).spec_height(),
            final (self).spec_danger_level() == old(self).spec_danger_level(),
            final (self).spec_dungeon_type() == old(self).spec_dungeon_type(),
    {
        let idx_old = self.tile_index(old_coord);
        let id = self.tiles[idx_old].object.unwrap();
        proof {
            assert(old(self).object_live(id as int));
            assert(old(self).object_at(id as int).coord == old_coord);
        }
        let t = &mut self.tiles[idx_old];
        t.object = None;
        let idx_new = self.tile_index(new_coord);
        let t2 = &mut self.tiles[idx_new];
        t2.object = Some(id);
        let slot = &mut self.objects[id];
        match slot {
            Some(a) => {
                a.set_coord(new_coord);
            },
            None => {
                proof {
                    assert(false);
                }
            },
        }
        proof {
            let prev = *old(self);
            let s = *self;
            let h = s.spec_height();
            let w = s.spec_width();
            let io = prev.idx_of(old_coord.x as int, old_coord.y as int);
            let inw = prev.idx_of(new_coord.x as int, new_coord.y as int);
            lemma_idx_bound(old_coord.x as int, old_coord.y as int, w, h);
            lemma_idx_bound(new_coord.x as int, new_coord.y as int, w, h);
            lemma_idx_inj(
                old_coord.x as int,
                old_coord.y as int,
                new_coord.x as int,
                new_coord.y as int,
                h,
            );
            assert forall|i: int| s.object_live(i) implies {
                let a = s.object_at(i);
                &&& a.id == i
                &&& object_wf(a)
                &&& gr_le(s.spec_turn(), a.turn)
                &&& s.in_bounds_spec(a.coord)
                &&& s.tile_at(a.coord).object == Option::Some(i as usize)
            } by {
                assert(prev.object_live(i));
                if i == id {
                    assert(s.object_at(i) == (Object {
                        coord: new_coord,
                        ..prev.object_at(id as int)
                    }));
                    assert(s.tile_at(new_coord).object == Option::Some(id));
                } else {
                    let a = prev.object_at(i);
                    assert(s.object_at(i) == a);
                    assert(a.coord != old_coord);
                    assert(a.coord != new_coord);
                    lemma_idx_bound(a.coord.x as int, a.coord.y as int, w, h);
                    lemma_idx_inj(
                        a.coord.x as int,
                        a.coord.y as int,
                        old_coord.x as int,
                        old_coord.y as int,
                        h,
                    );
                    lemma_idx_inj(
                        a.coord.x as int,
                        a.coord.y as int,
                        new_coord.x as int,
                        new_coord.y as int,
                        h,
                    );
                    assert(s.tile_at(a.coord) == prev.tile_at(a.coord));
                }
            }
            assert forall|x: int, y: int|
                #![trigger s.spec_tiles()[s.idx_of(x, y)]]
                0 <= x < s.spec_width() && 0 <= y < s.spec_height() implies match (
            s.spec_tiles()[s.idx_of(x, y)]).object {
                Option::Some(aid) => s.object_live(aid as int) && s.object_at(aid as int).coord == (
                Coord { x: x as i32, y: y as i32 }),
                Option::None => true,
            } by {
                lemma_idx_bound(x, y, w, h);
                if s.idx_of(x, y) == inw {
                    lemma_idx_inj_converse(x, y, new_coord.x as int, new_coord.y as int, h);
                } else if s.idx_of(x, y) == io {
                    lemma_idx_inj_converse(x, y, old_coord.x as int, old_coord.y as int, h);
                } else {
                    assert(s.spec_tiles()[s.idx_of(x, y)] == prev.spec_tiles()[prev.idx_of(x, y)]);
                    match (prev.spec_tiles()[prev.idx_of(x, y)]).object {
                        Option::Some(aid) => {
                            assert(prev.object_live(aid as int));
                            assert(aid != id) by {
                                if aid == id {
                                    lemma_idx_inj_converse(
                                        x,
                                        y,
                                        old_coord.x as int,
                                        old_coord.y as int,
                                        h,
                                    );
                                }
                            }
                        },
                        Option::None => {},
                    }
                }
            }
            assert forall|i: int| s.actor_live(i) implies {
                let o = s.actor_at(i);
                &&& o.id == i
                &&& actor_wf(o)
                &&& gr_le(s.spec_turn(), o.turn)
                &&& s.in_bounds_spec(o.coord)
                &&& s.tile_at(o.coord).actor == Option::Some(i as usize)
            } by {
                assert(prev.actor_live(i));
                let o = prev.actor_at(i);
                lemma_idx_bound(o.coord.x as int, o.coord.y as int, w, h);
                assert(s.tile_at(o.coord).actor == prev.tile_at(o.coord).actor);
            }
            assert forall|x: int, y: int|
                #![trigger s.spec_tiles()[s.idx_of(x, y)]]
                0 <= x < s.spec_width() && 0 <= y < s.spec_height() implies match (
            s.spec_tiles()[s.idx_of(x, y)]).actor {
                Option::Some(oid) => s.actor_live(oid as int) && s.actor_at(oid as int).coord
                    == (Coord { x: x as i32, y: y as i32 }),
                Option::None => true,
            } by {
                lemma_idx_bound(x, y, w, h);
                assert((s.spec_tiles()[s.idx_of(x, y)]).actor == (
                prev.spec_tiles()[prev.idx_of(x, y)]).actor);
            }
            assert(s.oq_ok()) by {
                assert forall|k: int| 0 <= k < s.spec_oq().len() implies {
                    let e = #[trigger] s.spec_oq()[k];
                    s.object_live(e.id as int) && s.object_at(e.id as int).turn == e.turn
                } by {
                    assert(prev.object_live(prev.spec_oq()[k].id as int));
                }
            }
            assert(s.oq_covers()) by {
                assert forall|i: int| #[trigger] s.object_live(i) && i != -1 implies exists|k: int|
                    0 <= k < s.spec_oq().len() && (#[trigger] s.spec_oq()[k]).id == i by {
                    assert(prev.object_live(i));
                    let k = choose|k: int|
                        0 <= k < prev.spec_oq().len() && (#[trigger] prev.spec_oq()[k]).id == i;
                    assert(s.spec_oq()[k].id == i);
                }
            }
            assert(s.aq_ok()) by {
                assert forall|k: int| 0 <= k < s.spec_aq().len() implies {
                    let e = #[trigger] s.spec_aq()[k];
                    s.actor_live(e.id as int) && s.actor_at(e.id as int).turn == e.turn
                } by {
                    assert(prev.actor_live(prev.spec_aq()[k].id as int));
                }
            }
            assert(s.aq_covers()) by {
                assert forall|i: int| #[trigger] s.actor_live(i) && i != -1 implies exists|k: int|
                    0 <= k < s.spec_aq().len() && (#[trigger] s.spec_aq()[k]).id == i by {
                    assert(prev.actor_live(i));
                    let k = choose|k: int|
                        0 <= k < prev.spec_aq().len() && (#[trigger] prev.spec_aq()[k]).id == i;
                    assert(s.spec_aq()[k].id == i);
                }
            }
        }
    }

    /// Removes the object sitting at `coord` from the grid, the arena, and
    /// the scheduling queue, and returns it. Its queue entry is removed as
    /// well, so the removed object is unreachable from the scheduler.
    pub fn remove_object(&mut self, coord: Coord) -> (r: Object)
        requires
            old(self).wf(),
            old(self).in_bounds_spec(coord),
            old(self).tile_at(coord).object is Some,
        ensures
            final (self).wf(),
            ({
                let id = old(self).tile_at(coord).object->0;
                &&& r == old(self).object_at(id as int)
                &&& final (self).spec_objects() == old(self).spec_objects().update(
                    id as int,
                    Option::None,
                )
                &&& final (self).spec_tiles() == old(self).spec_tiles().update(
                    old(self).idx_of(coord.x as int, coord.y as int),
                    (Tile { object: Option::None, ..old(self).tile_at(coord) }),
                )
                &&& exists|k: int|
                    0 <= k < old(self).spec_oq().len() && (#[trigger] old(self).spec_oq()[k]).id
                        == id && final (self).spec_oq() == old(self).spec_oq().remove(k)
            }),
            final (self).spec_actors() == old(self).spec_actors(),
            final (self).spec_aq() == old(self).spec_aq(),
            final (self).spec_turn() == old(self).spec_turn(),
            final (self).spec_width() == old(self).spec_width(),
            final (self).spec_height() == old(self).spec_height(),
            final (self).spec_danger_level() == old(self).spec_danger_level(),
            final (self).spec_dungeon_type() == old(self).spec_dungeon_type(),
    {
        let idx = self.tile_index(coord);
        let id = self.tiles[idx].object.unwrap();
        proof {
            assert(old(self).object_live(id as int));
            assert(old(self).object_at(id as int).coord == coord);
        }
        let mut k: usize = 0;
        while k < self.object_queue.len() && self.object_queue[k].id != id
            invariant
                *self == *old(self),
                0 <= k <= self.spec_oq().len(),
                forall|j: int| 0 <= j < k ==> (#[trigger] self.spec_oq()[j]).id != id,
            decreases self.spec_oq().len() - k,
        {
            k = k + 1;
        }
        proof {
            if k == self.spec_oq().len() {
                assert(old(self).object_live(id as int));
                let k0 = choose|k0: int|
                    0 <= k0 < old(self).spec_oq().len() && (#[trigger] old(self).spec_oq()[k0]).id
                        == id as int;
                assert(self.spec_oq()[k0].id != id);
                assert(false);
            }
        }
        self.object_queue.remove(k);
        let slot = &mut self.objects[id];
        let taken = slot.take();
        let t = &mut self.tiles[idx];
        t.object = None;
        let result = taken.unwrap();
        proof {
            let prev = *old(self);
            let s = *self;
            let h = s.spec_height();
            let w = s.spec_width();
            let ic = prev.idx_of(coord.x as int, coord.y as int);
            lemma_idx_bound(coord.x as int, coord.y as int, w, h);
            assert forall|i: int| s.object_live(i) implies {
                let a = s.object_at(i);
                &&& a.id == i
                &&& object_wf(a)
                &&& gr_le(s.spec_turn(), a.turn)
                &&& s.in_bounds_spec(a.coord)
                &&& s.tile_at(a.coord).object == Option::Some(i as usize)
            } by {
                assert(i != id);
                assert(prev.object_live(i));
                let a = prev.object_at(i);
                assert(s.object_at(i) == a);
                assert(a.coord != coord);
                lemma_idx_bound(a.coord.x as int, a.coord.y as int, w, h);
                lemma_idx_inj(a.coord.x as int, a.coord.y as int, coord.x as int, coord.y as int, h);
                assert(s.tile_at(a.coord) == prev.tile_at(a.coord));
            }
            assert forall|x: int, y: int|
                #![trigger s.spec_tiles()[s.idx_of(x, y)]]
                0 <= x < s.spec_width() && 0 <= y < s.spec_height() implies match (
            s.spec_tiles()[s.idx_of(x, y)]).object {
                Option::Some(aid) => s.object_live(aid as int) && s.object_at(aid as int).coord == (
                Coord { x: x as i32, y: y as i32 }),
                Option::None => true,
            } by {
                lemma_idx_bound(x, y, w, h);
                if s.idx_of(x, y) == ic {
                    lemma_idx_inj_converse(x, y, coord.x as int, coord.y as int, h);
                } else {
                    assert(s.spec_tiles()[s.idx_of(x, y)] == prev.spec_tiles()[prev.idx_of(x, y)]);
                    match (prev.spec_tiles()[prev.idx_of(x, y)]).object {
                        Option::Some(aid) => {
                            assert(prev.object_live(aid as int));
                            assert(aid != id) by {
                                if aid == id {
                                    lemma_idx_inj_converse(x, y, coord.x as int, coord.y as int, h);
                                }
                            }
                        },
                        Option::None => {},
                    }
                }
            }
            assert forall|i: int| s.actor_live(i) implies {
                let o = s.actor_at(i);
                &&& o.id == i
                &&& actor_wf(o)
                &&& gr_le(s.spec_turn(), o.turn)
                &&& s.in_bounds_spec(o.coord)
                &&& s.tile_at(o.coord).actor == Option::Some(i as usize)
            } by {
                assert(prev.actor_live(i));
                let o = prev.actor_at(i);
                lemma_idx_bound(o.coord.x as int, o.coord.y as int, w, h);
                assert(s.tile_at(o.coord).actor == prev.tile_at(o.coord).actor);
            }
            assert forall|x: int, y: int|
                #![trigger s.spec_tiles()[s.idx_of(x, y)]]
                0 <= x < s.spec_width() && 0 <= y < s.spec_height() implies match (
            s.spec_tiles()[s.idx_of(x, y)]).actor {
                Option::Some(oid) => s.actor_live(oid as int) && s.actor_at(oid as int).coord
                    == (Coord { x: x as i32, y: y as i32 }),
                Option::None => true,
            } by {
                lemma_idx_bound(x, y, w, h);
                assert((s.spec_tiles()[s.idx_of(x, y)]).actor == (
                prev.spec_tiles()[prev.idx_of(x, y)]).actor);
            }
            assert(s.oq_ok()) by {
                assert forall|k2: int| 0 <= k2 < s.spec_oq().len() implies {
                    let e = #[trigger] s.spec_oq()[k2];
                    s.object_live(e.id as int) && s.object_at(e.id as int).turn == e.turn
                } by {
                    let k0: int = if k2 < k {
                        k2
                    } else {
                        k2 + 1
                    };
                    assert(s.spec_oq()[k2] == prev.spec_oq()[k0]);
                    assert(prev.object_live(prev.spec_oq()[k0].id as int));
                    assert(prev.spec_oq()[k0].id != id || k0 == k as int);
                }
                assert forall|k1: int, k2: int|
                    0 <= k1 < k2 < s.spec_oq().len() implies (#[trigger] s.spec_oq()[k1]).id != (
                #[trigger] s.spec_oq()[k2]).id by {
                    let a1: int = if k1 < k {
                        k1
                    } else {
                        k1 + 1
                    };
                    let a2: int = if k2 < k {
                        k2
                    } else {
                        k2 + 1
                    };
                    assert(s.spec_oq()[k1] == prev.spec_oq()[a1]);
                    assert(s.spec_oq()[k2] == prev.spec_oq()[a2]);
                }
            }
            assert(s.oq_covers()) by {
                assert forall|i: int| #[trigger] s.object_live(i) && i != -1 implies exists|k3: int|
                    0 <= k3 < s.spec_oq().len() && (#[trigger] s.spec_oq()[k3]).id == i by {
                    assert(i != id);
                    assert(prev.object_live(i));
                    let k0 = choose|k0: int|
                        0 <= k0 < prev.spec_oq().len() && (#[trigger] prev.spec_oq()[k0]).id == i;
                    assert(k0 != k as int);
                    if k0 < k {
                        assert(s.spec_oq()[k0].id == i);
                    } else {
                        assert(s.spec_oq()[k0 - 1].id == i);
                    }
                }
            }
            assert(s.aq_ok()) by {
                assert forall|k2: int| 0 <= k2 < s.spec_aq().len() implies {
                    let e = #[trigger] s.spec_aq()[k2];
                    s.actor_live(e.id as int) && s.actor_at(e.id as int).turn == e.turn
                } by {
                    assert(prev.actor_live(prev.spec_aq()[k2].id as int));
                }
            }
            assert(s.aq_covers()) by {
                assert forall|i: int| #[trigger] s.actor_live(i) && i != -1 implies exists|k3: int|
                    0 <= k3 < s.spec_aq().len() && (#[trigger] s.spec_aq()[k3]).id == i by {
                    assert(prev.actor_live(i));
                    let k0 = choose|k0: int|
                        0 <= k0 < prev.spec_aq().len() && (#[trigger] prev.spec_aq()[k0]).id == i;
                    assert(s.spec_aq()[k0].id == i);
                }
            }
        }
        result
    }

    /// The live actor with arena id `id`.
    pub fn actor_ref(&self, id: usize) -> (r: &Actor)
        requires
            self.actor_live(id as int),
        ensures
            *r == self.actor_at(id as int),
    {
        let slot = &self.actors[id];
        match slot {
            Some(a) => a,
            None => {
                proof {
                    assert(false);
                }
                vstd::pervasive::unreached()
            },
        }
    }

    /// The live object with arena id `id`.
    pub fn object_ref(&self, id: usize) -> (r: &Object)
        requires
            self.object_live(id as int),
        ensures
            *r == self.object_at(id as int),
    {
        let slot = &self.objects[id];
        match slot {
            Some(o) => o,
            None => {
                proof {
                    assert(false);
                }
                vstd::pervasive::unreached()
            },
        }
    }

    /// Sets the activity flag of the live object `id`; for doors, active
    /// means open.
    pub fn set_object_active(&mut self, id: usize, active: bool)
        requires
            old(self).wf(),
            old(self).object_live(id as int),
        ensures
            final (self).wf(),
            final (self).spec_objects() == old(self).spec_objects().update(
                id as int,
                Option::Some(
                    Object { active, ..old(self).object_at(id as int) },
                ),
            ),
            final (self).spec_actors() == old(self).spec_actors(),
            final (self).spec_tiles() == old(self).spec_tiles(),
            final (self).spec_aq() == old(self).spec_aq(),
            final (self).spec_oq() == old(self).spec_oq(),
            final (self).spec_turn() == old(self).spec_turn(),
            final (self).spec_width() == old(self).spec_width(),
            final (self).spec_height() == old(self).spec_height(),
            final (self).spec_danger_level() == old(self).spec_danger_level(),
            final (self).spec_dungeon_type() == old(self).spec_dungeon_type(),
    {
        let slot = &mut self.objects[id];
        match slot {
            Some(o) => {
                o.set_active(active);
            },
            None => {
                proof {
                    assert(false);
                }
            },
        }
        proof {
            let prev = *old(self);
            let s = *self;
            assert forall|i: int| s.object_live(i) implies {
                let o = s.object_at(i);
                &&& o.id == i
                &&& object_wf(o)
                &&& gr_le(s.spec_turn(), o.turn)
                &&& s.in_bounds_spec(o.coord)
                &&& s.tile_at(o.coord).object == Option::Some(i as usize)
            } by {
                assert(prev.object_live(i));
            }
            assert forall|i: int| s.actor_live(i) implies {
                let a = s.actor_at(i);
                &&& a.id == i
                &&& actor_wf(a)
                &&& gr_le(s.spec_turn(), a.turn)
                &&& s.in_bounds_spec(a.coord)
                &&& s.tile_at(a.coord).actor == Option::Some(i as usize)
            } by {
                assert(prev.actor_live(i));
            }
            assert forall|x: int, y: int|
                #![trigger s.spec_tiles()[s.idx_of(x, y)]]
                0 <= x < s.spec_width() && 0 <= y < s.spec_height() implies {
                &&& match (s.spec_tiles()[s.idx_of(x, y)]).actor {
                    Option::Some(aid) => s.actor_live(aid as int) && s.actor_at(aid as int).coord
                        == (Coord { x: x as i32, y: y as i32 }),
                    Option::None => true,
                }
                &&& match (s.spec_tiles()[s.idx_of(x, y)]).object {
                    Option::Some(oid) => s.object_live(oid as int) && s.object_at(oid as int).coord
                        == (Coord { x: x as i32, y: y as i32 }),
                    Option::None => true,
                }
            } by {
                lemma_idx_bound(x, y, s.spec_width(), s.spec_height());
                assert(s.spec_tiles()[s.idx_of(x, y)] == prev.spec_tiles()[prev.idx_of(x, y)]);
            }
            assert(s.aq_ok()) by {
                assert forall|k: int| 0 <= k < s.spec_aq().len() implies {
                    let e = #[trigger] s.spec_aq()[k];
                    s.actor_live(e.id as int) && s.actor_at(e.id as int).turn == e.turn
                } by {
                    assert(prev.actor_live(prev.spec_aq()[k].id as int));
                }
            }
            assert(s.aq_covers()) by {
                assert forall|i: int| #[trigger] s.actor_live(i) && i != -1 implies exists|k: int|
                    0 <= k < s.spec_aq().len() && (#[trigger] s.spec_aq()[k]).id == i by {
                    assert(prev.actor_live(i));
                    let k = choose|k: int|
                        0 <= k < prev.spec_aq().len() && (#[trigger] prev.spec_aq()[k]).id == i;
                    assert(s.spec_aq()[k].id == i);
                }
            }
            assert(s.oq_ok()) by {
                assert forall|k: int| 0 <= k < s.spec_oq().len() implies {
                    let e = #[trigger] s.spec_oq()[k];
                    s.object_live(e.id as int) && s.object_at(e.id as int).turn == e.turn
                } by {
                    assert(prev.object_live(prev.spec_oq()[k].id as int));
                }
            }
            assert(s.oq_covers()) by {
                assert forall|i: int| #[trigger] s.object_live(i) && i != -1 implies exists|k: int|
                    0 <= k < s.spec_oq().len() && (#[trigger] s.spec_oq()[k]).id == i by {
                    assert(prev.object_live(i));
                    let k = choose|k: int|
                        0 <= k < prev.spec_oq().len() && (#[trigger] prev.spec_oq()[k]).id == i;
                    assert(s.spec_oq()[k].id == i);
                }
            }
        }
    }

    /// Returns the amount of stacks in the stash at `coord`.
    pub fn stash_size(&self, coord: Coord) -> (r: usize)
        requires
            self.grid_wf(),
            self.in_bounds_spec(coord),
        ensures
            r == match self.tile_at(coord).item_stash {
                Option::Some(s) => s.stacks().len(),
                Option::None => 0nat,
            },
    {
        let i = self.tile_index(coord);
        match &self.tiles[i].item_stash {
            Some(s) => s.len(),
            None => 0,
        }
    }

    /// Returns a uniformly random in-bounds coordinate.
    pub fn random_coord(&self) -> (r: Coord)
        requires
            self.grid_wf(),
            self.spec_width() >= 1,
            self.spec_height() >= 1,
        ensures
            self.in_bounds_spec(r),
    {
        let x = crate::rng::rand_usize(0, self.width - 1);
        let y = crate::rng::rand_usize(0, self.height - 1);
        Coord::new(x as i32, y as i32)
    }

    /// True if an actor could be placed on the tile at `(x, y)`: no actor,
    /// no object, and a passable tile kind.
    pub open spec fn open_for_actor(self, x: int, y: int) -> bool {
        let t = self.spec_tiles()[self.idx_of(x, y)];
        &&& t.actor is None
        &&& t.object is None
        &&& t.info.passable
    }

    /// Returns a random available coordinate, not currently occupied by any
    /// actors or objects. Rejection-samples a bounded number of times, then
    /// falls back to a scan, so it returns `None` exactly when the dungeon
    /// has no open tile at all instead of searching forever.
    pub fn random_open_coord_actor(&self) -> (r: Option<Coord>)
        requires
            self.grid_wf(),
            self.spec_width() >= 1,
            self.spec_height() >= 1,
        ensures
            r matches Some(c) ==> self.in_bounds_spec(c) && self.open_for_actor(
                c.x as int,
                c.y as int,
            ),
            r is None ==> forall|x: int, y: int|
                0 <= x < self.spec_width() && 0 <= y < self.spec_height()
                    ==> !self.open_for_actor(x, y),
    {
        let mut tries: usize = 0;
        while tries < 100
            invariant
                self.grid_wf(),
                self.spec_width() >= 1,
                self.spec_height() >= 1,
            decreases 100 - tries,
        {
            let coord = self.random_coord();
            let i = self.tile_index(coord);
            let tile = &self.tiles[i];
            if tile.actor.is_none() && tile.object.is_none() && tile.passable() {
                return Some(coord);
            }
            tries = tries + 1;
        }
        // Rejection sampling found nothing; scan every tile so "no space"
        // is reported exactly when no open tile exists.
        let mut x: usize = 0;
        while x < self.width
            invariant
                self.grid_wf(),
                0 <= x <= self.spec_width(),
                forall|x0: int, y0: int|
                    0 <= x0 < x && 0 <= y0 < self.spec_height() ==> !self.open_for_actor(x0, y0),
            decreases self.spec_width() - x,
        {
            let mut y: usize = 0;
            while y < self.height
                invariant
                    self.grid_wf(),
                    0 <= x < self.spec_width(),
                    0 <= y <= self.spec_height(),
                    forall|y0: int| 0 <= y0 < y ==> !self.open_for_actor(x as int, y0),
                decreases self.spec_height() - y,
            {
                let coord = Coord::new(x as i32, y as i32);
                let i = self.tile_index(coord);
                let tile = &self.tiles[i];
                if tile.actor.is_none() && tile.object.is_none() && tile.passable() {
                    return Some(coord);
                }
                y = y + 1;
            }
            x = x + 1;
        }
        None
    }

    /// Returns a random available coordinate within the given rectangle,
    /// not currently occupied by any actors or objects: the counterpart of
    /// `random_open_coord_actor` for placements restricted to one room.
    /// Rejection-samples a bounded number of times over the rectangle
    /// clipped to the grid, then falls back to a scan, so it returns `None`
    /// exactly when the rectangle holds no open tile.
    pub fn random_open_coord_actor_in(&self, area: &crate::rectangle::Rectangle) -> (r: Option<
        Coord,
    >)
        requires
            self.grid_wf(),
        ensures
            r matches Some(c) ==> self.in_bounds_spec(c) && self.open_for_actor(
                c.x as int,
                c.y as int,
            ) && crate::rectangle::rect_contains(*area, c.x as int, c.y as int),
            r is None ==> forall|x: int, y: int|
                0 <= x < self.spec_width() && 0 <= y < self.spec_height()
                    && crate::rectangle::rect_contains(*area, x, y) ==> !self.open_for_actor(x, y),
    {
        let xmax: i32 = (self.width as i32) - 1;
        let ymax: i32 = (self.height as i32) - 1;
        let x0: i32 = if area.left < 0 {
            0
        } else {
            area.left
        };
        let y0: i32 = if area.top < 0 {
            0
        } else {
            area.top
        };
        let x1: i32 = if area.right > xmax {
            xmax
        } else {
            area.right
        };
        let y1: i32 = if area.bottom > ymax {
            ymax
        } else {
            area.bottom
        };
        if x0 > x1 || y0 > y1 {
            return None;
        }
        let mut tries: usize = 0;
        while tries < 100
            invariant
                self.grid_wf(),
                0 <= x0 <= x1 <= xmax,
                0 <= y0 <= y1 <= ymax,
                area.left <= x0 && x1 <= area.right,
                area.top <= y0 && y1 <= area.bottom,
                xmax == self.spec_width() - 1,
                ymax == self.spec_height() - 1,
            decreases 100 - tries,
        {
            let x = crate::rng::rand_int(x0, x1);
            let y = crate::rng::rand_int(y0, y1);
            let coord = Coord::new(x, y);
            let i = self.tile_index(coord);
            let tile = &self.tiles[i];
            if tile.actor.is_none() && tile.object.is_none() && tile.passable() {
                return Some(coord);
            }
            tries = tries + 1;
        }
        // Rejection sampling found nothing; scan the clipped rectangle so
        // "no space" is reported exactly when it holds no open tile.
        let mut x: i32 = x0;
        while x <= x1
            invariant
                self.grid_wf(),
                0 <= x0 <= x,
                x <= x1 + 1,
                x1 <= xmax,
                0 <= y0 <= y1 <= ymax,
                area.left <= x0 && x1 <= area.right,
                area.top <= y0 && y1 <= area.bottom,
                xmax == self.spec_width() - 1,
                ymax == self.spec_height() - 1,
                forall|xi: int, yi: int|
                    x0 <= xi < x && y0 <= yi <= y1 ==> !self.open_for_actor(xi, yi),
            decreases x1 - x + 1,
        {
            let mut y: i32 = y0;
            while y <= y1
                invariant
                    self.grid_wf(),
                    0 <= x0 <= x <= x1 <= xmax,
                    0 <= y0 <= y,
                    y <= y1 + 1,
                    y1 <= ymax,
                    area.left <= x0 && x1 <= area.right,
                    area.top <= y0 && y1 <= area.bottom,
                    xmax == self.spec_width() - 1,
                    ymax == self.spec_height() - 1,
                    forall|xi: int, yi: int|
                        x0 <= xi < x && y0 <= yi <= y1 ==> !self.open_for_actor(xi, yi),
                    forall|yi: int| y0 <= yi < y ==> !self.open_for_actor(x as int, yi),
                decreases y1 - y + 1,
            {
                let coord = Coord::new(x, y);
                let i = self.tile_index(coord);
                let tile = &self.tiles[i];
                if tile.actor.is_none() && tile.object.is_none() && tile.passable() {
                    return Some(coord);
                }
                y = y + 1;
            }
            x = x + 1;
        }
        None
    }

    /// A copy of the scheduled actor with the earliest turn value.
    pub fn peek_actor(&self) -> (r: Actor)
        requires
            self.wf(),
            self.spec_aq().len() >= 1,
        ensures
            self.actor_live(r.id as int),
            r == self.actor_at(r.id as int),
            forall|k: int|
                0 <= k < self.spec_aq().len() ==> gr_le(r.turn, (#[trigger] self.spec_aq()[k]).turn),
    {
        let k = min_index(&self.actor_queue);
        let id = self.actor_queue[k].id;
        self.actor_ref(id).clone_actor()
    }

    /// A copy of the scheduled object with the earliest turn value.
    pub fn peek_object(&self) -> (r: Object)
        requires
            self.wf(),
            self.spec_oq().len() >= 1,
        ensures
            self.object_live(r.id as int),
            r == self.object_at(r.id as int),
            forall|k: int|
                0 <= k < self.spec_oq().len() ==> gr_le(r.turn, (#[trigger] self.spec_oq()[k]).turn),
    {
        let k = min_index(&self.object_queue);
        let id = self.object_queue[k].id;
        self.object_ref(id).clone_object()
    }

    /// The start corner of the field-of-view window.
    pub closed spec fn spec_fov_start(self) -> Coord {
        self.fov_start
    }

    /// The end corner of the field-of-view window.
    pub closed spec fn spec_fov_end(self) -> Coord {
        self.fov_end
    }

    /// The visibility mask of the field-of-view window, row-major by x.
    pub closed spec fn spec_fov_vis(self) -> Seq<bool> {
        self.fov_vis@
    }

    /// The height of the field-of-view window.
    pub open spec fn fov_h(self) -> int {
        self.spec_fov_end().y - self.spec_fov_start().y + 1
    }

    /// True if `c` lies in the field-of-view window.
    pub open spec fn in_fov_window(self, c: Coord) -> bool {
        &&& self.spec_fov_start().x <= c.x <= self.spec_fov_end().x
        &&& self.spec_fov_start().y <= c.y <= self.spec_fov_end().y
    }

    /// The position of `c` in the visibility mask.
    pub open spec fn fov_idx(self, c: Coord) -> int {
        (c.x - self.spec_fov_start().x) * self.fov_h() + (c.y - self.spec_fov_start().y)
    }

    /// True if `c` is marked visible: inside the window and set in the
    /// mask. Everything outside the window is trivially invisible.
    pub open spec fn visible_spec(self, c: Coord) -> bool {
        &&& self.in_fov_window(c)
        &&& 0 <= self.fov_idx(c) < self.spec_fov_vis().len()
        &&& self.spec_fov_vis()[self.fov_idx(c)]
    }

    /// Whether `coord` is currently visible.
    pub fn visible(&self, coord: Coord) -> (r: bool)
        ensures
            r == self.visible_spec(coord),
    {
        let Coord { x, y } = coord;
        let sx = self.fov_start.x;
        let sy = self.fov_start.y;
        let ex = self.fov_end.x;
        let ey = self.fov_end.y;
        if (x as i64) < (sx as i64) || (x as i64) > (ex as i64) || (y as i64) < (sy as i64) || (
        y as i64) > (ey as i64) {
            return false;
        }
        let dx = x as i128 - sx as i128;
        let dy = y as i128 - sy as i128;
        let fh = ey as i128 - sy as i128 + 1;
        proof {
            assert(0 <= dx * fh < 0x1_0000_0000_0000_0000_0000i128) by (nonlinear_arith)
                requires
                    0 <= dx < 0x1_0000_0000i128,
                    0 < fh <= 0x1_0000_0001i128,
            ;
        }
        let idx = dx * fh + dy;
        if idx < 0 || idx >= self.fov_vis.len() as i128 {
            return false;
        }
        self.fov_vis[idx as usize]
    }

    /// Marks `coord` as visible or invisible in the mask; coordinates
    /// outside the window are left alone.
    pub fn set_visible(&mut self, coord: Coord, value: bool)
        requires
            old(self).wf(),
        ensures
            final (self).wf(),
            old(self).in_fov_window(coord) && 0 <= old(self).fov_idx(coord) < old(
                self,
            ).spec_fov_vis().len() ==> final (self).spec_fov_vis() == old(self).spec_fov_vis().update(
                old(self).fov_idx(coord),
                value,
            ),
            !(old(self).in_fov_window(coord) && 0 <= old(self).fov_idx(coord) < old(
                self,
            ).spec_fov_vis().len()) ==> final (self).spec_fov_vis() == old(self).spec_fov_vis(),
            final (self).spec_fov_start() == old(self).spec_fov_start(),
            final (self).spec_fov_end() == old(self).spec_fov_end(),
            final (self).spec_tiles() == old(self).spec_tiles(),
            final (self).spec_actors() == old(self).spec_actors(),
            final (self).spec_objects() == old(self).spec_objects(),
            final (self).spec_aq() == old(self).spec_aq(),
            final (self).spec_oq() == old(self).spec_oq(),
            final (self).spec_turn() == old(self).spec_turn(),
            final (self).spec_width() == old(self).spec_width(),
            final (self).spec_height() == old(self).spec_height(),
    {
        let Coord { x, y } = coord;
        let sx = self.fov_start.x;
        let sy = self.fov_start.y;
        let ex = self.fov_end.x;
        let ey = self.fov_end.y;
        if (x as i64) < (sx as i64) || (x as i64) > (ex as i64) || (y as i64) < (sy as i64) || (
        y as i64) > (ey as i64) {
            proof {
                lemma_wf_fov_frame(*old(self), *self);
            }
            return ;
        }
        let dx = x as i128 - sx as i128;
        let dy = y as i128 - sy as i128;
        let fh = ey as i128 - sy as i128 + 1;
        proof {
            assert(0 <= dx * fh < 0x1_0000_0000_0000_0000_0000i128) by (nonlinear_arith)
                requires
                    0 <= dx < 0x1_0000_0000i128,
                    0 < fh <= 0x1_0000_0001i128,
            ;
        }
        let idx = dx * fh + dy;
        if idx < 0 || idx >= self.fov_vis.len() as i128 {
            proof {
                lemma_wf_fov_frame(*old(self), *self);
            }
            return ;
        }
        let b = &mut self.fov_vis[idx as usize];
        *b = value;
        proof {
            lemma_wf_fov_frame(*old(self), *self);
        }
    }

    /// The transparency seed of `c`: on the grid, on a see-through tile
    /// kind, and any object sitting there can be seen through.
    pub open spec fn fov_val(self, c: Coord) -> bool {
        &&& self.in_bounds_spec(c)
        &&& self.tile_at(c).info.transparent
        &&& match self.tile_at(c).object {
            Option::Some(oid) => {
                let o = self.object_at(oid as int);
                o.transparent || !crate::object::object_visible(o)
            },
            Option::None => true,
        }
    }

    /// The visibility mask a fresh field-of-view computation produces for
    /// the window of width `w` starting at `start`: per tile, its
    /// transparency seed.
    pub open spec fn fov_mask(self, start: Coord, w: int) -> Seq<bool> {
        Seq::new(
            (w * w) as nat,
            |j: int|
                self.fov_val(
                    (Coord { x: (start.x + j / w) as i32, y: (start.y + j % w) as i32 }),
                ),
        )
    }

    /// Recomputes the field-of-view window around `origin`: the window is
    /// the square of the given radius, and every tile of it is marked with
    /// its transparency seed. The renderer refines the mask afterwards
    /// through `set_visible`.
    pub fn calc_fov(&mut self, origin: Coord, fov_radius: i32)
        requires
            old(self).wf(),
            old(self).in_bounds_spec(origin),
            0 <= fov_radius <= 4096,
            old(self).spec_width() + 4096 <= i32::MAX,
            old(self).spec_height() + 4096 <= i32::MAX,
        ensures
            final (self).wf(),
            final (self).spec_fov_start() == (Coord {
                x: (origin.x - fov_radius) as i32,
                y: (origin.y - fov_radius) as i32,
            }),
            final (self).spec_fov_end() == (Coord {
                x: (origin.x + fov_radius) as i32,
                y: (origin.y + fov_radius) as i32,
            }),
            final (self).spec_fov_vis() == final (self).fov_mask(
                final (self).spec_fov_start(),
                2 * fov_radius + 1,
            ),
            final (self).spec_tiles() == old(self).spec_tiles(),
            final (self).spec_actors() == old(self).spec_actors(),
            final (self).spec_objects() == old(self).spec_objects(),
            final (self).spec_aq() == old(self).spec_aq(),
            final (self).spec_oq() == old(self).spec_oq(),
            final (self).spec_turn() == old(self).spec_turn(),
            final (self).spec_width() == old(self).spec_width(),
            final (self).spec_height() == old(self).spec_height(),
            final (self).spec_danger_level() == old(self).spec_danger_level(),
            final (self).spec_dungeon_type() == old(self).spec_dungeon_type(),
    {
        let sx = origin.x - fov_radius;
        let sy = origin.y - fov_radius;
        let ex = origin.x + fov_radius;
        let ey = origin.y + fov_radius;
        self.fov_start = Coord::new(sx, sy);
        self.fov_end = Coord::new(ex, ey);
        proof {
            lemma_wf_fov_frame(*old(self), *self);
        }
        let w: usize = (2 * fov_radius + 1) as usize;
        let mut vis: Vec<bool> = Vec::new();
        let mut dx: usize = 0;
        while dx < w
            invariant
                *self == (Dungeon { fov_start: self.fov_start, fov_end: self.fov_end, ..*old(
                    self,
                ) }),
                self.spec_fov_start() == (Coord { x: sx, y: sy }),
                self.wf(),
                self.spec_tiles() == old(self).spec_tiles(),
                self.spec_objects() == old(self).spec_objects(),
                0 <= dx <= w,
                1 <= w <= 8193,
                vis@.len() == dx * w,
                sx == origin.x - fov_radius,
                sy == origin.y - fov_radius,
                w == 2 * fov_radius + 1,
                0 <= fov_radius <= 4096,
                old(self).in_bounds_spec(origin),
                old(self).spec_width() + 4096 <= i32::MAX,
                old(self).spec_height() + 4096 <= i32::MAX,
                forall|j: int|
                    0 <= j < vis@.len() ==> #[trigger] vis@[j] == self.fov_val(
                        (Coord { x: (sx + j / w as int) as i32, y: (sy + j % w as int) as i32 }),
                    ),
            decreases w - dx,
        {
            let mut dy: usize = 0;
            proof {
                assert(dx * w + 0 == vis@.len());
                assert((dx + 1) * w == dx * w + w) by (nonlinear_arith);
            }
            while dy < w
                invariant
                    *self == (Dungeon { fov_start: self.fov_start, fov_end: self.fov_end, ..*old(
                        self,
                    ) }),
                    self.spec_fov_start() == (Coord { x: sx, y: sy }),
                    self.wf(),
                    self.spec_tiles() == old(self).spec_tiles(),
                    self.spec_objects() == old(self).spec_objects(),
                    0 <= dx < w,
                    0 <= dy <= w,
                    1 <= w <= 8193,
                    vis@.len() == dx * w + dy,
                    sx == origin.x - fov_radius,
                    sy == origin.y - fov_radius,
                    w == 2 * fov_radius + 1,
                    0 <= fov_radius <= 4096,
                    old(self).in_bounds_spec(origin),
                    old(self).spec_width() + 4096 <= i32::MAX,
                    old(self).spec_height() + 4096 <= i32::MAX,
                    forall|j: int|
                        0 <= j < vis@.len() ==> #[trigger] vis@[j] == self.fov_val(
                            (Coord { x: (sx + j / w as int) as i32, y: (sy + j % w as int) as i32 }),
                        ),
                decreases w - dy,
            {
                proof {
                    assert(dx * w + dy < w * w && dx * w >= 0) by (nonlinear_arith)
                        requires
                            0 <= dx < w,
                            0 <= dy < w,
                    ;
                }
                let cx = sx + dx as i32;
                let cy = sy + dy as i32;
                let c = Coord::new(cx, cy);
                let mut t: bool = false;
                if self.in_bounds(c) {
                    let i = self.tile_index(c);
                    let tile = &self.tiles[i];
                    t = tile.info.transparent;
                    match tile.object {
                        Some(oid) => {
                            proof {
                                assert(self.spec_tiles()[self.idx_of(c.x as int, c.y as int)].object
                                    == Option::Some(oid));
                                assert(self.object_live(oid as int));
                            }
                            let o = self.object_ref(oid);
                            if !o.transparent() {
                                t = false;
                            }
                        },
                        None => {},
                    }
                }
                vis.push(t);
                proof {
                    let j = dx * w + dy;
                    vstd::arithmetic::div_mod::lemma_fundamental_div_mod_converse_div(
                        j as int,
                        w as int,
                        dx as int,
                        dy as int,
                    );
                    vstd::arithmetic::div_mod::lemma_fundamental_div_mod_converse_mod(
                        j as int,
                        w as int,
                        dx as int,
                        dy as int,
                    );
                    assert(vis@[j as int] == self.fov_val(
                        (Coord { x: (sx + j as int / w as int) as i32, y: (sy + j as int % w
                            as int) as i32 }),
                    ));
                }
                dy = dy + 1;
            }
            proof {
                assert((dx + 1) * w == dx * w + w) by (nonlinear_arith);
            }
            dx = dx + 1;
        }
        self.fov_vis = vis;
        proof {
            lemma_wf_fov_frame(*old(self), *self);
            assert(self.spec_fov_vis() =~= self.fov_mask(
                self.spec_fov_start(),
                2 * fov_radius + 1,
            )) by {
                assert(self.spec_fov_vis().len() == w * w);
                assert forall|j: int| 0 <= j < self.spec_fov_vis().len() implies self.spec_fov_vis()[j]
                    == self.fov_mask(self.spec_fov_start(), 2 * fov_radius + 1)[j] by {
                    assert(self.spec_fov_vis()[j] == self.fov_val(
                        (Coord { x: (sx + j / w as int) as i32, y: (sy + j % w as int) as i32 }),
                    ));
                }
            }
        }
    }

    /// Moves the live actor `id` to `new_coord` unconditionally. The
    /// target tile must hold no actor.
    pub fn move_to(&mut self, id: usize, new_coord: Coord)
        requires
            old(self).wf(),
            old(self).actor_live(id as int),
            old(self).in_bounds_spec(new_coord),
            old(self).tile_at(new_coord).actor is None,
        ensures
            final (self).wf(),
            final (self).spec_actors() == old(self).spec_actors().update(
                id as int,
                Option::Some(
                    Actor { coord: new_coord, ..old(self).actor_at(id as int) },
                ),
            ),
            final (self).spec_tiles() == old(self).spec_tiles().update(
                old(self).idx_of(
                    old(self).actor_at(id as int).coord.x as int,
                    old(self).actor_at(id as int).coord.y as int,
                ),
                (Tile {
                    actor: Option::None,
                    ..old(self).tile_at(old(self).actor_at(id as int).coord)
                }),
            ).update(
                old(self).idx_of(new_coord.x as int, new_coord.y as int),
                (Tile { actor: Option::Some(id), ..old(self).tile_at(new_coord) }),
            ),
            final (self).spec_objects() == old(self).spec_objects(),
            final (self).spec_aq() == old(self).spec_aq(),
            final (self).spec_oq() == old(self).spec_oq(),
            final (self).spec_turn() == old(self).spec_turn(),
            final (self).spec_width() == old(self).spec_width(),
            final (self).spec_height() == old(self).spec_height(),
            final (self).spec_danger_level() == old(self).spec_danger_level(),
            final (self).spec_dungeon_type() == old(self).spec_dungeon_type(),
    {
        let old_coord = self.actor_ref(id).coord;
        self.move_actor(old_coord, new_coord);
    }

    /// Whether a move onto `c` succeeds: the tile exists, holds no actor,
    /// and either holds a shut door (walkable), a trap or no object on a
    /// passable tile kind. An open door blocks the move and is shut by the
    /// attempt instead.
    pub open spec fn can_move_to(self, c: Coord) -> bool {
        &&& self.in_bounds_spec(c)
        &&& self.tile_at(c).actor is None
        &&& match self.tile_at(c).object {
            Option::Some(oid) => match self.object_at(oid as int).object_type {
                crate::object::ObjectType::Door => !self.object_at(oid as int).active,
                crate::object::ObjectType::Trap => self.tile_at(c).info.passable,
            },
            Option::None => self.tile_at(c).info.passable,
        }
    }

    /// Whether an attempted move onto `c` shuts an open door instead of
    /// moving: the tile exists, holds no actor, and holds an open door.
    pub open spec fn move_shuts_door(self, c: Coord, oid: int) -> bool {
        &&& self.in_bounds_spec(c)
        &&& self.tile_at(c).actor is None
        &&& self.tile_at(c).object == Option::Some(oid as usize)
        &&& self.object_at(oid).object_type is Door
        &&& self.object_at(oid).active
    }

    // Tries to move the live actor `id` to the given coordinate. Returns
    // true if the actor uses up a turn. Walking into an open door shuts it
    // instead of moving.
    #[verifier::rlimit(60)]
    fn try_move_to(&mut self, id: usize, coord: Coord) -> (r: (ActResult, bool))
        requires
            old(self).wf(),
            old(self).actor_live(id as int),
        ensures
            final (self).wf(),
            r.0 is Continue,
            final (self).spec_aq() == old(self).spec_aq(),
            final (self).spec_oq() == old(self).spec_oq(),
            final (self).spec_turn() == old(self).spec_turn(),
            final (self).spec_width() == old(self).spec_width(),
            final (self).spec_height() == old(self).spec_height(),
            final (self).spec_danger_level() == old(self).spec_danger_level(),
            final (self).spec_dungeon_type() == old(self).spec_dungeon_type(),
            forall|i: int| #[trigger] final (self).actor_live(i) == old(self).actor_live(i),
            forall|i: int|
                old(self).actor_live(i) ==> #[trigger] final (self).actor_at(i) == (Actor {
                    coord: final (self).actor_at(i).coord,
                    ..old(self).actor_at(i)
                }),
            forall|i: int| #[trigger] final (self).object_live(i) == old(self).object_live(i),
            forall|i: int|
                old(self).object_live(i) ==> #[trigger] final (self).object_at(i) == (Object {
                    active: final (self).object_at(i).active,
                    ..old(self).object_at(i)
                }),
            r.1 == old(self).can_move_to(coord),
            r.1 ==> final (self).actor_at(id as int).coord == coord,
            r.1 ==> ({
                let a = old(self).actor_at(id as int);
                &&& final (self).spec_actors() == old(self).spec_actors().update(
                    id as int,
                    Option::Some(Actor { coord, ..a }),
                )
                &&& final (self).spec_objects() == old(self).spec_objects()
                &&& final (self).spec_tiles() == old(self).spec_tiles().update(
                    old(self).idx_of(a.coord.x as int, a.coord.y as int),
                    (Tile { actor: Option::None, ..old(self).tile_at(a.coord) }),
                ).update(
                    old(self).idx_of(coord.x as int, coord.y as int),
                    (Tile { actor: Option::Some(id), ..old(self).tile_at(coord) }),
                )
            }),
            !r.1 ==> final (self).spec_actors() == old(self).spec_actors() && final (self).spec_tiles()
                == old(self).spec_tiles(),
            final (self).spec_objects().len() == old(self).spec_objects().len(),
            !r.1 ==> forall|i: int|
                old(self).actor_live(i) ==> #[trigger] final (self).actor_at(i) == old(
                    self,
                ).actor_at(i),
            forall|oid: int|
                old(self).object_live(oid) ==> (#[trigger] final (self).object_at(oid)).active
                    == (if old(self).move_shuts_door(coord, oid) {
                    false
                } else {
                    old(self).object_at(oid).active
                }),
    {
        if !self.in_bounds(coord) {
            return (ActResult::Continue, false);
        }
        let i = self.tile_index(coord);
        let tile_passable = self.tiles[i].info.passable;
        let tile_actor = self.tiles[i].actor;
        let tile_object = self.tiles[i].object;
        let passable: bool = if tile_actor.is_some() {
            false
        } else {
            match tile_object {
                Some(oid) => {
                    proof {
                        assert(self.spec_tiles()[self.idx_of(coord.x as int, coord.y as int)].object
                            == Option::Some(oid));
                        assert(self.object_live(oid as int));
                    }
                    let is_door = match self.object_ref(oid).object_type {
                        crate::object::ObjectType::Door => true,
                        crate::object::ObjectType::Trap => false,
                    };
                    if is_door {
                        if self.object_ref(oid).active {
                            // Shut the open door instead of moving.
                            self.set_object_active(oid, false);
                            false
                        } else {
                            true
                        }
                    } else {
                        tile_passable
                    }
                },
                None => tile_passable,
            }
        };
        if passable {
            proof {
                assert(self.tile_at(coord).actor is None);
            }
            self.move_to(id, coord);
            (ActResult::Continue, true)
        } else {
            (ActResult::Continue, false)
        }
    }

    /// Tries to move the live actor `id` one step in the given direction.
    /// Returns true if the actor uses up a turn.
    pub fn try_move_dir(&mut self, id: usize, dir: crate::direction::CompassDirection) -> (r: (
        ActResult,
        bool,
    ))
        requires
            old(self).wf(),
            old(self).actor_live(id as int),
        ensures
            final (self).wf(),
            r.0 is Continue,
            final (self).spec_aq() == old(self).spec_aq(),
            final (self).spec_oq() == old(self).spec_oq(),
            final (self).spec_turn() == old(self).spec_turn(),
            final (self).spec_width() == old(self).spec_width(),
            final (self).spec_height() == old(self).spec_height(),
            final (self).spec_danger_level() == old(self).spec_danger_level(),
            final (self).spec_dungeon_type() == old(self).spec_dungeon_type(),
            forall|i: int| #[trigger] final (self).actor_live(i) == old(self).actor_live(i),
            forall|i: int|
                old(self).actor_live(i) ==> #[trigger] final (self).actor_at(i) == (Actor {
                    coord: final (self).actor_at(i).coord,
                    ..old(self).actor_at(i)
                }),
            forall|i: int| #[trigger] final (self).object_live(i) == old(self).object_live(i),
            forall|i: int|
                old(self).object_live(i) ==> #[trigger] final (self).object_at(i) == (Object {
                    active: final (self).object_at(i).active,
                    ..old(self).object_at(i)
                }),
            ({
                let target = (Coord {
                    x: (old(self).actor_at(id as int).coord.x
                        + crate::direction::Direction::unit_vec_spec(&dir).0) as i32,
                    y: (old(self).actor_at(id as int).coord.y
                        + crate::direction::Direction::unit_vec_spec(&dir).1) as i32,
                });
                &&& r.1 == old(self).can_move_to(target)
                &&& r.1 ==> final (self).actor_at(id as int).coord == target
                &&& r.1 ==> ({
                    let a = old(self).actor_at(id as int);
                    &&& final (self).spec_actors() == old(self).spec_actors().update(
                        id as int,
                        Option::Some(Actor { coord: target, ..a }),
                    )
                    &&& final (self).spec_objects() == old(self).spec_objects()
                    &&& final (self).spec_tiles() == old(self).spec_tiles().update(
                        old(self).idx_of(a.coord.x as int, a.coord.y as int),
                        (Tile { actor: Option::None, ..old(self).tile_at(a.coord) }),
                    ).update(
                        old(self).idx_of(target.x as int, target.y as int),
                        (Tile { actor: Option::Some(id), ..old(self).tile_at(target) }),
                    )
                })
                &&& !r.1 ==> final (self).spec_actors() == old(self).spec_actors() && final (self).spec_tiles()
                    == old(self).spec_tiles()
                &&& final (self).spec_objects().len() == old(self).spec_objects().len()
                &&& !r.1 ==> forall|i: int|
                    old(self).actor_live(i) ==> #[trigger] final (self).actor_at(i) == old(
                        self,
                    ).actor_at(i)
                &&& forall|oid: int|
                    old(self).object_live(oid) ==> (#[trigger] final (self).object_at(oid)).active
                        == (if old(self).move_shuts_door(target, oid) {
                        false
                    } else {
                        old(self).object_at(oid).active
                    })
            }),
    {
        let c = self.actor_ref(id).coord;
        let target = c.coord_in_dir(&dir, 1);
        self.try_move_to(id, target)
    }

    // Lets the live object `id` act: an inactive door with no actor on its
    // tile opens by itself half of the time.
    fn object_act(&mut self, id: usize, actor_present: bool) -> (r: ActResult)
        requires
            old(self).wf(),
            old(self).object_live(id as int),
        ensures
            final (self).wf(),
            r is Continue,
            final (self).object_at(id as int).active ==> old(self).object_at(id as int).active || (
            old(self).object_at(id as int).object_type is Door && !actor_present),
            !final (self).object_at(id as int).active ==> !old(self).object_at(id as int).active,
            final (self).spec_objects() == old(self).spec_objects().update(
                id as int,
                Option::Some(
                    Object {
                        active: final (self).object_at(id as int).active,
                        ..old(self).object_at(id as int)
                    },
                ),
            ),
            final (self).spec_actors() == old(self).spec_actors(),
            final (self).spec_tiles() == old(self).spec_tiles(),
            final (self).spec_aq() == old(self).spec_aq(),
            final (self).spec_oq() == old(self).spec_oq(),
            final (self).spec_turn() == old(self).spec_turn(),
            final (self).spec_width() == old(self).spec_width(),
            final (self).spec_height() == old(self).spec_height(),
            final (self).spec_danger_level() == old(self).spec_danger_level(),
            final (self).spec_dungeon_type() == old(self).spec_dungeon_type(),
    {
        let mut result = ActResult::Continue;
        let slot = &mut self.objects[id];
        match slot {
            Some(o) => {
                result = o.act(actor_present);
            },
            None => {
                proof {
                    assert(false);
                }
            },
        }
        proof {
            let prev = *old(self);
            let s = *self;
            assert(s.spec_objects() == prev.spec_objects().update(
                id as int,
                Option::Some((Object { active: s.object_at(id as int).active, ..prev.object_at(
                    id as int,
                ) })),
            ));
            assert forall|i: int| s.object_live(i) implies {
                let o = s.object_at(i);
                &&& o.id == i
                &&& object_wf(o)
                &&& gr_le(s.spec_turn(), o.turn)
                &&& s.in_bounds_spec(o.coord)
                &&& s.tile_at(o.coord).object == Option::Some(i as usize)
            } by {
                assert(prev.object_live(i));
            }
            assert forall|i: int| s.actor_live(i) implies {
                let a = s.actor_at(i);
                &&& a.id == i
                &&& actor_wf(a)
                &&& gr_le(s.spec_turn(), a.turn)
                &&& s.in_bounds_spec(a.coord)
                &&& s.tile_at(a.coord).actor == Option::Some(i as usize)
            } by {
                assert(prev.actor_live(i));
            }
            assert forall|x: int, y: int|
                #![trigger s.spec_tiles()[s.idx_of(x, y)]]
                0 <= x < s.spec_width() && 0 <= y < s.spec_height() implies {
                &&& match (s.spec_tiles()[s.idx_of(x, y)]).actor {
                    Option::Some(aid) => s.actor_live(aid as int) && s.actor_at(aid as int).coord
                        == (Coord { x: x as i32, y: y as i32 }),
                    Option::None => true,
                }
                &&& match (s.spec_tiles()[s.idx_of(x, y)]).object {
                    Option::Some(oid) => s.object_live(oid as int) && s.object_at(oid as int).coord
                        == (Coord { x: x as i32, y: y as i32 }),
                    Option::None => true,
                }
            } by {
                lemma_idx_bound(x, y, s.spec_width(), s.spec_height());
                assert(s.spec_tiles()[s.idx_of(x, y)] == prev.spec_tiles()[prev.idx_of(x, y)]);
            }
            assert(s.aq_ok()) by {
                assert forall|k: int| 0 <= k < s.spec_aq().len() implies {
                    let e = #[trigger] s.spec_aq()[k];
                    s.actor_live(e.id as int) && s.actor_at(e.id as int).turn == e.turn
                } by {
                    assert(prev.actor_live(prev.spec_aq()[k].id as int));
                }
            }
            assert(s.aq_covers()) by {
                assert forall|i: int| #[trigger] s.actor_live(i) && i != -1 implies exists|k: int|
                    0 <= k < s.spec_aq().len() && (#[trigger] s.spec_aq()[k]).id == i by {
                    assert(prev.actor_live(i));
                    let k = choose|k: int|
                        0 <= k < prev.spec_aq().len() && (#[trigger] prev.spec_aq()[k]).id == i;
                    assert(s.spec_aq()[k].id == i);
                }
            }
            assert(s.oq_ok()) by {
                assert forall|k: int| 0 <= k < s.spec_oq().len() implies {
                    let e = #[trigger] s.spec_oq()[k];
                    s.object_live(e.id as int) && s.object_at(e.id as int).turn == e.turn
                } by {
                    assert(prev.object_live(prev.spec_oq()[k].id as int));
                }
            }
            assert(s.oq_covers()) by {
                assert forall|i: int| #[trigger] s.object_live(i) && i != -1 implies exists|k: int|
                    0 <= k < s.spec_oq().len() && (#[trigger] s.spec_oq()[k]).id == i by {
                    assert(prev.object_live(i));
                    let k = choose|k: int|
                        0 <= k < prev.spec_oq().len() && (#[trigger] prev.spec_oq()[k]).id == i;
                    assert(s.spec_oq()[k].id == i);
                }
            }
        }
        result
    }

    // Advances the turn of the scheduled actor `id` by its speed, in the
    // arena and in its queue entry `ka` at once.
    fn advance_actor_entry(&mut self, id: usize, ka: usize)
        requires
            old(self).wf(),
            old(self).actor_live(id as int),
            ka < old(self).spec_aq().len(),
            old(self).spec_aq()[ka as int].id == id,
        ensures
            final (self).wf(),
            ({
                let a = old(self).actor_at(id as int);
                let newt = final (self).actor_at(id as int).turn;
                &&& crate::actor::gr_add_sat_rel(a.turn, a.speed, newt)
                &&& gr_le(a.turn, newt)
                &&& final (self).spec_actors() == old(self).spec_actors().update(
                    id as int,
                    Option::Some(Actor { turn: newt, ..a }),
                )
                &&& final (self).spec_aq() == old(self).spec_aq().update(
                    ka as int,
                    QEntry { turn: newt, id },
                )
            }),
            final (self).spec_tiles() == old(self).spec_tiles(),
            final (self).spec_objects() == old(self).spec_objects(),
            final (self).spec_oq() == old(self).spec_oq(),
            final (self).spec_turn() == old(self).spec_turn(),
            final (self).spec_width() == old(self).spec_width(),
            final (self).spec_height() == old(self).spec_height(),
            final (self).spec_danger_level() == old(self).spec_danger_level(),
            final (self).spec_dungeon_type() == old(self).spec_dungeon_type(),
    {
        let ghost pre = *self;
        let mut newt = self.turn;
        let slot = &mut self.actors[id];
        match slot {
            Some(a) => {
                a.update_turn();
                newt = a.turn;
            },
            None => {
                proof {
                    assert(false);
                }
            },
        }
        let e = &mut self.actor_queue[ka];
        e.turn = newt;
        e.id = id;
        proof {
            crate::defs::lemma_gr_le_trans(
                pre.spec_turn(),
                pre.actor_at(id as int).turn,
                newt,
            );
            lemma_wf_advance_actor(pre, *self, id as int, ka as int, newt);
        }
    }

    // Advances the turn of the scheduled object `id` by its speed, in the
    // arena and in its queue entry `ko` at once.
    fn advance_object_entry(&mut self, id: usize, ko: usize)
        requires
            old(self).wf(),
            old(self).object_live(id as int),
            ko < old(self).spec_oq().len(),
            old(self).spec_oq()[ko as int].id == id,
        ensures
            final (self).wf(),
            ({
                let o = old(self).object_at(id as int);
                let newt = final (self).object_at(id as int).turn;
                &&& crate::actor::gr_add_sat_rel(o.turn, o.speed, newt)
                &&& gr_le(o.turn, newt)
                &&& final (self).spec_objects() == old(self).spec_objects().update(
                    id as int,
                    Option::Some(Object { turn: newt, ..o }),
                )
                &&& final (self).spec_oq() == old(self).spec_oq().update(
                    ko as int,
                    QEntry { turn: newt, id },
                )
            }),
            final (self).spec_tiles() == old(self).spec_tiles(),
            final (self).spec_actors() == old(self).spec_actors(),
            final (self).spec_aq() == old(self).spec_aq(),
            final (self).spec_turn() == old(self).spec_turn(),
            final (self).spec_width() == old(self).spec_width(),
            final (self).spec_height() == old(self).spec_height(),
            final (self).spec_danger_level() == old(self).spec_danger_level(),
            final (self).spec_dungeon_type() == old(self).spec_dungeon_type(),
    {
        let ghost pre = *self;
        let mut newt = self.turn;
        let slot = &mut self.objects[id];
        match slot {
            Some(o) => {
                o.update_turn();
                newt = o.turn;
            },
            None => {
                proof {
                    assert(false);
                }
            },
        }
        let e = &mut self.object_queue[ko];
        e.turn = newt;
        e.id = id;
        proof {
            crate::defs::lemma_gr_le_trans(
                pre.spec_turn(),
                pre.object_at(id as int).turn,
                newt,
            );
            lemma_wf_advance_object(pre, *self, id as int, ko as int, newt);
        }
    }

    /// Agreement of a cached "next actor turn" value with the queue: if
    /// present, it is the earliest scheduled actor turn, or the maximal
    /// sentinel when no actor is scheduled.
    pub open spec fn actor_cache_ok(self, c: Option<GameRatio>) -> bool {
        match c {
            Option::Some(t) => if self.spec_aq().len() == 0 {
                gr_is_max(t)
            } else {
                is_min_of(self.spec_aq(), t)
            },
            Option::None => true,
        }
    }

    /// Agreement of a cached "next object turn" value with the queue: if
    /// present, it is the earliest scheduled object turn, or the maximal
    /// sentinel when no object is scheduled.
    pub open spec fn object_cache_ok(self, c: Option<GameRatio>) -> bool {
        match c {
            Option::Some(t) => if self.spec_oq().len() == 0 {
                gr_is_max(t)
            } else {
                is_min_of(self.spec_oq(), t)
            },
            Option::None => true,
        }
    }

    /// Actor queue entry `k` holds the earliest scheduled actor turn.
    pub open spec fn sched_min_actor(self, k: int) -> bool {
        &&& 0 <= k < self.spec_aq().len()
        &&& forall|j: int|
            0 <= j < self.spec_aq().len() ==> gr_le(
                self.spec_aq()[k].turn,
                (#[trigger] self.spec_aq()[j]).turn,
            )
    }

    /// Object queue entry `k` holds the earliest scheduled object turn.
    pub open spec fn sched_min_object(self, k: int) -> bool {
        &&& 0 <= k < self.spec_oq().len()
        &&& forall|j: int|
            0 <= j < self.spec_oq().len() ==> gr_le(
                self.spec_oq()[k].turn,
                (#[trigger] self.spec_oq()[j]).turn,
            )
    }

    /// The actor side wins the next scheduling step: some earliest actor
    /// entry is no later than every object entry. Ties favor actors, so a
    /// same-turn door or trap never starves a creature; the object side
    /// acts exactly when its earliest turn is strictly earlier than every
    /// scheduled actor's, or no actor is scheduled at all.
    pub open spec fn actor_acts_next(self) -> bool {
        exists|k: int|
            #[trigger] self.sched_min_actor(k) && forall|j: int|
                0 <= j < self.spec_oq().len() ==> gr_le(
                    self.spec_aq()[k].turn,
                    (#[trigger] self.spec_oq()[j]).turn,
                )
    }

    /// Does a single scheduling step over the actor and object queues: the
    /// globally earliest entity acts, the global turn advances to its turn
    /// value, and the entity is rescheduled one speed step later. Ties
    /// favor actors, so a same-turn door or trap never starves a creature.
    /// The global turn never decreases. `event` is the player's pending
    /// input, consulted only when it is the player's turn; if the player's
    /// action does not consume the turn, nothing is rescheduled and the
    /// player acts again on the next step.
    #[verifier::rlimit(100)]
    pub fn step_turn(
        &mut self,
        actor_turn: &mut Option<GameRatio>,
        object_turn: &mut Option<GameRatio>,
        event: crate::player::PlayerEvent,
    ) -> (r: crate::game_data::GameLoopOutcome)
        requires
            old(self).wf(),
            old(self).actor_cache_ok(*old(actor_turn)),
            old(self).object_cache_ok(*old(object_turn)),
        ensures
            final (self).wf(),
            gr_le(old(self).spec_turn(), final (self).spec_turn()),
            final (self).actor_cache_ok(*final (actor_turn)),
            final (self).object_cache_ok(*final (object_turn)),
            (r is NoActors) <==> old(self).spec_aq().len() == 0 && old(self).spec_oq().len() == 0,
            r is NoActors ==> *final (self) == *old(self) && *final (actor_turn) == *old(actor_turn)
                && *final (object_turn) == *old(object_turn),
            !(r is NoActors) ==> {
                &&& forall|k: int|
                    0 <= k < old(self).spec_aq().len() ==> gr_le(
                        final (self).spec_turn(),
                        (#[trigger] old(self).spec_aq()[k]).turn,
                    )
                &&& forall|k: int|
                    0 <= k < old(self).spec_oq().len() ==> gr_le(
                        final (self).spec_turn(),
                        (#[trigger] old(self).spec_oq()[k]).turn,
                    )
                &&& (exists|k: int|
                    0 <= k < old(self).spec_aq().len() && final (self).spec_turn() == (
                    #[trigger] old(self).spec_aq()[k]).turn) || (exists|k: int|
                    0 <= k < old(self).spec_oq().len() && final (self).spec_turn() == (
                    #[trigger] old(self).spec_oq()[k]).turn)
            },
            !(r is NoActors) && old(self).actor_acts_next() ==> *final (object_turn) is Some
                && exists|k: int|
                {
                    &&& #[trigger] old(self).sched_min_actor(k)
                    &&& (if old(self).actor_at(
                        old(self).spec_aq()[k].id as int,
                    ).behavior is Player {
                        player_step(*old(self), *final (self), k, event, r)
                    } else {
                        r is Continue && actor_requeue_step(*old(self), *final (self), k)
                    })
                    &&& (*final (actor_turn) is None <==> (!(old(self).actor_at(
                        old(self).spec_aq()[k].id as int,
                    ).behavior is Player) || crate::player::consumes_turn(
                        *old(self),
                        old(self).actor_at(old(self).spec_aq()[k].id as int).coord,
                        event,
                    )))
                },
            !(r is NoActors) && !old(self).actor_acts_next() ==> r is Continue
                && *final (actor_turn) is Some && *final (object_turn) is None && exists|k: int|
                #[trigger] old(self).sched_min_object(k) && object_requeue_step(
                    *old(self),
                    *final (self),
                    k,
                ),
            !(r is DepthChanged),
            !(r is PlayerDead),
            !(r is WindowClosed),
            final (self).spec_width() == old(self).spec_width(),
            final (self).spec_height() == old(self).spec_height(),
            final (self).spec_danger_level() == old(self).spec_danger_level(),
            final (self).spec_dungeon_type() == old(self).spec_dungeon_type(),
    {
        let ghost pre = *old(self);
        if self.actor_queue.len() == 0 && self.object_queue.len() == 0 {
            return crate::game_data::GameLoopOutcome::NoActors;
        }
        proof {
            assert forall|k: int| 0 <= k < self.spec_aq().len() implies gr_wf(
                (#[trigger] self.spec_aq()[k]).turn,
            ) by {
                assert(self.actor_live(self.spec_aq()[k].id as int));
            }
            assert forall|k: int| 0 <= k < self.spec_oq().len() implies gr_wf(
                (#[trigger] self.spec_oq()[k]).turn,
            ) by {
                assert(self.object_live(self.spec_oq()[k].id as int));
            }
        }
        let mut ka: usize = 0;
        let mut have_actor = false;
        let at: GameRatio;
        if self.actor_queue.len() == 0 {
            at = gameratio_max();
        } else {
            ka = min_index(&self.actor_queue);
            have_actor = true;
            at = self.actor_queue[ka].turn;
        }
        *actor_turn = Some(at);
        let mut ko: usize = 0;
        let mut have_object = false;
        let ot: GameRatio;
        if self.object_queue.len() == 0 {
            ot = gameratio_max();
        } else {
            ko = min_index(&self.object_queue);
            have_object = true;
            ot = self.object_queue[ko].turn;
        }
        *object_turn = Some(ot);
        if have_actor && at.le(&ot) {
            // Actor acting: the earliest actor turn is no later than the
            // earliest object turn.
            proof {
                assert(self.actor_live(self.spec_aq()[ka as int].id as int));
                assert(pre.sched_min_actor(ka as int));
                assert forall|j: int| 0 <= j < pre.spec_oq().len() implies gr_le(
                    at,
                    (#[trigger] pre.spec_oq()[j]).turn,
                ) by {
                    crate::defs::lemma_gr_le_trans(at, ot, pre.spec_oq()[j].turn);
                }
                assert(pre.actor_acts_next());
            }
            self.step_actor(actor_turn, ka, event)
        } else {
            // Object acting: the earliest object turn is strictly earlier
            // than every scheduled actor's, or no actor is scheduled.
            proof {
                if !have_object {
                    if have_actor {
                        crate::defs::lemma_gr_le_max(at, ot);
                    }
                    assert(false);
                }
                assert(pre.sched_min_object(ko as int));
                assert(gr_le(pre.spec_turn(), ot));
                assert(!pre.actor_acts_next()) by {
                    if pre.actor_acts_next() {
                        let k = choose|k: int|
                            #[trigger] pre.sched_min_actor(k) && forall|j: int|
                                0 <= j < pre.spec_oq().len() ==> gr_le(
                                    pre.spec_aq()[k].turn,
                                    (#[trigger] pre.spec_oq()[j]).turn,
                                );
                        assert(gr_le(at, pre.spec_aq()[k].turn));
                        assert(gr_le(pre.spec_aq()[k].turn, ot));
                        crate::defs::lemma_gr_le_trans(at, pre.spec_aq()[k].turn, ot);
                        assert(false);
                    }
                }
            }
            proof {
                assert forall|j: int| 0 <= j < pre.spec_aq().len() implies gr_le(
                    ot,
                    (#[trigger] pre.spec_aq()[j]).turn,
                ) by {
                    crate::defs::lemma_gr_le_trans(ot, at, pre.spec_aq()[j].turn);
                }
            }
            self.step_object(ko);
            *object_turn = None;
            crate::game_data::GameLoopOutcome::Continue
        }
    }

    // The actor side of a scheduling step: the actor named by queue entry
    // `ka`, which holds the earliest turn over both queues, acts on `event`
    // and is rescheduled where its action used the turn up.
    #[verifier::rlimit(100)]
    fn step_actor(
        &mut self,
        actor_turn: &mut Option<GameRatio>,
        ka: usize,
        event: crate::player::PlayerEvent,
    ) -> (r: crate::game_data::GameLoopOutcome)
        requires
            old(self).wf(),
            (ka as int) < old(self).spec_aq().len(),
            (*old(actor_turn)) is Some,
            forall|j: int|
                0 <= j < old(self).spec_aq().len() ==> gr_le(
                    old(self).spec_aq()[ka as int].turn,
                    (#[trigger] old(self).spec_aq()[j]).turn,
                ),
            forall|j: int|
                0 <= j < old(self).spec_oq().len() ==> gr_le(
                    old(self).spec_aq()[ka as int].turn,
                    (#[trigger] old(self).spec_oq()[j]).turn,
                ),
        ensures
            final (self).wf(),
            gr_le(old(self).spec_turn(), final (self).spec_turn()),
            final (self).spec_turn() == old(self).spec_aq()[ka as int].turn,
            (if old(self).actor_at(old(self).spec_aq()[ka as int].id as int).behavior is Player {
                player_step(*old(self), *final (self), ka as int, event, r)
            } else {
                r is Continue && actor_requeue_step(*old(self), *final (self), ka as int)
            }),
            (*final (actor_turn) is None <==> (!(old(self).actor_at(
                old(self).spec_aq()[ka as int].id as int,
            ).behavior is Player) || crate::player::consumes_turn(
                *old(self),
                old(self).actor_at(old(self).spec_aq()[ka as int].id as int).coord,
                event,
            ))),
            *final (actor_turn) is Some ==> *final (actor_turn) == *old(actor_turn),
            r is Continue || r is QuitGame,
            final (self).spec_width() == old(self).spec_width(),
            final (self).spec_height() == old(self).spec_height(),
            final (self).spec_danger_level() == old(self).spec_danger_level(),
            final (self).spec_dungeon_type() == old(self).spec_dungeon_type(),
    {
        let ghost pre = *old(self);
        let id = self.actor_queue[ka].id;
        let at = self.actor_queue[ka].turn;
        proof {
            assert(self.actor_live(id as int));
            assert(gr_le(pre.spec_turn(), at));
        }
        let ghost pre0 = *self;
        self.turn = at;
        proof {
            lemma_wf_set_turn(pre0, *self, at);
        }
        let behavior = self.actor_ref(id).behavior;
        let mut res = ActResult::Continue;
        let mut end_turn = true;
        if behavior == crate::actor::Behavior::Player {
            let pr = crate::player::player_process_event(self, id, event);
            res = pr.0;
            end_turn = pr.1;
        }
        // A terminal result ends the game at once; the acting entity keeps
        // its unchanged schedule so the dungeon stays consistent.
        match res {
            ActResult::WindowClosed => {
                // The player's event processing never reports a closed
                // window.
                proof {
                    assert(false);
                }
                return crate::game_data::GameLoopOutcome::WindowClosed;
            },
            ActResult::QuitGame => {
                proof {
                    assert(player_step(
                        pre,
                        *self,
                        ka as int,
                        event,
                        crate::game_data::GameLoopOutcome::QuitGame,
                    ));
                }
                return crate::game_data::GameLoopOutcome::QuitGame;
            },
            ActResult::Continue => {},
        }
        if end_turn {
            proof {
                assert(self.actor_live(id as int));
            }
            self.advance_actor_entry(id, ka);
            *actor_turn = None;
            proof {
                if behavior == crate::actor::Behavior::Player {
                    let a = pre.actor_at(id as int);
                    let target = crate::player::move_target(a.coord, event);
                    let t2 = self.actor_at(id as int).turn;
                    assert(self.spec_actors() =~= pre.spec_actors().update(
                        id as int,
                        Option::Some(Actor { coord: target, turn: t2, ..a }),
                    ));
                    assert(player_step(
                        pre,
                        *self,
                        ka as int,
                        event,
                        crate::game_data::GameLoopOutcome::Continue,
                    ));
                } else {
                    assert(actor_requeue_step(pre, *self, ka as int));
                }
            }
        } else {
            proof {
                assert(player_step(
                    pre,
                    *self,
                    ka as int,
                    event,
                    crate::game_data::GameLoopOutcome::Continue,
                ));
            }
        }
        crate::game_data::GameLoopOutcome::Continue
    }

    // The object side of a scheduling step: the object named by queue entry
    // `ko`, which holds the earliest turn over both queues, acts and is
    // rescheduled one speed step later.
    #[verifier::rlimit(100)]
    fn step_object(&mut self, ko: usize)
        requires
            old(self).wf(),
            (ko as int) < old(self).spec_oq().len(),
            forall|j: int|
                0 <= j < old(self).spec_aq().len() ==> gr_le(
                    old(self).spec_oq()[ko as int].turn,
                    (#[trigger] old(self).spec_aq()[j]).turn,
                ),
            forall|j: int|
                0 <= j < old(self).spec_oq().len() ==> gr_le(
                    old(self).spec_oq()[ko as int].turn,
                    (#[trigger] old(self).spec_oq()[j]).turn,
                ),
        ensures
            final (self).wf(),
            gr_le(old(self).spec_turn(), final (self).spec_turn()),
            final (self).spec_turn() == old(self).spec_oq()[ko as int].turn,
            object_requeue_step(*old(self), *final (self), ko as int),
            final (self).spec_width() == old(self).spec_width(),
            final (self).spec_height() == old(self).spec_height(),
            final (self).spec_danger_level() == old(self).spec_danger_level(),
            final (self).spec_dungeon_type() == old(self).spec_dungeon_type(),
    {
        let ghost pre = *old(self);
        let id = self.object_queue[ko].id;
        let ot = self.object_queue[ko].turn;
        proof {
            assert(self.object_live(id as int));
            assert(gr_le(pre.spec_turn(), ot));
        }
        let ghost pre0 = *self;
        self.turn = ot;
        proof {
            lemma_wf_set_turn(pre0, *self, ot);
        }
        let ocoord = self.object_ref(id).coord;
        let i = self.tile_index(ocoord);
        let actor_present = self.tiles[i].actor.is_some();
        let _res = self.object_act(id, actor_present);
        proof {
            assert(self.object_live(id as int));
        }
        let ghost mid2 = *self;
        self.advance_object_entry(id, ko);
        proof {
            let o = pre.object_at(id as int);
            let t2 = self.object_at(id as int).turn;
            let act2 = self.object_at(id as int).active;
            assert(mid2.object_at(id as int) == (Object { active: act2, ..o }));
            assert(self.spec_objects() =~= pre.spec_objects().update(
                id as int,
                Option::Some(Object { turn: t2, active: act2, ..o }),
            ));
            assert(object_requeue_step(pre, *self, ko as int));
        }
    }

    /// Replaces the kind information of the tile at `coord`, keeping its
    /// occupants.
    pub fn set_tile_kind(&mut self, coord: Coord, info: TileInfo)
        requires
            old(self).wf(),
            old(self).in_bounds_spec(coord),
        ensures
            final (self).wf(),
            final (self).spec_tiles() == old(self).spec_tiles().update(
                old(self).idx_of(coord.x as int, coord.y as int),
                (Tile { info, ..old(self).tile_at(coord) }),
            ),
            final (self).spec_actors() == old(self).spec_actors(),
            final (self).spec_objects() == old(self).spec_objects(),
            final (self).spec_aq() == old(self).spec_aq(),
            final (self).spec_oq() == old(self).spec_oq(),
            final (self).spec_turn() == old(self).spec_turn(),
            final (self).spec_width() == old(self).spec_width(),
            final (self).spec_height() == old(self).spec_height(),
            final (self).spec_danger_level() == old(self).spec_danger_level(),
            final (self).spec_dungeon_type() == old(self).spec_dungeon_type(),
    {
        let i = self.tile_index(coord);
        let t = &mut self.tiles[i];
        t.set_tile_info(info);
        proof {
            let prev = *old(self);
            let s = *self;
            let w = s.spec_width();
            let h = s.spec_height();
            assert forall|i2: int| s.actor_live(i2) implies {
                let a = s.actor_at(i2);
                &&& a.id == i2
                &&& actor_wf(a)
                &&& gr_le(s.spec_turn(), a.turn)
                &&& s.in_bounds_spec(a.coord)
                &&& s.tile_at(a.coord).actor == Option::Some(i2 as usize)
            } by {
                assert(prev.actor_live(i2));
                let a = prev.actor_at(i2);
                lemma_idx_bound(a.coord.x as int, a.coord.y as int, w, h);
                assert(s.tile_at(a.coord).actor == prev.tile_at(a.coord).actor);
            }
            assert forall|i2: int| s.object_live(i2) implies {
                let o = s.object_at(i2);
                &&& o.id == i2
                &&& object_wf(o)
                &&& gr_le(s.spec_turn(), o.turn)
                &&& s.in_bounds_spec(o.coord)
                &&& s.tile_at(o.coord).object == Option::Some(i2 as usize)
            } by {
                assert(prev.object_live(i2));
                let o = prev.object_at(i2);
                lemma_idx_bound(o.coord.x as int, o.coord.y as int, w, h);
                assert(s.tile_at(o.coord).object == prev.tile_at(o.coord).object);
            }
            assert forall|x: int, y: int|
                #![trigger s.spec_tiles()[s.idx_of(x, y)]]
                0 <= x < s.spec_width() && 0 <= y < s.spec_height() implies {
                &&& match (s.spec_tiles()[s.idx_of(x, y)]).actor {
                    Option::Some(aid) => s.actor_live(aid as int) && s.actor_at(aid as int).coord
                        == (Coord { x: x as i32, y: y as i32 }),
                    Option::None => true,
                }
                &&& match (s.spec_tiles()[s.idx_of(x, y)]).object {
                    Option::Some(oid) => s.object_live(oid as int) && s.object_at(oid as int).coord
                        == (Coord { x: x as i32, y: y as i32 }),
                    Option::None => true,
                }
            } by {
                lemma_idx_bound(x, y, w, h);
                assert((s.spec_tiles()[s.idx_of(x, y)]).actor == (
                prev.spec_tiles()[prev.idx_of(x, y)]).actor);
                assert((s.spec_tiles()[s.idx_of(x, y)]).object == (
                prev.spec_tiles()[prev.idx_of(x, y)]).object);
            }
            assert(s.aq_ok()) by {
                assert forall|k: int| 0 <= k < s.spec_aq().len() implies {
                    let e = #[trigger] s.spec_aq()[k];
                    s.actor_live(e.id as int) && s.actor_at(e.id as int).turn == e.turn
                } by {
                    assert(prev.actor_live(prev.spec_aq()[k].id as int));
                }
            }
            assert(s.aq_covers()) by {
                assert forall|i2: int| #[trigger] s.actor_live(i2) && i2 != -1 implies exists|k: int|
                    0 <= k < s.spec_aq().len() && (#[trigger] s.spec_aq()[k]).id == i2 by {
                    assert(prev.actor_live(i2));
                    let k = choose|k: int|
                        0 <= k < prev.spec_aq().len() && (#[trigger] prev.spec_aq()[k]).id == i2;
                    assert(s.spec_aq()[k].id == i2);
                }
            }
            assert(s.oq_ok()) by {
                assert forall|k: int| 0 <= k < s.spec_oq().len() implies {
                    let e = #[trigger] s.spec_oq()[k];
                    s.object_live(e.id as int) && s.object_at(e.id as int).turn == e.turn
                } by {
                    assert(prev.object_live(prev.spec_oq()[k].id as int));
                }
            }
            assert(s.oq_covers()) by {
                assert forall|i2: int| #[trigger] s.object_live(i2) && i2 != -1 implies exists|
                    k: int,
                |
                    0 <= k < s.spec_oq().len() && (#[trigger] s.spec_oq()[k]).id == i2 by {
                    assert(prev.object_live(i2));
                    let k = choose|k: int|
                        0 <= k < prev.spec_oq().len() && (#[trigger] prev.spec_oq()[k]).id == i2;
                    assert(s.spec_oq()[k].id == i2);
                }
            }
        }
    }

    /// The tile at `coord`.
    pub fn tile(&self, coord: Coord) -> (r: &Tile)
        requires
            self.grid_wf(),
            self.in_bounds_spec(coord),
        ensures
            *r == self.tile_at(coord),
    {
        let i = self.tile_index(coord);
        &self.tiles[i]
    }
}

/// List of dungeons, one per depth, with the depth the player is on.
pub struct DungeonList {
    dungeon_list: Vec<Dungeon>,
    current_depth: usize,
}

impl DungeonList {
    /// The dungeons, by depth.
    pub closed spec fn spec_list(self) -> Seq<Dungeon> {
        self.dungeon_list@
    }

    /// The depth the player is on.
    pub closed spec fn spec_current_depth(self) -> int {
        self.current_depth as int
    }

    /// Creates a new `DungeonList` from the generated depths, with the
    /// player on the first.
    pub fn new(dungeons: Vec<Dungeon>) -> (r: DungeonList)
        ensures
            r.spec_list() == dungeons@,
            r.spec_current_depth() == 0,
    {
        DungeonList { dungeon_list: dungeons, current_depth: 0 }
    }

    /// The number of depths.
    pub fn len(&self) -> (r: usize)
        ensures
            r == self.spec_list().len(),
    {
        self.dungeon_list.len()
    }

    /// The depth the player is on.
    pub fn current_depth(&self) -> (r: usize)
        ensures
            r == self.spec_current_depth(),
    {
        self.current_depth
    }

    /// Moves the player to the given depth.
    pub fn set_current_depth(&mut self, depth: usize)
        requires
            depth < old(self).spec_list().len(),
        ensures
            final (self).spec_list() == old(self).spec_list(),
            final (self).spec_current_depth() == depth,
    {
        self.current_depth = depth;
    }

    /// Appends a freshly generated depth.
    pub fn push(&mut self, dungeon: Dungeon)
        ensures
            final (self).spec_list() == old(self).spec_list().push(dungeon),
            final (self).spec_current_depth() == old(self).spec_current_depth(),
    {
        self.dungeon_list.push(dungeon);
    }

    /// The dungeon at the given depth.
    pub fn get(&self, depth: usize) -> (r: &Dungeon)
        requires
            depth < self.spec_list().len(),
        ensures
            *r == self.spec_list()[depth as int],
    {
        &self.dungeon_list[depth]
    }

    /// Returns a mutable reference to the current dungeon.
    pub fn current_dungeon(&mut self) -> (r: &mut Dungeon)
        requires
            old(self).spec_current_depth() < old(self).spec_list().len(),
        ensures
            *r == old(self).spec_list()[old(self).spec_current_depth()],
            final (self).spec_list() == old(self).spec_list().update(
                old(self).spec_current_depth(),
                *final (r),
            ),
            final (self).spec_current_depth() == old(self).spec_current_depth(),
    {
        let index = self.current_depth;
        &mut self.dungeon_list[index]
    }
}

/// True if `t` is the smallest turn value occurring in the queue.
pub open spec fn is_min_of(q: Seq<QEntry>, t: GameRatio) -> bool {
    &&& exists|k: int| 0 <= k < q.len() && (#[trigger] q[k]).turn == t
    &&& forall|k: int| 0 <= k < q.len() ==> gr_le(t, (#[trigger] q[k]).turn)
}

/// The dungeon transition of a scheduling step in which the non-player
/// actor named by actor queue entry `k` acts: the global turn becomes its
/// scheduled turn, the actor itself does nothing, and it is rescheduled
/// exactly one speed step later (saturating at the maximal turn value), in
/// the arena and in its queue entry at once. Nothing else changes.
pub open spec fn actor_requeue_step(pre: Dungeon, post: Dungeon, k: int) -> bool {
    let id = pre.spec_aq()[k].id;
    let a = pre.actor_at(id as int);
    let t2 = post.actor_at(id as int).turn;
    &&& post.spec_turn() == pre.spec_aq()[k].turn
    &&& crate::actor::gr_add_sat_rel(a.turn, a.speed, t2)
    &&& post.spec_actors() == pre.spec_actors().update(
        id as int,
        Option::Some(Actor { turn: t2, ..a }),
    )
    &&& post.spec_aq() == pre.spec_aq().update(k, QEntry { turn: t2, id })
    &&& post.spec_objects() == pre.spec_objects()
    &&& post.spec_oq() == pre.spec_oq()
    &&& post.spec_tiles() == pre.spec_tiles()
}

/// The dungeon transition of a scheduling step in which the object named
/// by object queue entry `k` acts: the global turn becomes its scheduled
/// turn, the object acts on its own — only an inactive door with no actor
/// standing on its tile may activate, and nothing deactivates — and it is
/// rescheduled exactly one speed step later, in the arena and in its queue
/// entry at once. Nothing else changes.
pub open spec fn object_requeue_step(pre: Dungeon, post: Dungeon, k: int) -> bool {
    let id = pre.spec_oq()[k].id;
    let o = pre.object_at(id as int);
    let t2 = post.object_at(id as int).turn;
    let act2 = post.object_at(id as int).active;
    &&& post.spec_turn() == pre.spec_oq()[k].turn
    &&& crate::actor::gr_add_sat_rel(o.turn, o.speed, t2)
    &&& (act2 ==> o.active || (o.object_type is Door && pre.tile_at(o.coord).actor is None))
    &&& (!act2 ==> !o.active)
    &&& post.spec_objects() == pre.spec_objects().update(
        id as int,
        Option::Some(Object { turn: t2, active: act2, ..o }),
    )
    &&& post.spec_oq() == pre.spec_oq().update(k, QEntry { turn: t2, id })
    &&& post.spec_actors() == pre.spec_actors()
    &&& post.spec_aq() == pre.spec_aq()
    &&& post.spec_tiles() == pre.spec_tiles()
}

/// The dungeon transition of a scheduling step in which the player actor
/// named by actor queue entry `k` acts on the input `event`, with step
/// outcome `r`. The global turn becomes the player's scheduled turn. A
/// quit event ends the game and changes nothing else. A movement event
/// onto a walkable target moves the player there and reschedules it one
/// speed step later; a movement onto an open door shuts the door instead,
/// and any other movement or event changes nothing — the turn is then not
/// used up, so the player stays scheduled as it was and acts again on the
/// next step.
pub open spec fn player_step(
    pre: Dungeon,
    post: Dungeon,
    k: int,
    event: crate::player::PlayerEvent,
    r: crate::game_data::GameLoopOutcome,
) -> bool {
    let id = pre.spec_aq()[k].id;
    let a = pre.actor_at(id as int);
    let target = crate::player::move_target(a.coord, event);
    let t2 = post.actor_at(id as int).turn;
    &&& post.spec_turn() == pre.spec_aq()[k].turn
    &&& (r is QuitGame <==> event is Quit)
    &&& (r is Continue <==> !(event is Quit))
    &&& post.spec_oq() == pre.spec_oq()
    &&& if crate::player::consumes_turn(pre, a.coord, event) {
        &&& crate::actor::gr_add_sat_rel(a.turn, a.speed, t2)
        &&& post.spec_actors() == pre.spec_actors().update(
            id as int,
            Option::Some(Actor { coord: target, turn: t2, ..a }),
        )
        &&& post.spec_aq() == pre.spec_aq().update(k, QEntry { turn: t2, id })
        &&& post.spec_objects() == pre.spec_objects()
        &&& post.spec_tiles() == pre.spec_tiles().update(
            pre.idx_of(a.coord.x as int, a.coord.y as int),
            (Tile { actor: Option::None, ..pre.tile_at(a.coord) }),
        ).update(
            pre.idx_of(target.x as int, target.y as int),
            (Tile { actor: Option::Some(id), ..pre.tile_at(target) }),
        )
    } else {
        &&& post.spec_actors() == pre.spec_actors()
        &&& post.spec_aq() == pre.spec_aq()
        &&& post.spec_tiles() == pre.spec_tiles()
        &&& post.spec_objects().len() == pre.spec_objects().len()
        &&& forall|oid: int| #[trigger] post.object_live(oid) == pre.object_live(oid)
        &&& forall|oid: int|
            pre.object_live(oid) ==> #[trigger] post.object_at(oid) == (Object {
                active: (if crate::player::is_move_event(event) && pre.move_shuts_door(
                    target,
                    oid,
                ) {
                    false
                } else {
                    pre.object_at(oid).active
                }),
                ..pre.object_at(oid)
            })
    }
}

/// Setting the global turn to a value that no queue entry precedes keeps
/// the dungeon well-formed.
proof fn lemma_wf_set_turn(pre: Dungeon, post: Dungeon, t: GameRatio)
    requires
        pre.wf(),
        gr_wf(t),
        post.spec_turn() == t,
        post.spec_tiles() == pre.spec_tiles(),
        post.spec_actors() == pre.spec_actors(),
        post.spec_objects() == pre.spec_objects(),
        post.spec_aq() == pre.spec_aq(),
        post.spec_oq() == pre.spec_oq(),
        post.spec_width() == pre.spec_width(),
        post.spec_height() == pre.spec_height(),
        forall|k: int| 0 <= k < pre.spec_aq().len() ==> gr_le(t, (#[trigger] pre.spec_aq()[k]).turn),
        forall|k: int| 0 <= k < pre.spec_oq().len() ==> gr_le(t, (#[trigger] pre.spec_oq()[k]).turn),
    ensures
        post.wf(),
{
    assert forall|i: int| post.actor_live(i) implies {
        let a = post.actor_at(i);
        &&& a.id == i
        &&& actor_wf(a)
        &&& gr_le(post.spec_turn(), a.turn)
        &&& post.in_bounds_spec(a.coord)
        &&& post.tile_at(a.coord).actor == Option::Some(i as usize)
    } by {
        assert(pre.actor_live(i));
        let k = choose|k: int| 0 <= k < pre.spec_aq().len() && (#[trigger] pre.spec_aq()[k]).id == i;
        assert(pre.spec_aq()[k].turn == pre.actor_at(i).turn);
        assert(gr_le(t, pre.spec_aq()[k].turn));
    }
    assert forall|i: int| post.object_live(i) implies {
        let o = post.object_at(i);
        &&& o.id == i
        &&& object_wf(o)
        &&& gr_le(post.spec_turn(), o.turn)
        &&& post.in_bounds_spec(o.coord)
        &&& post.tile_at(o.coord).object == Option::Some(i as usize)
    } by {
        assert(pre.object_live(i));
        let k = choose|k: int| 0 <= k < pre.spec_oq().len() && (#[trigger] pre.spec_oq()[k]).id == i;
        assert(pre.spec_oq()[k].turn == pre.object_at(i).turn);
        assert(gr_le(t, pre.spec_oq()[k].turn));
    }
    assert forall|x: int, y: int|
        #![trigger post.spec_tiles()[post.idx_of(x, y)]]
        0 <= x < post.spec_width() && 0 <= y < post.spec_height() implies {
        &&& match (post.spec_tiles()[post.idx_of(x, y)]).actor {
            Option::Some(aid) => post.actor_live(aid as int) && post.actor_at(aid as int).coord
                == (Coord { x: x as i32, y: y as i32 }),
            Option::None => true,
        }
        &&& match (post.spec_tiles()[post.idx_of(x, y)]).object {
            Option::Some(oid) => post.object_live(oid as int) && post.object_at(oid as int).coord
                == (Coord { x: x as i32, y: y as i32 }),
            Option::None => true,
        }
    } by {
        lemma_idx_bound(x, y, post.spec_width(), post.spec_height());
        assert(post.spec_tiles()[post.idx_of(x, y)] == pre.spec_tiles()[pre.idx_of(x, y)]);
    }
    assert(post.aq_ok()) by {
        assert forall|k: int| 0 <= k < post.spec_aq().len() implies {
            let e = #[trigger] post.spec_aq()[k];
            post.actor_live(e.id as int) && post.actor_at(e.id as int).turn == e.turn
        } by {
            assert(pre.actor_live(pre.spec_aq()[k].id as int));
        }
    }
    assert(post.aq_covers()) by {
        assert forall|i: int| #[trigger] post.actor_live(i) && i != -1 implies exists|k: int|
            0 <= k < post.spec_aq().len() && (#[trigger] post.spec_aq()[k]).id == i by {
            assert(pre.actor_live(i));
            let k = choose|k: int|
                0 <= k < pre.spec_aq().len() && (#[trigger] pre.spec_aq()[k]).id == i;
            assert(post.spec_aq()[k].id == i);
        }
    }
    assert(post.oq_ok()) by {
        assert forall|k: int| 0 <= k < post.spec_oq().len() implies {
            let e = #[trigger] post.spec_oq()[k];
            post.object_live(e.id as int) && post.object_at(e.id as int).turn == e.turn
        } by {
            assert(pre.object_live(pre.spec_oq()[k].id as int));
        }
    }
    assert(post.oq_covers()) by {
        assert forall|i: int| #[trigger] post.object_live(i) && i != -1 implies exists|k: int|
            0 <= k < post.spec_oq().len() && (#[trigger] post.spec_oq()[k]).id == i by {
            assert(pre.object_live(i));
            let k = choose|k: int|
                0 <= k < pre.spec_oq().len() && (#[trigger] pre.spec_oq()[k]).id == i;
            assert(post.spec_oq()[k].id == i);
        }
    }
}

/// Advancing a scheduled actor's turn value, in the arena and in its queue
/// entry at once, keeps the dungeon well-formed.
proof fn lemma_wf_advance_actor(pre: Dungeon, post: Dungeon, id: int, ka: int, newt: GameRatio)
    requires
        pre.wf(),
        pre.actor_live(id),
        0 <= ka < pre.spec_aq().len(),
        pre.spec_aq()[ka].id == id,
        gr_wf(newt),
        gr_le(pre.spec_turn(), newt),
        post.spec_actors() == pre.spec_actors().update(
            id,
            Option::Some(Actor { turn: newt, ..pre.actor_at(id) }),
        ),
        post.spec_aq() == pre.spec_aq().update(ka, QEntry { turn: newt, id: id as usize }),
        post.spec_tiles() == pre.spec_tiles(),
        post.spec_objects() == pre.spec_objects(),
        post.spec_oq() == pre.spec_oq(),
        post.spec_turn() == pre.spec_turn(),
        post.spec_width() == pre.spec_width(),
        post.spec_height() == pre.spec_height(),
    ensures
        post.wf(),
{
    assert forall|i: int| post.actor_live(i) implies {
        let a = post.actor_at(i);
        &&& a.id == i
        &&& actor_wf(a)
        &&& gr_le(post.spec_turn(), a.turn)
        &&& post.in_bounds_spec(a.coord)
        &&& post.tile_at(a.coord).actor == Option::Some(i as usize)
    } by {
        assert(pre.actor_live(i));
        if i == id {
            assert(post.actor_at(i) == (Actor { turn: newt, ..pre.actor_at(id) }));
        }
        assert(post.tile_at(post.actor_at(i).coord) == pre.tile_at(pre.actor_at(i).coord));
    }
    assert forall|i: int| post.object_live(i) implies {
        let o = post.object_at(i);
        &&& o.id == i
        &&& object_wf(o)
        &&& gr_le(post.spec_turn(), o.turn)
        &&& post.in_bounds_spec(o.coord)
        &&& post.tile_at(o.coord).object == Option::Some(i as usize)
    } by {
        assert(pre.object_live(i));
        assert(post.tile_at(post.object_at(i).coord) == pre.tile_at(pre.object_at(i).coord));
    }
    assert forall|x: int, y: int|
        #![trigger post.spec_tiles()[post.idx_of(x, y)]]
        0 <= x < post.spec_width() && 0 <= y < post.spec_height() implies {
        &&& match (post.spec_tiles()[post.idx_of(x, y)]).actor {
            Option::Some(aid) => post.actor_live(aid as int) && post.actor_at(aid as int).coord
                == (Coord { x: x as i32, y: y as i32 }),
            Option::None => true,
        }
        &&& match (post.spec_tiles()[post.idx_of(x, y)]).object {
            Option::Some(oid) => post.object_live(oid as int) && post.object_at(oid as int).coord
                == (Coord { x: x as i32, y: y as i32 }),
            Option::None => true,
        }
    } by {
        lemma_idx_bound(x, y, post.spec_width(), post.spec_height());
        assert(post.spec_tiles()[post.idx_of(x, y)] == pre.spec_tiles()[pre.idx_of(x, y)]);
    }
    assert(post.aq_ok()) by {
        assert forall|k: int| 0 <= k < post.spec_aq().len() implies {
            let e = #[trigger] post.spec_aq()[k];
            post.actor_live(e.id as int) && post.actor_at(e.id as int).turn == e.turn
        } by {
            assert(pre.actor_live(pre.spec_aq()[k].id as int));
            if k != ka && pre.spec_aq()[k].id == id {
                // ruled out by uniqueness of queue ids
                assert(false);
            }
        }
        assert forall|k1: int, k2: int|
            0 <= k1 < k2 < post.spec_aq().len() implies (#[trigger] post.spec_aq()[k1]).id != (
        #[trigger] post.spec_aq()[k2]).id by {
            assert(pre.spec_aq()[k1].id != pre.spec_aq()[k2].id);
        }
    }
    assert(post.aq_covers()) by {
        assert forall|i: int| #[trigger] post.actor_live(i) && i != -1 implies exists|k: int|
            0 <= k < post.spec_aq().len() && (#[trigger] post.spec_aq()[k]).id == i by {
            assert(pre.actor_live(i));
            let k = choose|k: int|
                0 <= k < pre.spec_aq().len() && (#[trigger] pre.spec_aq()[k]).id == i;
            assert(post.spec_aq()[k].id == i);
        }
    }
    assert(post.oq_ok()) by {
        assert forall|k: int| 0 <= k < post.spec_oq().len() implies {
            let e = #[trigger] post.spec_oq()[k];
            post.object_live(e.id as int) && post.object_at(e.id as int).turn == e.turn
        } by {
            assert(pre.object_live(pre.spec_oq()[k].id as int));
        }
    }
    assert(post.oq_covers()) by {
        assert forall|i: int| #[trigger] post.object_live(i) && i != -1 implies exists|k: int|
            0 <= k < post.spec_oq().len() && (#[trigger] post.spec_oq()[k]).id == i by {
            assert(pre.object_live(i));
            let k = choose|k: int|
                0 <= k < pre.spec_oq().len() && (#[trigger] pre.spec_oq()[k]).id == i;
            assert(post.spec_oq()[k].id == i);
        }
    }
}

/// Advancing a scheduled object's turn value, in the arena and in its queue
/// entry at once, keeps the dungeon well-formed.
proof fn lemma_wf_advance_object(pre: Dungeon, post: Dungeon, id: int, ko: int, newt: GameRatio)
    requires
        pre.wf(),
        pre.object_live(id),
        0 <= ko < pre.spec_oq().len(),
        pre.spec_oq()[ko].id == id,
        gr_wf(newt),
        gr_le(pre.spec_turn(), newt),
        post.spec_objects() == pre.spec_objects().update(
            id,
            Option::Some(Object { turn: newt, ..pre.object_at(id) }),
        ),
        post.spec_oq() == pre.spec_oq().update(ko, QEntry { turn: newt, id: id as usize }),
        post.spec_tiles() == pre.spec_tiles(),
        post.spec_actors() == pre.spec_actors(),
        post.spec_aq() == pre.spec_aq(),
        post.spec_turn() == pre.spec_turn(),
        post.spec_width() == pre.spec_width(),
        post.spec_height() == pre.spec_height(),
    ensures
        post.wf(),
{
    assert forall|i: int| post.object_live(i) implies {
        let a = post.object_at(i);
        &&& a.id == i
        &&& object_wf(a)
        &&& gr_le(post.spec_turn(), a.turn)
        &&& post.in_bounds_spec(a.coord)
        &&& post.tile_at(a.coord).object == Option::Some(i as usize)
    } by {
        assert(pre.object_live(i));
        if i == id {
            assert(post.object_at(i) == (Object { turn: newt, ..pre.object_at(id) }));
        }
        assert(post.tile_at(post.object_at(i).coord) == pre.tile_at(pre.object_at(i).coord));
    }
    assert forall|i: int| post.actor_live(i) implies {
        let o = post.actor_at(i);
        &&& o.id == i
        &&& actor_wf(o)
        &&& gr_le(post.spec_turn(), o.turn)
        &&& post.in_bounds_spec(o.coord)
        &&& post.tile_at(o.coord).actor == Option::Some(i as usize)
    } by {
        assert(pre.actor_live(i));
        assert(post.tile_at(post.actor_at(i).coord) == pre.tile_at(pre.actor_at(i).coord));
    }
    assert forall|x: int, y: int|
        #![trigger post.spec_tiles()[post.idx_of(x, y)]]
        0 <= x < post.spec_width() && 0 <= y < post.spec_height() implies {
        &&& match (post.spec_tiles()[post.idx_of(x, y)]).object {
            Option::Some(aid) => post.object_live(aid as int) && post.object_at(aid as int).coord
                == (Coord { x: x as i32, y: y as i32 }),
            Option::None => true,
        }
        &&& match (post.spec_tiles()[post.idx_of(x, y)]).actor {
            Option::Some(oid) => post.actor_live(oid as int) && post.actor_at(oid as int).coord
                == (Coord { x: x as i32, y: y as i32 }),
            Option::None => true,
        }
    } by {
        lemma_idx_bound(x, y, post.spec_width(), post.spec_height());
        assert(post.spec_tiles()[post.idx_of(x, y)] == pre.spec_tiles()[pre.idx_of(x, y)]);
    }
    assert(post.oq_ok()) by {
        assert forall|k: int| 0 <= k < post.spec_oq().len() implies {
            let e = #[trigger] post.spec_oq()[k];
            post.object_live(e.id as int) && post.object_at(e.id as int).turn == e.turn
        } by {
            assert(pre.object_live(pre.spec_oq()[k].id as int));
            if k != ko && pre.spec_oq()[k].id == id {
                // ruled out by uniqueness of queue ids
                assert(false);
            }
        }
        assert forall|k1: int, k2: int|
            0 <= k1 < k2 < post.spec_oq().len() implies (#[trigger] post.spec_oq()[k1]).id != (
        #[trigger] post.spec_oq()[k2]).id by {
            assert(pre.spec_oq()[k1].id != pre.spec_oq()[k2].id);
        }
    }
    assert(post.oq_covers()) by {
        assert forall|i: int| #[trigger] post.object_live(i) && i != -1 implies exists|k: int|
            0 <= k < post.spec_oq().len() && (#[trigger] post.spec_oq()[k]).id == i by {
            assert(pre.object_live(i));
            let k = choose|k: int|
                0 <= k < pre.spec_oq().len() && (#[trigger] pre.spec_oq()[k]).id == i;
            assert(post.spec_oq()[k].id == i);
        }
    }
    assert(post.aq_ok()) by {
        assert forall|k: int| 0 <= k < post.spec_aq().len() implies {
            let e = #[trigger] post.spec_aq()[k];
            post.actor_live(e.id as int) && post.actor_at(e.id as int).turn == e.turn
        } by {
            assert(pre.actor_live(pre.spec_aq()[k].id as int));
        }
    }
    assert(post.aq_covers()) by {
        assert forall|i: int| #[trigger] post.actor_live(i) && i != -1 implies exists|k: int|
            0 <= k < post.spec_aq().len() && (#[trigger] post.spec_aq()[k]).id == i by {
            assert(pre.actor_live(i));
            let k = choose|k: int|
                0 <= k < pre.spec_aq().len() && (#[trigger] pre.spec_aq()[k]).id == i;
            assert(post.spec_aq()[k].id == i);
        }
    }
}

/// Returns the index of an entry with the smallest turn value.
fn min_index(q: &Vec<QEntry>) -> (r: usize)
    requires
        q@.len() >= 1,
        forall|k: int| 0 <= k < q@.len() ==> gr_wf((#[trigger] q@[k]).turn),
    ensures
        r < q@.len(),
        forall|k: int| 0 <= k < q@.len() ==> gr_le(q@[r as int].turn, (#[trigger] q@[k]).turn),
{
    let mut best: usize = 0;
    let mut k: usize = 1;
    while k < q.len()
        invariant
            0 <= best < k <= q@.len(),
            forall|j: int| 0 <= j < q@.len() ==> gr_wf((#[trigger] q@[j]).turn),
            forall|j: int| 0 <= j < k ==> gr_le(q@[best as int].turn, (#[trigger] q@[j]).turn),
        decreases q@.len() - k,
    {
        if q[k].turn.lt(&q[best].turn) {
            proof {
                let ghost old_best = best as int;
                assert forall|j: int| 0 <= j < k + 1 implies gr_le(
                    q@[k as int].turn,
                    (#[trigger] q@[j]).turn,
                ) by {
                    if j < k {
                        crate::defs::lemma_gr_le_trans(
                            q@[k as int].turn,
                            q@[old_best].turn,
                            q@[j].turn,
                        );
                    }
                }
            }
            best = k;
        }
        k = k + 1;
    }
    best
}

/// Changing only the field-of-view bookkeeping of a dungeon preserves its
/// well-formedness.
proof fn lemma_wf_fov_frame(pre: Dungeon, post: Dungeon)
    requires
        pre.wf(),
        post.spec_tiles() == pre.spec_tiles(),
        post.spec_actors() == pre.spec_actors(),
        post.spec_objects() == pre.spec_objects(),
        post.spec_aq() == pre.spec_aq(),
        post.spec_oq() == pre.spec_oq(),
        post.spec_turn() == pre.spec_turn(),
        post.spec_width() == pre.spec_width(),
        post.spec_height() == pre.spec_height(),
    ensures
        post.wf(),
{
    assert forall|i: int| post.actor_live(i) implies {
        let a = post.actor_at(i);
        &&& a.id == i
        &&& actor_wf(a)
        &&& gr_le(post.spec_turn(), a.turn)
        &&& post.in_bounds_spec(a.coord)
        &&& post.tile_at(a.coord).actor == Option::Some(i as usize)
    } by {
        assert(pre.actor_live(i));
    }
    assert forall|i: int| post.object_live(i) implies {
        let o = post.object_at(i);
        &&& o.id == i
        &&& object_wf(o)
        &&& gr_le(post.spec_turn(), o.turn)
        &&& post.in_bounds_spec(o.coord)
        &&& post.tile_at(o.coord).object == Option::Some(i as usize)
    } by {
        assert(pre.object_live(i));
    }
    assert forall|x: int, y: int|
        #![trigger post.spec_tiles()[post.idx_of(x, y)]]
        0 <= x < post.spec_width() && 0 <= y < post.spec_height() implies {
        &&& match (post.spec_tiles()[post.idx_of(x, y)]).actor {
            Option::Some(aid) => post.actor_live(aid as int) && post.actor_at(aid as int).coord
                == (Coord { x: x as i32, y: y as i32 }),
            Option::None => true,
        }
        &&& match (post.spec_tiles()[post.idx_of(x, y)]).object {
            Option::Some(oid) => post.object_live(oid as int) && post.object_at(oid as int).coord
                == (Coord { x: x as i32, y: y as i32 }),
            Option::None => true,
        }
    } by {
        lemma_idx_bound(x, y, post.spec_width(), post.spec_height());
        assert(post.spec_tiles()[post.idx_of(x, y)] == pre.spec_tiles()[pre.idx_of(x, y)]);
    }
    assert(post.aq_ok()) by {
        assert forall|k: int| 0 <= k < post.spec_aq().len() implies {
            let e = #[trigger] post.spec_aq()[k];
            post.actor_live(e.id as int) && post.actor_at(e.id as int).turn == e.turn
        } by {
            assert(pre.actor_live(pre.spec_aq()[k].id as int));
        }
    }
    assert(post.aq_covers()) by {
        assert forall|i: int| #[trigger] post.actor_live(i) && i != -1 implies exists|k: int|
            0 <= k < post.spec_aq().len() && (#[trigger] post.spec_aq()[k]).id == i by {
            assert(pre.actor_live(i));
            let k = choose|k: int|
                0 <= k < pre.spec_aq().len() && (#[trigger] pre.spec_aq()[k]).id == i;
            assert(post.spec_aq()[k].id == i);
        }
    }
    assert(post.oq_ok()) by {
        assert forall|k: int| 0 <= k < post.spec_oq().len() implies {
            let e = #[trigger] post.spec_oq()[k];
            post.object_live(e.id as int) && post.object_at(e.id as int).turn == e.turn
        } by {
            assert(pre.object_live(pre.spec_oq()[k].id as int));
        }
    }
    assert(post.oq_covers()) by {
        assert forall|i: int| #[trigger] post.object_live(i) && i != -1 implies exists|k: int|
            0 <= k < post.spec_oq().len() && (#[trigger] post.spec_oq()[k]).id == i by {
            assert(pre.object_live(i));
            let k = choose|k: int|
                0 <= k < pre.spec_oq().len() && (#[trigger] pre.spec_oq()[k]).id == i;
            assert(post.spec_oq()[k].id == i);
        }
    }
}

/// The column-major index of an in-bounds coordinate lies inside the grid
/// vector.
pub proof fn lemma_idx_bound(x: int, y: int, w: int, h: int)
    requires
        0 <= x < w,
        0 <= y < h,
    ensures
        0 <= x * h + y < w * h,
{
    assert(0 <= x * h + y < w * h) by (nonlinear_arith)
        requires
            0 <= x < w,
            0 <= y < h,
    ;
}

/// Equal column-major indices of in-bounds coordinates mean equal
/// coordinates.
pub proof fn lemma_idx_inj_converse(x1: int, y1: int, x2: int, y2: int, h: int)
    requires
        0 <= y1 < h,
        0 <= y2 < h,
        0 <= x1,
        0 <= x2,
        x1 * h + y1 == x2 * h + y2,
    ensures
        x1 == x2 && y1 == y2,
{
    if x1 != x2 || y1 != y2 {
        lemma_idx_inj(x1, y1, x2, y2, h);
    }
}

/// Distinct in-bounds coordinates have distinct column-major indices.
pub proof fn lemma_idx_inj(x1: int, y1: int, x2: int, y2: int, h: int)
    requires
        0 <= y1 < h,
        0 <= y2 < h,
        0 <= x1,
        0 <= x2,
        x1 != x2 || y1 != y2,
    ensures
        x1 * h + y1 != x2 * h + y2,
{
    assert(x1 * h + y1 != x2 * h + y2) by (nonlinear_arith)
        requires
            0 <= y1 < h,
            0 <= y2 < h,
            0 <= x1,
            0 <= x2,
            x1 != x2 || y1 != y2,
    ;
}

} // verus!
