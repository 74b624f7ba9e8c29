//! Game objects: doors, traps, and other scheduled scenery.

use crate::actor::gr_add_sat_rel;
use crate::console::Color;
use crate::coord::Coord;
use crate::defs::{gr_le, gr_wf, GameRatio};
use crate::error::GameError;
use crate::rng::dice;
use crate::string_util::str_eq;
use crate::GameResult;
use vstd::prelude::*;

verus! {

/// Enum listing possible object types.
#[derive(Clone, Copy, Debug, PartialEq, Eq, Structural)]
pub enum ObjectType {
    /// Door type. For doors, the `active` flag means the door is open.
    Door,
    Trap,
}

/// The object type denoted by a configuration string, if any.
pub open spec fn object_type_of(s: Seq<char>) -> Option<ObjectType> {
    if s == "door"@ {
        Option::Some(ObjectType::Door)
    } else if s == "trap"@ {
        Option::Some(ObjectType::Trap)
    } else {
        Option::None
    }
}

impl ObjectType {
    /// Parses an object type tag; exactly the two configuration strings are
    /// accepted.
    pub fn from_str(s: &str) -> (r: GameResult<ObjectType>)
        ensures
            match object_type_of(s@) {
                Option::Some(v) => r matches Ok(u) && u == v,
                Option::None => r matches Err(e) && e is ConversionError,
            },
    {
        proof {
            reveal_strlit("door");
            reveal_strlit("trap");
        }
        if str_eq(s, "door") {
            Ok(ObjectType::Door)
        } else if str_eq(s, "trap") {
            Ok(ObjectType::Trap)
        } else {
            Err(
                GameError::ConversionError {
                    val: s.to_owned(),
                    msg: "Invalid object type.",
                },
            )
        }
    }
}

/// The stat block an object is created from, as read from configuration.
#[derive(Debug)]
pub struct ObjectData {
    pub name: String,
    pub c: char,
    pub color: Color,
    pub object_type: ObjectType,
    pub speed: GameRatio,
    pub transparent: bool,
}

/// An `Object`.
///
/// A data structure for things like doors and traps which can be interacted
/// with. For more about the differences between `Object`s and `Actor`s, see
/// module `actor`.
///
/// Objects live in an arena owned by the dungeon; `id` is the arena index.
#[derive(Debug)]
pub struct Object {
    pub id: usize,
    pub object_type: ObjectType,
    pub active: bool,

    pub name: String,
    pub c: char,
    pub color: Color,

    pub coord: Coord,
    pub turn: GameRatio,
    pub speed: GameRatio,

    pub transparent: bool,
}

/// Well-formedness of an object: its turn and speed are well-formed ratios
/// and the speed is positive.
pub open spec fn object_wf(o: Object) -> bool {
    &&& gr_wf(o.turn)
    &&& gr_wf(o.speed)
    &&& o.speed.num >= 1
}

/// Whether an object in the given state lets entities pass: an open door
/// does, a closed one does not, and a trap always does.
pub open spec fn object_passable(o: Object) -> bool {
    match o.object_type {
        ObjectType::Door => o.active,
        ObjectType::Trap => true,
    }
}

/// Whether an object in the given state is visible: doors are visible only
/// while active, everything else always.
pub open spec fn object_visible(o: Object) -> bool {
    o.active || o.object_type != ObjectType::Door
}

impl Object {
    /// Creates a new `Object` at the given coordinates from its stat block.
    /// Its first scheduled turn is one speed step after `now`.
    pub fn new(coord: Coord, data: &ObjectData, active: bool, now: GameRatio) -> (r: Object)
        requires
            gr_wf(now),
            gr_wf(data.speed),
            data.speed.num >= 1,
        ensures
            object_wf(r),
            r.coord == coord,
            r.name == data.name,
            r.c == data.c,
            r.color == data.color,
            r.object_type == data.object_type,
            r.active == active,
            r.speed == data.speed,
            r.transparent == data.transparent,
            gr_add_sat_rel(now, data.speed, r.turn),
            gr_le(now, r.turn),
    {
        let turn = now.add_sat(data.speed);
        proof {
            crate::defs::lemma_add_sat_ge(now, data.speed, turn);
        }
        Object {
            id: 0,
            object_type: data.object_type,
            active,
            name: data.name.clone(),
            c: data.c,
            color: data.color,
            coord,
            turn,
            speed: data.speed,
            transparent: data.transparent,
        }
    }

    /// Creates an object from its stat block and adds it to the dungeon at
    /// `coord`, scheduled one speed step after the current game turn.
    /// Fails, leaving the dungeon unchanged, exactly when `coord` is out of
    /// bounds or already holds an object.
    pub fn insert_new(
        dungeon: &mut crate::dungeon::Dungeon,
        coord: Coord,
        object_data: &ObjectData,
        active: bool,
    ) -> (r: crate::GameResult<()>)
        requires
            old(dungeon).wf(),
            gr_wf(object_data.speed),
            object_data.speed.num >= 1,
        ensures
            final (dungeon).wf(),
            r is Ok <==> old(dungeon).in_bounds_spec(coord) && old(dungeon).tile_at(
                coord,
            ).object is None,
            r matches Err(e) ==> *final (dungeon) == *old(dungeon) && e is UnexpectedError,
            final (dungeon).spec_width() == old(dungeon).spec_width(),
            final (dungeon).spec_height() == old(dungeon).spec_height(),
            r is Ok ==> ({
                let id = old(dungeon).spec_objects().len() as usize;
                let o = final (dungeon).object_at(id as int);
                &&& final (dungeon).spec_objects() == old(dungeon).spec_objects().push(
                    Option::Some(o),
                )
                &&& o.id == id
                &&& o.coord == coord
                &&& o.name == object_data.name
                &&& o.c == object_data.c
                &&& o.color == object_data.color
                &&& o.object_type == object_data.object_type
                &&& o.active == active
                &&& o.speed == object_data.speed
                &&& o.transparent == object_data.transparent
                &&& gr_add_sat_rel(old(dungeon).spec_turn(), object_data.speed, o.turn)
                &&& final (dungeon).spec_oq() == old(dungeon).spec_oq().push(
                    crate::dungeon::QEntry { turn: o.turn, id },
                )
                &&& final (dungeon).spec_tiles() == old(dungeon).spec_tiles().update(
                    old(dungeon).idx_of(coord.x as int, coord.y as int),
                    (crate::tile::Tile {
                        object: Option::Some(id),
                        ..old(dungeon).tile_at(coord)
                    }),
                )
                &&& final (dungeon).spec_actors() == old(dungeon).spec_actors()
                &&& final (dungeon).spec_aq() == old(dungeon).spec_aq()
                &&& final (dungeon).spec_turn() == old(dungeon).spec_turn()
            }),
    {
        if !dungeon.in_bounds(coord) {
            return crate::error::err_unexpected("Object coordinate out of bounds");
        }
        if dungeon.tile(coord).object.is_some() {
            return crate::error::err_unexpected("Object tile already occupied");
        }
        let o = Object::new(coord, object_data, active, dungeon.turn());
        let ghost ov = o;
        let ghost old_len = dungeon.spec_objects().len() as int;
        dungeon.add_object(o);
        proof {
            assert(dungeon.spec_objects()[old_len] == Option::Some(
                Object { id: old_len as usize, ..ov },
            ));
            assert(dungeon.object_at(old_len) == (Object { id: old_len as usize, ..ov }));
        }
        Ok(())
    }

    /// Returns the name of this object.
    pub fn name(&self) -> (r: String)
        ensures
            r == self.name,
    {
        self.name.clone()
    }

    /// Returns a copy of this object's coordinates.
    pub fn coord(&self) -> (r: Coord)
        ensures
            r == self.coord,
    {
        self.coord
    }

    /// Sets this object's coordinates.
    pub fn set_coord(&mut self, coord: Coord)
        ensures
            *final (self) == (Object { coord, ..*old(self) }),
    {
        self.coord = coord;
    }

    /// Returns this object's next turn value.
    pub fn turn(&self) -> (r: GameRatio)
        ensures
            r == self.turn,
    {
        self.turn
    }

    /// Updates this object's turn based on its speed: the exact rational
    /// sum where it fits, saturated at the maximal turn value otherwise.
    pub fn update_turn(&mut self)
        requires
            object_wf(*old(self)),
        ensures
            object_wf(*final (self)),
            *final (self) == (Object { turn: final (self).turn, ..*old(self) }),
            gr_add_sat_rel(old(self).turn, old(self).speed, final (self).turn),
            gr_le(old(self).turn, final (self).turn),
    {
        let t = self.turn.add_sat(self.speed);
        proof {
            crate::defs::lemma_add_sat_ge(self.turn, self.speed, t);
        }
        self.turn = t;
    }

    /// Returns this object's base speed.
    pub fn speed(&self) -> (r: GameRatio)
        ensures
            r == self.speed,
    {
        self.speed
    }

    /// Whether this object lets entities pass. For doors, active means
    /// open.
    pub fn passable(&self) -> (r: bool)
        ensures
            r == object_passable(*self),
    {
        match self.object_type {
            ObjectType::Door => self.active,
            ObjectType::Trap => true,
        }
    }

    /// Whether this object is visible.
    pub fn visible(&self) -> (r: bool)
        ensures
            r == object_visible(*self),
    {
        self.active || !(self.object_type == ObjectType::Door)
    }

    /// Whether this object can be seen through: either the object itself is
    /// transparent, or it is invisible.
    pub fn transparent(&self) -> (r: bool)
        ensures
            r == (self.transparent || !object_visible(*self)),
    {
        self.transparent || !self.visible()
    }

    /// Whether this object is active. For doors, active means open.
    pub fn active(&self) -> (r: bool)
        ensures
            r == self.active,
    {
        self.active
    }

    /// Sets this object's activity flag.
    pub fn set_active(&mut self, active: bool)
        ensures
            *final (self) == (Object { active, ..*old(self) }),
    {
        self.active = active;
    }

    /// Returns this object's type.
    pub fn object_type(&self) -> (r: ObjectType)
        ensures
            r == self.object_type,
    {
        self.object_type
    }

    /// Acts out the object's turn. Yes, objects can act, too: an inactive
    /// door with no actor standing in it opens by itself half of the time.
    /// `actor_present` says whether an actor stands on this object's tile.
    pub fn act(&mut self, actor_present: bool) -> (r: crate::dungeon::ActResult)
        ensures
            r is Continue,
            final (self).active ==> old(self).active || (old(self).object_type == ObjectType::Door
                && !actor_present),
            !final (self).active ==> !old(self).active,
            *final (self) == (Object { active: final (self).active, ..*old(self) }),
    {
        if !self.active && self.object_type == ObjectType::Door && !actor_present && dice(1, 2) {
            self.active = true;
        }
        crate::dungeon::ActResult::Continue
    }

    /// An exact copy of this object.
    pub fn clone_object(&self) -> (r: Object)
        ensures
            r == *self,
    {
        Object {
            id: self.id,
            object_type: self.object_type,
            active: self.active,
            name: self.name.clone(),
            c: self.c,
            color: self.color,
            coord: self.coord,
            turn: self.turn,
            speed: self.speed,
            transparent: self.transparent,
        }
    }
}

impl crate::ui::Draw for Object {
    fn draw_c(&self) -> char {
        self.c
    }

    fn draw_color(&self) -> Color {
        self.color
    }
}

} // verus!
