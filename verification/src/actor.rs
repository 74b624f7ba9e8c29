//! Game actors: creatures that take scheduled turns, including the player.

use crate::console::Color;
use crate::coord::Coord;
use crate::defs::{gr_le, gr_red_den, gr_red_num, gr_sum_fits, gr_wf, gr_is_max, GameRatio};
use crate::error::GameError;
use crate::string_util::str_eq;
use crate::GameResult;
use vstd::prelude::*;

verus! {

/// Enum listing possible AI states of an actor.
#[derive(Clone, Copy, Debug, PartialEq, Eq, Structural)]
pub enum Behavior {
    /// Behavior corresponding to the player itself.
    Player,
    Friendly,
    Wary,
    Defensive,
    Hostile,
    Hunting,
}

/// The behavior denoted by a configuration string, if any.
pub open spec fn behavior_of(s: Seq<char>) -> Option<Behavior> {
    if s == "player"@ {
        Option::Some(Behavior::Player)
    } else if s == "friendly"@ {
        Option::Some(Behavior::Friendly)
    } else if s == "wary"@ {
        Option::Some(Behavior::Wary)
    } else if s == "defensive"@ {
        Option::Some(Behavior::Defensive)
    } else if s == "hostile"@ {
        Option::Some(Behavior::Hostile)
    } else if s == "hunting"@ {
        Option::Some(Behavior::Hunting)
    } else {
        Option::None
    }
}

impl Behavior {
    /// Parses a behavior tag; exactly the six configuration strings are
    /// accepted.
    pub fn from_str(s: &str) -> (r: GameResult<Behavior>)
        ensures
            match behavior_of(s@) {
                Option::Some(v) => r matches Ok(u) && u == v,
                Option::None => r matches Err(e) && e is ConversionError,
            },
    {
        proof {
            reveal_strlit("player");
            reveal_strlit("friendly");
            reveal_strlit("wary");
            reveal_strlit("defensive");
            reveal_strlit("hostile");
            reveal_strlit("hunting");
        }
        if str_eq(s, "player") {
            Ok(Behavior::Player)
        } else if str_eq(s, "friendly") {
            Ok(Behavior::Friendly)
        } else if str_eq(s, "wary") {
            Ok(Behavior::Wary)
        } else if str_eq(s, "defensive") {
            Ok(Behavior::Defensive)
        } else if str_eq(s, "hostile") {
            Ok(Behavior::Hostile)
        } else if str_eq(s, "hunting") {
            Ok(Behavior::Hunting)
        } else {
            Err(
                GameError::ConversionError {
                    val: s.to_owned(),
                    msg: "Invalid behavior value",
                },
            )
        }
    }
}

/// The stat block an actor is created from, as read from configuration.
#[derive(Debug)]
pub struct ActorData {
    pub name: String,
    pub c: char,
    pub color: Color,
    pub speed: GameRatio,
    pub hp: u32,
    pub fov_radius: u32,
    pub visible: bool,
    pub behavior: Behavior,
}

/// Actor object.
///
/// The `Actor` struct is similar to the `Object` struct, with some key
/// differences. Both can act; for example, a door can close by itself.
/// However, `Object`s do not have all the extra combat attributes that
/// `Actor`s do. Also, only one `Actor` can occupy a tile at a time, but an
/// `Actor` can coexist with an `Object` and will always be drawn on top of
/// it.
///
/// Actors live in an arena owned by the dungeon; `id` is the arena index.
#[derive(Debug)]
pub struct Actor {
    pub id: usize,
    pub name: String,

    pub c: char,
    pub color: Color,

    pub coord: Coord,
    pub turn: GameRatio,
    pub speed: GameRatio,

    pub hp_cur: i32,
    pub hp_max: u32,
    pub fov_radius: u32,

    pub visible: bool,

    pub behavior: Behavior,
}

/// Well-formedness of an actor: its turn and speed are well-formed ratios
/// and the speed is positive.
pub open spec fn actor_wf(a: Actor) -> bool {
    &&& gr_wf(a.turn)
    &&& gr_wf(a.speed)
    &&& a.speed.num >= 1
}

/// Value-level statement that `r` is the saturating exact sum `a + b`: the
/// reduced exact sum where it fits, and the maximal ratio otherwise.
pub open spec fn gr_add_sat_rel(a: GameRatio, b: GameRatio, r: GameRatio) -> bool {
    &&& gr_sum_fits(a, b) ==> r.num == gr_red_num(a, b) && r.den == gr_red_den(a, b)
    &&& !gr_sum_fits(a, b) ==> gr_is_max(r)
}

impl Actor {
    /// Creates a new actor at the given coordinates from its stat block.
    /// Its first scheduled turn is one speed step after `now`, so a newly
    /// spawned actor never acts before the entity whose turn it is.
    pub fn new(coord: Coord, data: &ActorData, now: GameRatio) -> (r: Actor)
        requires
            gr_wf(now),
            gr_wf(data.speed),
            data.speed.num >= 1,
            data.hp <= i32::MAX,
        ensures
            actor_wf(r),
            r.coord == coord,
            r.name == data.name,
            r.c == data.c,
            r.color == data.color,
            r.speed == data.speed,
            r.hp_cur == data.hp,
            r.hp_max == data.hp,
            r.fov_radius == data.fov_radius,
            r.visible == data.visible,
            r.behavior == data.behavior,
            gr_add_sat_rel(now, data.speed, r.turn),
            gr_le(now, r.turn),
    {
        let turn = now.add_sat(data.speed);
        proof {
            crate::defs::lemma_add_sat_ge(now, data.speed, turn);
        }
        Actor {
            id: 0,
            name: data.name.clone(),
            c: data.c,
            color: data.color,
            coord,
            turn,
            speed: data.speed,
            hp_cur: data.hp as i32,
            hp_max: data.hp,
            fov_radius: data.fov_radius,
            visible: data.visible,
            behavior: data.behavior,
        }
    }

    /// Creates an actor from its stat block and adds it to the dungeon at
    /// `coord`, scheduled one speed step after the current game turn.
    /// Fails, leaving the dungeon unchanged, exactly when `coord` is out of
    /// bounds or already holds an actor.
    pub fn insert_new(
        dungeon: &mut crate::dungeon::Dungeon,
        coord: Coord,
        actor_data: &ActorData,
    ) -> (r: crate::GameResult<()>)
        requires
            old(dungeon).wf(),
            gr_wf(actor_data.speed),
            actor_data.speed.num >= 1,
            actor_data.hp <= i32::MAX,
        ensures
            final (dungeon).wf(),
            r is Ok <==> old(dungeon).in_bounds_spec(coord) && old(dungeon).tile_at(
                coord,
            ).actor is None,
            r matches Err(e) ==> *final (dungeon) == *old(dungeon) && e is UnexpectedError,
            final (dungeon).spec_width() == old(dungeon).spec_width(),
            final (dungeon).spec_height() == old(dungeon).spec_height(),
            r is Ok ==> ({
                let id = old(dungeon).spec_actors().len() as usize;
                let a = final (dungeon).actor_at(id as int);
                &&& final (dungeon).spec_actors() == old(dungeon).spec_actors().push(
                    Option::Some(a),
                )
                &&& a.id == id
                &&& a.coord == coord
                &&& a.name == actor_data.name
                &&& a.speed == actor_data.speed
                &&& a.behavior == actor_data.behavior
                &&& gr_add_sat_rel(old(dungeon).spec_turn(), actor_data.speed, a.turn)
                &&& final (dungeon).spec_aq() == old(dungeon).spec_aq().push(
                    crate::dungeon::QEntry { turn: a.turn, id },
                )
                &&& final (dungeon).spec_objects() == old(dungeon).spec_objects()
                &&& final (dungeon).spec_oq() == old(dungeon).spec_oq()
                &&& final (dungeon).spec_turn() == old(dungeon).spec_turn()
            }),
    {
        if !dungeon.in_bounds(coord) {
            return crate::error::err_unexpected("Actor coordinate out of bounds");
        }
        if dungeon.tile(coord).actor.is_some() {
            return crate::error::err_unexpected("Actor tile already occupied");
        }
        let a = Actor::new(coord, actor_data, dungeon.turn());
        let ghost av = a;
        let ghost old_len = dungeon.spec_actors().len() as int;
        dungeon.add_actor(a);
        proof {
            assert(dungeon.spec_actors()[old_len] == Option::Some(
                Actor { id: old_len as usize, ..av },
            ));
            assert(dungeon.actor_at(old_len) == (Actor { id: old_len as usize, ..av }));
        }
        Ok(())
    }

    /// Returns the name associated with this actor.
    pub fn name(&self) -> (r: String)
        ensures
            r == self.name,
    {
        self.name.clone()
    }

    /// Generates and returns the description of this actor.
    pub fn description(&self) -> (r: String)
        ensures
            r == self.name,
    {
        self.name.clone()
    }

    /// Returns this actor's coordinates.
    pub fn coord(&self) -> (r: Coord)
        ensures
            r == self.coord,
    {
        self.coord
    }

    /// Sets this actor's coordinates.
    pub fn set_coord(&mut self, coord: Coord)
        ensures
            *final (self) == (Actor { coord, ..*old(self) }),
    {
        self.coord = coord;
    }

    /// Returns this actor's next turn value.
    pub fn turn(&self) -> (r: GameRatio)
        ensures
            r == self.turn,
    {
        self.turn
    }

    /// Updates this actor's turn based on its speed: the exact rational sum
    /// where it fits, saturated at the maximal turn value otherwise. The
    /// turn value never moves backwards.
    pub fn update_turn(&mut self)
        requires
            actor_wf(*old(self)),
        ensures
            actor_wf(*final (self)),
            *final (self) == (Actor { turn: final (self).turn, ..*old(self) }),
            gr_add_sat_rel(old(self).turn, old(self).speed, final (self).turn),
            gr_le(old(self).turn, final (self).turn),
    {
        let t = self.turn.add_sat(self.speed);
        proof {
            crate::defs::lemma_add_sat_ge(self.turn, self.speed, t);
        }
        self.turn = t;
    }

    /// Returns this actor's base speed.
    pub fn speed(&self) -> (r: GameRatio)
        ensures
            r == self.speed,
    {
        self.speed
    }

    /// Whether this actor is currently visible.
    pub fn visible(&self) -> (r: bool)
        ensures
            r == self.visible,
    {
        self.visible
    }

    /// Returns this actor's behavior value.
    pub fn behavior(&self) -> (r: Behavior)
        ensures
            r == self.behavior,
    {
        self.behavior
    }

    /// Sets this actor's behavior value.
    pub fn set_behavior(&mut self, behavior: Behavior)
        ensures
            *final (self) == (Actor { behavior, ..*old(self) }),
    {
        self.behavior = behavior;
    }

    /// An exact copy of this actor.
    pub fn clone_actor(&self) -> (r: Actor)
        ensures
            r == *self,
    {
        Actor {
            id: self.id,
            name: self.name.clone(),
            c: self.c,
            color: self.color,
            coord: self.coord,
            turn: self.turn,
            speed: self.speed,
            hp_cur: self.hp_cur,
            hp_max: self.hp_max,
            fov_radius: self.fov_radius,
            visible: self.visible,
            behavior: self.behavior,
        }
    }
}

impl crate::ui::Draw for Actor {
    fn draw_c(&self) -> char {
        self.c
    }

    fn draw_color(&self) -> Color {
        self.color
    }
}

} // verus!
