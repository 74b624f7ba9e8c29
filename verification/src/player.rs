//! Player-specific logic: turning input events into actions on the
//! dungeon. Polling the console for events is the caller's business; the
//! decisions taken for each event live here.

use crate::actor::Actor;
use crate::direction::CompassDirection;
use crate::dungeon::{ActResult, Dungeon};
use crate::coord::Coord;
use crate::object::Object;
use vstd::prelude::*;

verus! {

/// One decoded input event handed to the player's turn.
#[derive(Clone, Copy, Debug, PartialEq, Eq, Structural)]
pub enum PlayerEvent {
    /// Move one step west.
    MoveW,
    /// Move one step north.
    MoveN,
    /// Move one step east.
    MoveE,
    /// Move one step south.
    MoveS,
    /// Quit the game.
    Quit,
    /// An event the player's turn does not react to.
    Idle,
}

/// True exactly of the four movement events.
pub open spec fn is_move_event(e: PlayerEvent) -> bool {
    e is MoveW || e is MoveN || e is MoveE || e is MoveS
}

/// The compass direction a movement event asks for.
pub open spec fn event_dir(e: PlayerEvent) -> CompassDirection {
    match e {
        PlayerEvent::MoveW => CompassDirection::W,
        PlayerEvent::MoveN => CompassDirection::N,
        PlayerEvent::MoveE => CompassDirection::E,
        _ => CompassDirection::S,
    }
}

/// The coordinate one step from `c` in the direction a movement event asks
/// for.
pub open spec fn move_target(c: Coord, e: PlayerEvent) -> Coord {
    Coord {
        x: (c.x + crate::direction::Direction::unit_vec_spec(&event_dir(e)).0) as i32,
        y: (c.y + crate::direction::Direction::unit_vec_spec(&event_dir(e)).1) as i32,
    }
}

/// Whether processing `event` for a player standing at `c` uses up the
/// player's turn: exactly a movement event whose one-step target is
/// walkable does. Walking into an open door shuts it without using the
/// turn, and a quit or idle event uses nothing.
pub open spec fn consumes_turn(pre: Dungeon, c: Coord, event: PlayerEvent) -> bool {
    is_move_event(event) && pre.can_move_to(move_target(c, event))
}

/// Processes an input event for the live player actor `player_id`. Returns
/// the result of the action and true if the player used up a turn.
/// Quitting is signalled exactly by the quit event; a movement event onto a
/// walkable target moves the player there, one onto an open door shuts the
/// door instead, and everything else does nothing.
pub fn player_process_event(dungeon: &mut Dungeon, player_id: usize, event: PlayerEvent) -> (r: (
    ActResult,
    bool,
))
    requires
        old(dungeon).wf(),
        old(dungeon).actor_live(player_id as int),
    ensures
        final (dungeon).wf(),
        r.0 is QuitGame <==> event is Quit,
        !(r.0 is WindowClosed),
        event is Quit || event is Idle ==> r.1 == false && *final (dungeon) == *old(dungeon),
        r.1 == consumes_turn(
            *old(dungeon),
            old(dungeon).actor_at(player_id as int).coord,
            event,
        ),
        is_move_event(event) ==> ({
            let a = old(dungeon).actor_at(player_id as int);
            let target = move_target(a.coord, event);
            &&& r.0 is Continue
            &&& r.1 ==> ({
                &&& final (dungeon).actor_at(player_id as int).coord == target
                &&& final (dungeon).spec_actors() == old(dungeon).spec_actors().update(
                    player_id as int,
                    Option::Some(Actor { coord: target, ..a }),
                )
                &&& final (dungeon).spec_objects() == old(dungeon).spec_objects()
                &&& final (dungeon).spec_tiles() == old(dungeon).spec_tiles().update(
                    old(dungeon).idx_of(a.coord.x as int, a.coord.y as int),
                    (crate::tile::Tile { actor: Option::None, ..old(dungeon).tile_at(a.coord) }),
                ).update(
                    old(dungeon).idx_of(target.x as int, target.y as int),
                    (crate::tile::Tile {
                        actor: Option::Some(player_id),
                        ..old(dungeon).tile_at(target)
                    }),
                )
            })
            &&& !r.1 ==> final (dungeon).spec_actors() == old(dungeon).spec_actors() && final (dungeon).spec_tiles()
                == old(dungeon).spec_tiles()
            &&& forall|oid: int|
                old(dungeon).object_live(oid) ==> (#[trigger] final (dungeon).object_at(
                    oid,
                )).active == (if old(dungeon).move_shuts_door(target, oid) {
                    false
                } else {
                    old(dungeon).object_at(oid).active
                })
        }),
        final (dungeon).spec_objects().len() == old(dungeon).spec_objects().len(),
        final (dungeon).spec_aq() == old(dungeon).spec_aq(),
        final (dungeon).spec_oq() == old(dungeon).spec_oq(),
        final (dungeon).spec_turn() == old(dungeon).spec_turn(),
        final (dungeon).spec_width() == old(dungeon).spec_width(),
        final (dungeon).spec_height() == old(dungeon).spec_height(),
        final (dungeon).spec_danger_level() == old(dungeon).spec_danger_level(),
        final (dungeon).spec_dungeon_type() == old(dungeon).spec_dungeon_type(),
        forall|i: int| #[trigger] final (dungeon).actor_live(i) == old(dungeon).actor_live(i),
        forall|i: int|
            old(dungeon).actor_live(i) ==> #[trigger] final (dungeon).actor_at(i) == (Actor {
                coord: final (dungeon).actor_at(i).coord,
                ..old(dungeon).actor_at(i)
            }),
        forall|i: int| #[trigger] final (dungeon).object_live(i) == old(dungeon).object_live(i),
        forall|i: int|
            old(dungeon).object_live(i) ==> #[trigger] final (dungeon).object_at(i) == (Object {
                active: final (dungeon).object_at(i).active,
                ..old(dungeon).object_at(i)
            }),
{
    match event {
        PlayerEvent::MoveW => dungeon.try_move_dir(player_id, CompassDirection::W),
        PlayerEvent::MoveN => dungeon.try_move_dir(player_id, CompassDirection::N),
        PlayerEvent::MoveE => dungeon.try_move_dir(player_id, CompassDirection::E),
        PlayerEvent::MoveS => dungeon.try_move_dir(player_id, CompassDirection::S),
        PlayerEvent::Quit => (ActResult::QuitGame, false),
        PlayerEvent::Idle => (ActResult::Continue, false),
    }
}

/// Calculates FOV around the live player actor `player_id`, over the
/// player's field-of-view radius (limited to the supported window size).
/// This should be called whenever the player moves.
pub fn calc_fov(dungeon: &mut Dungeon, player_id: usize)
    requires
        old(dungeon).wf(),
        old(dungeon).actor_live(player_id as int),
        old(dungeon).spec_width() + 4096 <= i32::MAX,
        old(dungeon).spec_height() + 4096 <= i32::MAX,
    ensures
        final (dungeon).wf(),
        final (dungeon).spec_tiles() == old(dungeon).spec_tiles(),
        final (dungeon).spec_actors() == old(dungeon).spec_actors(),
        final (dungeon).spec_objects() == old(dungeon).spec_objects(),
        final (dungeon).spec_aq() == old(dungeon).spec_aq(),
        final (dungeon).spec_oq() == old(dungeon).spec_oq(),
        final (dungeon).spec_turn() == old(dungeon).spec_turn(),
        final (dungeon).spec_width() == old(dungeon).spec_width(),
        final (dungeon).spec_height() == old(dungeon).spec_height(),
        ({
            let a = old(dungeon).actor_at(player_id as int);
            let r: int = if a.fov_radius > 4096 {
                4096
            } else {
                a.fov_radius as int
            };
            &&& final (dungeon).spec_fov_start() == (Coord {
                x: (a.coord.x - r) as i32,
                y: (a.coord.y - r) as i32,
            })
            &&& final (dungeon).spec_fov_end() == (Coord {
                x: (a.coord.x + r) as i32,
                y: (a.coord.y + r) as i32,
            })
            &&& final (dungeon).spec_fov_vis() == final (dungeon).fov_mask(
                final (dungeon).spec_fov_start(),
                2 * r + 1,
            )
        }),
{
    let origin = dungeon.actor_ref(player_id).coord;
    let fov_radius = dungeon.actor_ref(player_id).fov_radius;
    let radius: i32 = if fov_radius > 4096 {
        4096
    } else {
        fov_radius as i32
    };
    dungeon.calc_fov(origin, radius);
}

} // verus!
