//! Dungeon and scheduler tests: grid bookkeeping, the turn queues, and
//! the scenarios the design promises.

use taurus::actor::{Actor, ActorData, Behavior};
use taurus::console::Color;
use taurus::coord::Coord;
use taurus::defs::GameRatio;
use taurus::dungeon::{Dungeon, DungeonType};
use taurus::game_data::GameLoopOutcome;
use taurus::object::{Object, ObjectData, ObjectType};
use taurus::player::PlayerEvent;
use taurus::rng::dice;
use taurus::tile::{Staircase, TileInfo};

fn floor_info() -> TileInfo {
    TileInfo::new(String::from("floor"), '.', true, true, Staircase::NoStairs)
}

fn wall_info() -> TileInfo {
    TileInfo::new(String::from("wall"), '#', false, false, Staircase::NoStairs)
}

fn actor_data(name: &str, num: u32, den: u32, behavior: Behavior) -> ActorData {
    ActorData {
        name: String::from(name),
        c: 'a',
        color: Color { r: 255, g: 255, b: 255 },
        speed: GameRatio::new(num, den),
        hp: 10,
        fov_radius: 5,
        visible: true,
        behavior,
    }
}

fn object_data(name: &str, num: u32, den: u32, object_type: ObjectType) -> ObjectData {
    ObjectData {
        name: String::from(name),
        c: '+',
        color: Color { r: 128, g: 64, b: 0 },
        object_type,
        speed: GameRatio::new(num, den),
        transparent: false,
    }
}

fn setup_dungeon() -> Dungeon {
    let mut dungeon = Dungeon::new(0, DungeonType::Empty);
    dungeon.init_grid(20, 20, &floor_info()).unwrap();
    dungeon
}

#[test]
fn set_actor_coord() {
    let mut dungeon = setup_dungeon();
    let test = actor_data("test", 1, 1, Behavior::Hostile);

    let coord1 = Coord::new(0, 0);
    let coord2 = Coord::new(1, 1);
    let coord3 = Coord::new(2, 2);
    let coord4 = Coord::new(3, 3);
    let coord5 = Coord::new(4, 4);

    Actor::insert_new(&mut dungeon, coord1, &test).unwrap();
    Actor::insert_new(&mut dungeon, coord5, &test).unwrap();
    assert_eq!(dungeon.num_actors(), 2);

    dungeon.move_actor(coord1, coord2);
    dungeon.move_actor(coord2, coord3);
    dungeon.move_actor(coord3, coord4);
    dungeon.move_actor(coord4, coord1);

    // Test that the actor is located at (0,0).
    let id = match dungeon.tile(coord1).actor {
        Some(id) => id,
        None => panic!(),
    };
    assert_eq!(dungeon.actor_ref(id).coord(), coord1);
    assert_eq!(dungeon.num_actors(), 2);
}

// Tests that the game queue system is working.
#[test]
fn game_queue() {
    let mut dungeon = setup_dungeon();
    let actor_test = actor_data("test", 1, 1, Behavior::Hostile);
    let actor_slow = actor_data("test_slow", 7, 2, Behavior::Hostile);
    let object_slow = object_data("test_slow", 37, 10, ObjectType::Trap);

    let coord1 = Coord::new(0, 0);
    let coord2 = Coord::new(1, 1);

    let mut a_turn: Option<GameRatio> = None;
    let mut o_turn: Option<GameRatio> = None;

    Actor::insert_new(&mut dungeon, coord1, &actor_test).unwrap();
    Actor::insert_new(&mut dungeon, coord2, &actor_slow).unwrap();
    Object::insert_new(&mut dungeon, coord1, &object_slow, dice(1, 2)).unwrap();

    assert_eq!(dungeon.peek_object().name(), "test_slow");
    assert_eq!(dungeon.peek_object().turn(), GameRatio::new(37, 10));

    assert_eq!(dungeon.peek_actor().name(), "test");
    assert_eq!(dungeon.peek_actor().turn(), GameRatio::new(1, 1));
    let _ = dungeon.step_turn(&mut a_turn, &mut o_turn, PlayerEvent::Idle);
    assert_eq!(dungeon.peek_actor().name(), "test");
    assert_eq!(dungeon.peek_actor().turn(), GameRatio::new(2, 1));
    let _ = dungeon.step_turn(&mut a_turn, &mut o_turn, PlayerEvent::Idle);
    assert_eq!(dungeon.peek_actor().name(), "test");
    assert_eq!(dungeon.peek_actor().turn(), GameRatio::new(3, 1));
    let _ = dungeon.step_turn(&mut a_turn, &mut o_turn, PlayerEvent::Idle);
    assert_eq!(dungeon.peek_actor().name(), "test_slow");
    assert_eq!(dungeon.peek_actor().turn(), GameRatio::new(7, 2));

    let _ = dungeon.step_turn(&mut a_turn, &mut o_turn, PlayerEvent::Idle);
    assert_eq!(dungeon.peek_object().name(), "test_slow");
    assert_eq!(dungeon.peek_object().turn(), GameRatio::new(37, 10));
    let _ = dungeon.step_turn(&mut a_turn, &mut o_turn, PlayerEvent::Idle);
    assert_eq!(dungeon.peek_actor().name(), "test");
    assert_eq!(dungeon.peek_actor().turn(), GameRatio::new(4, 1));
    assert_eq!(dungeon.peek_object().name(), "test_slow");
    assert_eq!(dungeon.peek_object().turn(), GameRatio::new(37 * 2, 10));
}

// Two actors of speeds 1 and 1/2 that both start at turn 1: over six
// steps the half-speed actor acts twice as often, with the exact turn
// sequences 2, 3 and 1.5, 2, 2.5, 3, and the global turn never decreases.
#[test]
fn scheduler_fairness_scenario() {
    let mut dungeon = Dungeon::new(0, DungeonType::Empty);
    dungeon.init_grid(10, 10, &floor_info()).unwrap();

    let a_data = actor_data("A", 1, 1, Behavior::Hostile);
    let b_data = actor_data("B", 1, 2, Behavior::Hostile);

    // Both actors start with their first turn at exactly 1.
    let a = Actor::new(Coord::new(0, 0), &a_data, GameRatio::new(0, 1));
    let b = Actor::new(Coord::new(1, 1), &b_data, GameRatio::new(1, 2));
    assert_eq!(a.turn(), GameRatio::new(1, 1));
    assert_eq!(b.turn(), GameRatio::new(1, 1));
    dungeon.add_actor(a);
    dungeon.add_actor(b);

    let mut a_turn: Option<GameRatio> = None;
    let mut o_turn: Option<GameRatio> = None;
    let mut last_turn = dungeon.turn();
    let mut a_expected = vec![
        GameRatio::new(2, 1),
        GameRatio::new(3, 1),
    ];
    let mut b_expected = vec![
        GameRatio::new(3, 2),
        GameRatio::new(2, 1),
        GameRatio::new(5, 2),
        GameRatio::new(3, 1),
    ];
    a_expected.reverse();
    b_expected.reverse();

    for _ in 0..6 {
        let before_a = dungeon.actor_ref(0).turn();
        let before_b = dungeon.actor_ref(1).turn();
        let outcome = dungeon.step_turn(&mut a_turn, &mut o_turn, PlayerEvent::Idle);
        assert!(matches!(outcome, GameLoopOutcome::Continue));

        // Global turn is non-decreasing across steps.
        let now = dungeon.turn();
        assert!(last_turn.le(&now));
        last_turn = now;

        // Record which actor advanced and check its new turn value.
        let after_a = dungeon.actor_ref(0).turn();
        let after_b = dungeon.actor_ref(1).turn();
        if after_a != before_a {
            assert_eq!(after_a, a_expected.pop().unwrap());
        } else {
            assert_ne!(after_b, before_b);
            assert_eq!(after_b, b_expected.pop().unwrap());
        }
    }
    assert!(a_expected.is_empty());
    assert!(b_expected.is_empty());
    // The half-speed actor was activated twice as often.
    assert_eq!(dungeon.actor_ref(0).turn(), GameRatio::new(3, 1));
    assert_eq!(dungeon.actor_ref(1).turn(), GameRatio::new(3, 1));
}

// A dungeon with no open tile reports "no space" instead of looping.
#[test]
fn random_open_coord_full_grid() {
    let mut walls = Dungeon::new(0, DungeonType::Empty);
    walls.init_grid(3, 3, &wall_info()).unwrap();
    assert!(walls.random_open_coord_actor().is_none());

    let mut crowded = Dungeon::new(0, DungeonType::Empty);
    crowded.init_grid(2, 2, &floor_info()).unwrap();
    let data = actor_data("filler", 1, 1, Behavior::Hostile);
    for x in 0..2 {
        for y in 0..2 {
            Actor::insert_new(&mut crowded, Coord::new(x, y), &data).unwrap();
        }
    }
    assert!(crowded.random_open_coord_actor().is_none());

    let mut open = Dungeon::new(0, DungeonType::Empty);
    open.init_grid(2, 2, &floor_info()).unwrap();
    let c = open.random_open_coord_actor().unwrap();
    assert!(open.in_bounds(c));
}

// An actor and an object may share a tile, but never two actors or two
// objects; the checked entry points report the collision.
#[test]
fn occupancy_errors() {
    let mut dungeon = setup_dungeon();
    let data = actor_data("a", 1, 1, Behavior::Hostile);
    let odata = object_data("o", 1, 1, ObjectType::Trap);
    let c = Coord::new(3, 3);

    Actor::insert_new(&mut dungeon, c, &data).unwrap();
    Object::insert_new(&mut dungeon, c, &odata, true).unwrap();

    let dup_actor = Actor::insert_new(&mut dungeon, c, &data);
    assert!(matches!(
        dup_actor,
        Err(taurus::error::GameError::UnexpectedError { .. })
    ));
    let dup_object = Object::insert_new(&mut dungeon, c, &odata, true);
    assert!(dup_object.is_err());

    let oob = Actor::insert_new(&mut dungeon, Coord::new(-1, 0), &data);
    assert!(oob.is_err());
}

#[test]
fn remove_actor_unschedules() {
    let mut dungeon = setup_dungeon();
    let data = actor_data("a", 1, 1, Behavior::Hostile);
    let c = Coord::new(2, 2);
    Actor::insert_new(&mut dungeon, c, &data).unwrap();
    assert_eq!(dungeon.num_actors(), 1);
    let removed = dungeon.remove_actor(c);
    assert_eq!(removed.name(), "a");
    assert_eq!(dungeon.num_actors(), 0);
    assert!(dungeon.tile(c).actor.is_none());
}

#[test]
fn dungeon_type_from_str() {
    assert!(matches!(DungeonType::from_str("room"), Ok(DungeonType::Room)));
    assert!(matches!(
        DungeonType::from_str("empty"),
        Ok(DungeonType::Empty)
    ));
    assert!(matches!(
        DungeonType::from_str("cavern"),
        Err(taurus::error::GameError::ConversionError { .. })
    ));
}

// With no actor scheduled but an object queued, the object side still
// acts: the empty side's peeked turn behaves as an infinite sentinel.
#[test]
fn objects_act_without_actors() {
    let mut dungeon = setup_dungeon();
    let door = object_data("door", 2, 1, ObjectType::Door);
    Object::insert_new(&mut dungeon, Coord::new(3, 3), &door, false).unwrap();

    let mut a_turn = None;
    let mut o_turn = None;
    let outcome = dungeon.step_turn(&mut a_turn, &mut o_turn, PlayerEvent::Idle);
    assert_eq!(outcome, GameLoopOutcome::Continue);
    assert_eq!(dungeon.turn(), GameRatio::new(2, 1));
    assert_eq!(dungeon.peek_object().turn(), GameRatio::new(4, 1));
}

// The no-entities outcome is reported only when both scheduling queues
// are empty.
#[test]
fn no_entities_only_when_both_queues_empty() {
    let mut dungeon = setup_dungeon();
    let mut a_turn = None;
    let mut o_turn = None;
    let outcome = dungeon.step_turn(&mut a_turn, &mut o_turn, PlayerEvent::Idle);
    assert_eq!(outcome, GameLoopOutcome::NoActors);
}

// A placement restricted to a rectangle lands inside it, and reports "no
// space" exactly when the rectangle holds no open tile.
#[test]
fn open_coord_restricted_to_area() {
    let dungeon = setup_dungeon();
    let area = taurus::rectangle::Rectangle::new(5, 6, 9, 11);
    for _ in 0..20 {
        let c = dungeon.random_open_coord_actor_in(&area).unwrap();
        assert!(5 <= c.x && c.x <= 9);
        assert!(6 <= c.y && c.y <= 11);
    }

    let mut walled = Dungeon::new(0, DungeonType::Empty);
    walled.init_grid(4, 4, &wall_info()).unwrap();
    let full = taurus::rectangle::Rectangle::new(0, 0, 3, 3);
    assert!(walled.random_open_coord_actor_in(&full).is_none());
}
