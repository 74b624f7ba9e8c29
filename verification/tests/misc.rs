//! Tests for the smaller pieces: parsing tags, colors, items, the view
//! window, and player events.

use taurus::actor::Behavior;
use taurus::console::Color;
use taurus::coord::Coord;
use taurus::defs::GameRatio;
use taurus::dungeon::{Dungeon, DungeonType};
use taurus::error::GameError;
use taurus::item::{Item, ItemStack, ItemStash};
use taurus::object::ObjectType;
use taurus::player::{player_process_event, PlayerEvent};
use taurus::tile::{Staircase, TileInfo};
use taurus::ui::{calc_game_view, UiSettings};

#[test]
fn tag_parsing_accepts_exactly_the_known_strings() {
    assert!(matches!(Behavior::from_str("player"), Ok(Behavior::Player)));
    assert!(matches!(Behavior::from_str("hunting"), Ok(Behavior::Hunting)));
    assert!(matches!(
        Behavior::from_str("sleepy"),
        Err(GameError::ConversionError { .. })
    ));

    assert!(matches!(ObjectType::from_str("door"), Ok(ObjectType::Door)));
    assert!(matches!(ObjectType::from_str("trap"), Ok(ObjectType::Trap)));
    assert!(ObjectType::from_str("lever").is_err());

    assert!(matches!(Staircase::from_str("updown"), Ok(Staircase::UpDown)));
    assert!(matches!(Staircase::from_str("none"), Ok(Staircase::NoStairs)));
    assert!(Staircase::from_str("sideways").is_err());
}

#[test]
fn color_from_code() {
    let c = Color::from_code("#ff8000").unwrap();
    assert_eq!(c, Color { r: 255, g: 128, b: 0 });
    assert!(matches!(
        Color::from_code("bogus"),
        Err(GameError::ConversionError { .. })
    ));
}

#[test]
fn item_stash_operations() {
    let mut stash = ItemStash::default();
    assert!(stash.is_empty());
    let sword = ItemStack {
        item: Item { c: '/', color: Color { r: 200, g: 200, b: 200 } },
        amount: 1,
    };
    let coins = ItemStack {
        item: Item { c: '$', color: Color { r: 255, g: 215, b: 0 } },
        amount: 30,
    };
    stash.add(sword);
    stash.add(coins);
    assert_eq!(stash.len(), 2);
    assert_eq!(stash.top().amount, 30);
    let removed = stash.remove(0);
    assert_eq!(removed.amount, 1);
    assert_eq!(stash.len(), 1);
    assert_eq!(stash.top().amount, 30);
}

#[test]
fn game_view_centers_on_player() {
    let settings = UiSettings::new(30, 20);
    let view = calc_game_view(&settings, Coord::new(50, 40));
    assert_eq!(view.left, 35);
    assert_eq!(view.right, 65);
    assert_eq!(view.top, 30);
    assert_eq!(view.bottom, 50);
}

#[test]
fn player_moves_and_quits() {
    let floor = TileInfo::new(String::from("floor"), '.', true, true, Staircase::NoStairs);
    let mut dungeon = Dungeon::new(0, DungeonType::Empty);
    dungeon.init_grid(5, 5, &floor).unwrap();
    let data = taurus::actor::ActorData {
        name: String::from("hero"),
        c: '@',
        color: Color { r: 255, g: 255, b: 255 },
        speed: GameRatio::new(1, 1),
        hp: 20,
        fov_radius: 4,
        visible: true,
        behavior: Behavior::Player,
    };
    taurus::actor::Actor::insert_new(&mut dungeon, Coord::new(2, 2), &data).unwrap();
    let id = dungeon.tile(Coord::new(2, 2)).actor.unwrap();

    let (res, used) = player_process_event(&mut dungeon, id, PlayerEvent::MoveE);
    assert!(matches!(res, taurus::dungeon::ActResult::Continue));
    assert!(used);
    assert_eq!(dungeon.actor_ref(id).coord(), Coord::new(3, 2));

    let (res, used) = player_process_event(&mut dungeon, id, PlayerEvent::Quit);
    assert!(matches!(res, taurus::dungeon::ActResult::QuitGame));
    assert!(!used);
}

#[test]
fn fov_window_tracks_player() {
    let floor = TileInfo::new(String::from("floor"), '.', true, true, Staircase::NoStairs);
    let mut dungeon = Dungeon::new(0, DungeonType::Empty);
    dungeon.init_grid(9, 9, &floor).unwrap();
    dungeon.calc_fov(Coord::new(4, 4), 2);
    // Transparent floor inside the window is visible; outside it is not.
    assert!(dungeon.visible(Coord::new(4, 4)));
    assert!(dungeon.visible(Coord::new(2, 2)));
    assert!(!dungeon.visible(Coord::new(8, 8)));
    dungeon.set_visible(Coord::new(4, 4), false);
    assert!(!dungeon.visible(Coord::new(4, 4)));
}
