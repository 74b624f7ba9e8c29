//! Generator tests: non-overlapping room placement, doors on shared
//! walls, and the rasterization round trip.

use taurus::console::Color;
use taurus::coord::Coord;
use taurus::defs::GameRatio;
use taurus::dungeon::{Dungeon, DungeonType};
use taurus::generate::{
    gen_dungeon_room, gen_dungeon_start, gen_rooms, init_dungeon_from_rooms, DungeonRoomParams,
};
use taurus::object::{Object, ObjectData, ObjectType};
use taurus::rectangle::Rectangle;
use taurus::tile::{Staircase, TileInfo};

fn floor_info() -> TileInfo {
    TileInfo::new(String::from("floor"), '.', true, true, Staircase::NoStairs)
}

fn wall_info() -> TileInfo {
    TileInfo::new(String::from("wall"), '#', false, false, Staircase::NoStairs)
}

fn door_data() -> ObjectData {
    ObjectData {
        name: String::from("wooden door"),
        c: '+',
        color: Color { r: 128, g: 64, b: 0 },
        object_type: ObjectType::Door,
        speed: GameRatio::new(10, 1),
        transparent: false,
    }
}

fn params() -> DungeonRoomParams {
    DungeonRoomParams {
        min_width: 2,
        max_width: 5,
        min_height: 2,
        max_height: 5,
        min_num_rooms: 4,
        max_num_rooms: 8,
    }
}

// No two generated rooms' wall-inclusive bounding boxes intersect, and
// every door lies on the single shared wall line between the two rooms it
// connects, within the overlap of their spans.
#[test]
fn rooms_never_overlap_and_doors_sit_on_shared_walls() {
    for _ in 0..20 {
        let (rooms, doors) = gen_rooms(&params()).unwrap();
        assert!(!rooms.is_empty());
        assert_eq!(doors.len(), rooms.len() - 1);

        for i in 0..rooms.len() {
            for j in 0..rooms.len() {
                if i != j {
                    assert!(!rooms[i].overlaps(&rooms[j]));
                }
            }
        }

        for d in &doors {
            let a = &rooms[d.room_a];
            let b = &rooms[d.room_b];
            let c = d.coord;
            let top = a.top.max(b.top);
            let bottom = a.bottom.min(b.bottom);
            let left = a.left.max(b.left);
            let right = a.right.min(b.right);
            let east = b.left == a.right + 2 && c.x == a.right + 1 && top <= c.y && c.y <= bottom;
            let west = a.left == b.right + 2 && c.x == b.right + 1 && top <= c.y && c.y <= bottom;
            let south = b.top == a.bottom + 2 && c.y == a.bottom + 1 && left <= c.x && c.x <= right;
            let north = a.top == b.bottom + 2 && c.y == b.bottom + 1 && left <= c.x && c.x <= right;
            assert!(east || west || south || north);
        }
    }
}

// Translating the room set by the returned (dx, dy) and rasterizing, then
// reading back the floor tiles, reproduces exactly the original room
// interiors: no off-by-one growth or shrink.
#[test]
fn rasterize_round_trip() {
    let rooms = vec![
        Rectangle::new(0, 0, 2, 2),
        Rectangle::new(4, 0, 6, 2),
        Rectangle::new(-4, -3, -2, -2),
    ];
    let mut dungeon = Dungeon::new(0, DungeonType::Room);
    let (dx, dy) =
        init_dungeon_from_rooms(&mut dungeon, &rooms, &wall_info(), &floor_info()).unwrap();

    let w = dungeon.width() as i32;
    let h = dungeon.height() as i32;
    for x in 0..w {
        for y in 0..h {
            let tile = dungeon.tile(Coord::new(x, y));
            let rx = x - dx;
            let ry = y - dy;
            let covered = rooms.iter().any(|r| {
                r.left <= rx && rx <= r.right && r.top <= ry && ry <= r.bottom
            });
            assert_eq!(tile.passable(), covered);
        }
    }
}

// A door object between two adjacent rooms sits on a floor tile, and its
// passability reflects its active flag.
#[test]
fn door_tile_is_floor_and_tracks_activity() {
    let rooms = vec![Rectangle::new(0, 0, 2, 2), Rectangle::new(4, 0, 6, 2)];
    let mut dungeon = Dungeon::new(0, DungeonType::Room);
    let (dx, dy) =
        init_dungeon_from_rooms(&mut dungeon, &rooms, &wall_info(), &floor_info()).unwrap();

    // The shared wall line lies at x == 3; put the door in the middle.
    let door_coord = Coord::new(3 + dx, 1 + dy);
    dungeon.set_tile_kind(door_coord, floor_info());
    Object::insert_new(&mut dungeon, door_coord, &door_data(), false).unwrap();

    let tile = dungeon.tile(door_coord);
    assert!(tile.passable(), "door tile must be floor, not wall");
    let id = tile.object.unwrap();
    assert!(!dungeon.object_ref(id).passable(), "closed door blocks");
    dungeon.set_object_active(id, true);
    assert!(dungeon.object_ref(id).passable(), "open door passes");
}

// The full room-method generator produces a well-formed level with floors
// and walls.
#[test]
fn gen_dungeon_room_produces_level() {
    let mut dungeon = Dungeon::new(0, DungeonType::Room);
    gen_dungeon_room(&mut dungeon, &params(), &wall_info(), &floor_info(), &door_data()).unwrap();
    assert!(dungeon.width() >= 3);
    assert!(dungeon.height() >= 3);
    let mut floors = 0;
    let mut walls = 0;
    for x in 0..dungeon.width() as i32 {
        for y in 0..dungeon.height() as i32 {
            if dungeon.tile(Coord::new(x, y)).passable() {
                floors += 1;
            } else {
                walls += 1;
            }
        }
    }
    assert!(floors >= 4, "at least one room interior");
    assert!(walls > 0, "a wall margin survives");
}

// The generator reports the seed room's interior in grid space: every
// coordinate of it is a floor tile, so the player can start inside the
// first room.
#[test]
fn start_room_is_reported_and_walkable() {
    let mut dungeon = Dungeon::new(0, DungeonType::Room);
    let start = gen_dungeon_start(&mut dungeon, &params(), &wall_info(), &floor_info(), &door_data())
        .unwrap()
        .expect("a room layout reports its seed room");
    assert!(1 <= start.left && start.left <= start.right);
    assert!(1 <= start.top && start.top <= start.bottom);
    assert!((start.right as usize) < dungeon.width() - 1);
    assert!((start.bottom as usize) < dungeon.height() - 1);
    for x in start.left..=start.right {
        for y in start.top..=start.bottom {
            assert!(dungeon.tile(Coord::new(x, y)).passable());
        }
    }
    let c = dungeon
        .random_open_coord_actor_in(&start)
        .expect("an empty room has open tiles");
    assert!(start.left <= c.x && c.x <= start.right);
    assert!(start.top <= c.y && c.y <= start.bottom);
}
