//! Dungeon generation: growing a set of non-overlapping rooms by random
//! adjacency from a seed room, connecting adjacent rooms with doors, and
//! rasterizing the result into the tile grid.

use crate::coord::Coord;
use crate::dungeon::{lemma_idx_bound, lemma_idx_inj, Dungeon};
use crate::direction::CardinalDirection;
use crate::error::err_unexpected;
use crate::math::{imax, imin, min_max, overlaps, ranges_overlap};
use crate::rectangle::{rect_contains, rect_overlap, rect_wf, Rectangle};
use crate::rng::{rand_int, rand_usize, PickRandom};
use crate::tile::{Tile, TileInfo};
use crate::GameResult;
use vstd::prelude::*;

verus! {

/// A struct for storing data for a single `Room`, used in dungeon
/// generation. Note that the four bounds correspond to the `Room`'s
/// interior and do not include its walls.
#[derive(Clone, Copy, Eq, PartialEq, Structural, Debug)]
pub struct Room {
    pub left: i32,
    pub top: i32,
    pub right: i32,
    pub bottom: i32,
}

impl Room {
    /// Returns a new `Room` with the given bounds, normalized so that
    /// `left <= right` and `top <= bottom`.
    pub fn new(left: i32, top: i32, right: i32, bottom: i32) -> (r: Room)
        ensures
            r.left == if left <= right { left } else { right },
            r.right == if left <= right { right } else { left },
            r.top == if top <= bottom { top } else { bottom },
            r.bottom == if top <= bottom { bottom } else { top },
    {
        let (left, right) = min_max(left, right);
        let (top, bottom) = min_max(top, bottom);
        Room { left, top, right, bottom }
    }

    /// Returns a new `Room` created from given `width` and `height`.
    pub fn from_dimensions(left: i32, top: i32, width: usize, height: usize) -> (r: Room)
        requires
            1 <= width <= i32::MAX,
            1 <= height <= i32::MAX,
            left + width - 1 <= i32::MAX,
            top + height - 1 <= i32::MAX,
        ensures
            r.left == left,
            r.top == top,
            r.right == left + width - 1,
            r.bottom == top + height - 1,
    {
        Room { left, top, right: left + (width as i32 - 1), bottom: top + (height as i32 - 1) }
    }

    /// Returns true if `self` and `other` overlap. Note that rooms whose
    /// walls touch count as overlapping: interiors must be separated by
    /// more than a single shared wall.
    pub fn overlaps(&self, other: &Self) -> (r: bool)
        requires
            self.left > i32::MIN,
            self.top > i32::MIN,
            other.left > i32::MIN,
            other.top > i32::MIN,
        ensures
            r == {
                &&& ranges_overlap(self.left - 1, self.right as int, other.left - 1, other.right as int)
                &&& ranges_overlap(self.top - 1, self.bottom as int, other.top - 1, other.bottom as int)
            },
    {
        overlaps(self.left - 1, self.right, other.left - 1, other.right) && overlaps(
            self.top - 1,
            self.bottom,
            other.top - 1,
            other.bottom,
        )
    }
}

/// The numeric configuration of the room generator, read from the dungeon
/// profile: closed ranges for room dimensions and for the room count.
#[derive(Clone, Copy, Debug)]
pub struct DungeonRoomParams {
    pub min_width: usize,
    pub max_width: usize,
    pub min_height: usize,
    pub max_height: usize,
    pub min_num_rooms: usize,
    pub max_num_rooms: usize,
}

/// Validity of generator configuration: all ranges ordered and small
/// enough that every generated coordinate stays far from the `i32` edges.
pub open spec fn params_wf(p: DungeonRoomParams) -> bool {
    &&& 1 <= p.min_width <= p.max_width <= 1000
    &&& 1 <= p.min_height <= p.max_height <= 1000
    &&& 1 <= p.min_num_rooms <= p.max_num_rooms <= 1000
}

/// All four bounds of `r` lie within `b` of the origin.
pub open spec fn room_bounded(r: Rectangle, b: int) -> bool {
    -b <= r.left && r.right <= b && -b <= r.top && r.bottom <= b
}

/// True if `c` lies on the single wall line between the adjacent rooms `a`
/// and `b`, within the overlap of their perpendicular spans. Two rooms are
/// adjacent when their interiors are exactly two tiles apart, leaving one
/// shared wall line between them.
pub open spec fn door_on_shared_wall(a: Rectangle, b: Rectangle, c: Coord) -> bool {
    let top = if a.top >= b.top {
        a.top as int
    } else {
        b.top as int
    };
    let bottom = if a.bottom <= b.bottom {
        a.bottom as int
    } else {
        b.bottom as int
    };
    let left = if a.left >= b.left {
        a.left as int
    } else {
        b.left as int
    };
    let right = if a.right <= b.right {
        a.right as int
    } else {
        b.right as int
    };
    ||| (b.left == a.right + 2 && c.x == a.right + 1 && top <= c.y <= bottom)
    ||| (a.left == b.right + 2 && c.x == b.right + 1 && top <= c.y <= bottom)
    ||| (b.top == a.bottom + 2 && c.y == a.bottom + 1 && left <= c.x <= right)
    ||| (a.top == b.bottom + 2 && c.y == b.bottom + 1 && left <= c.x <= right)
}

/// A door recorded during generation: its coordinate in room space, and
/// the indices of the two rooms it connects.
#[derive(Clone, Copy, Debug)]
pub struct DoorSpec {
    pub coord: Coord,
    pub room_a: usize,
    pub room_b: usize,
}

/// Checks if `room` does not collide with any of the rooms in `room_list`.
pub fn check_room_free(room: &Rectangle, room_list: &Vec<Rectangle>) -> (r: bool)
    requires
        room.left > i32::MIN,
        room.top > i32::MIN,
        forall|j: int|
            0 <= j < room_list@.len() ==> (#[trigger] room_list@[j]).left > i32::MIN
                && room_list@[j].top > i32::MIN,
    ensures
        r == forall|j: int| 0 <= j < room_list@.len() ==> !rect_overlap(*room, #[trigger] room_list@[j]),
{
    let mut j: usize = 0;
    while j < room_list.len()
        invariant
            0 <= j <= room_list@.len(),
            room.left > i32::MIN,
            room.top > i32::MIN,
            forall|k: int|
                0 <= k < room_list@.len() ==> (#[trigger] room_list@[k]).left > i32::MIN
                    && room_list@[k].top > i32::MIN,
            forall|k: int| 0 <= k < j ==> !rect_overlap(*room, #[trigger] room_list@[k]),
        decreases room_list@.len() - j,
    {
        if room.overlaps(&room_list[j]) {
            return false;
        }
        j = j + 1;
    }
    true
}

/// Generates the number of rooms for a dungeon depth.
pub fn gen_num_rooms(params: &DungeonRoomParams) -> (r: usize)
    requires
        params_wf(*params),
    ensures
        params.min_num_rooms <= r <= params.max_num_rooms,
{
    rand_usize(params.min_num_rooms, params.max_num_rooms)
}

/// Generates a random width for a room.
pub fn gen_room_width(params: &DungeonRoomParams) -> (r: usize)
    requires
        params_wf(*params),
    ensures
        params.min_width <= r <= params.max_width,
{
    rand_usize(params.min_width, params.max_width)
}

/// Generates a random height for a room.
pub fn gen_room_height(params: &DungeonRoomParams) -> (r: usize)
    requires
        params_wf(*params),
    ensures
        params.min_height <= r <= params.max_height,
{
    rand_usize(params.min_height, params.max_height)
}

// Generates a door coordinate on the shared wall between the adjacent
// rooms `room` and `new_room`, randomly placed within the overlap of their
// perpendicular spans.
fn gen_room_adjacent_door(room: &Rectangle, new_room: &Rectangle, direction: CardinalDirection) -> (
    r: Coord)
    requires
        rect_wf(*room),
        rect_wf(*new_room),
        room_bounded(*room, 1_010_000),
        room_bounded(*new_room, 1_010_000),
        match direction {
            CardinalDirection::E => new_room.left == room.right + 2 && new_room.top
                <= room.bottom && room.top <= new_room.bottom,
            CardinalDirection::W => room.left == new_room.right + 2 && new_room.top
                <= room.bottom && room.top <= new_room.bottom,
            CardinalDirection::S => new_room.top == room.bottom + 2 && new_room.left
                <= room.right && room.left <= new_room.right,
            CardinalDirection::N => room.top == new_room.bottom + 2 && new_room.left
                <= room.right && room.left <= new_room.right,
        },
    ensures
        door_on_shared_wall(*room, *new_room, r),
{
    let x: i32;
    let y: i32;
    match direction {
        CardinalDirection::W => {
            x = room.left - 1;
            y = rand_int(imax(room.top, new_room.top), imin(room.bottom, new_room.bottom));
        },
        CardinalDirection::N => {
            x = rand_int(imax(room.left, new_room.left), imin(room.right, new_room.right));
            y = room.top - 1;
        },
        CardinalDirection::E => {
            x = room.right + 1;
            y = rand_int(imax(room.top, new_room.top), imin(room.bottom, new_room.bottom));
        },
        CardinalDirection::S => {
            x = rand_int(imax(room.left, new_room.left), imin(room.right, new_room.right));
            y = room.bottom + 1;
        },
    }
    Coord::new(x, y)
}

// Generates a room of random dimensions adjacent to `room` in the given
// direction, together with a door on their shared wall, or returns `None`
// if the candidate's wall-inclusive bounds collide with an existing room.
fn gen_room_adjacent(
    room_list: &Vec<Rectangle>,
    room: &Rectangle,
    direction: CardinalDirection,
    params: &DungeonRoomParams,
) -> (r: Option<(Rectangle, Coord)>)
    requires
        params_wf(*params),
        rect_wf(*room),
        room_bounded(*room, 1_002_000),
        forall|j: int|
            0 <= j < room_list@.len() ==> rect_wf(#[trigger] room_list@[j]) && room_bounded(
                room_list@[j],
                1_002_000,
            ),
    ensures
        room_list@.len() == 0 ==> r is Some,
        r matches Some(pair) ==> {
            &&& rect_wf(pair.0)
            &&& params.min_width <= pair.0.right - pair.0.left + 1 <= params.max_width
            &&& params.min_height <= pair.0.bottom - pair.0.top + 1 <= params.max_height
            &&& pair.0.left >= room.left - 1001 && pair.0.right <= room.right + 1002
            &&& pair.0.top >= room.top - 1001 && pair.0.bottom <= room.bottom + 1002
            &&& forall|j: int|
                0 <= j < room_list@.len() ==> !rect_overlap(pair.0, #[trigger] room_list@[j])
            &&& door_on_shared_wall(*room, pair.0, pair.1)
        },
{
    let top: i32;
    let left: i32;
    let width = gen_room_width(params) as i32;
    let height = gen_room_height(params) as i32;

    match direction {
        CardinalDirection::W => {
            left = room.left - width - 1;
            top = rand_int(room.top - height + 1, room.bottom);
        },
        CardinalDirection::N => {
            left = rand_int(room.left - width + 1, room.right);
            top = room.top - height - 1;
        },
        CardinalDirection::E => {
            left = room.right + 2;
            top = rand_int(room.top - height + 1, room.bottom);
        },
        CardinalDirection::S => {
            left = rand_int(room.left - width + 1, room.right);
            top = room.bottom + 2;
        },
    }
    let new_room = Rectangle::from_dimensions(left, top, width as usize, height as usize);

    if check_room_free(&new_room, room_list) {
        let door = gen_room_adjacent_door(room, &new_room, direction);
        Some((new_room, door))
    } else {
        None
    }
}

/// Generates the non-overlapping room set of one dungeon depth together
/// with its doors: a seed room at the origin, grown by random adjacency
/// until a randomly chosen target count is reached. No two rooms' wall-
/// inclusive bounding boxes intersect, and every door sits on the single
/// shared wall line between the two adjacent rooms it connects. Fails,
/// rather than searching forever, when the global retry budget runs out.
pub fn gen_rooms(params: &DungeonRoomParams) -> (r: GameResult<(Vec<Rectangle>, Vec<DoorSpec>)>)
    requires
        params_wf(*params),
    ensures
        r matches Err(e) ==> e is UnexpectedError,
        params.max_num_rooms == 1 ==> r is Ok,
        r matches Ok(pair) ==> {
            let rooms = pair.0@;
            let doors = pair.1@;
            &&& params.min_num_rooms <= rooms.len() <= params.max_num_rooms
            &&& rooms[0].left == 0 && rooms[0].top == 0
            &&& doors.len() == rooms.len() - 1
            &&& forall|k: int|
                0 <= k < rooms.len() ==> rect_wf(#[trigger] rooms[k]) && room_bounded(
                    rooms[k],
                    1_002_000,
                ) && params.min_width <= rooms[k].right - rooms[k].left + 1 <= params.max_width
                    && params.min_height <= rooms[k].bottom - rooms[k].top + 1
                    <= params.max_height
            &&& forall|k1: int, k2: int|
                0 <= k1 < k2 < rooms.len() ==> !rect_overlap(
                    #[trigger] rooms[k1],
                    #[trigger] rooms[k2],
                )
            &&& forall|d: int|
                0 <= d < doors.len() ==> {
                    let ds = #[trigger] doors[d];
                    &&& ds.room_b == d + 1
                    &&& ds.room_a < ds.room_b
                    &&& door_on_shared_wall(
                        rooms[ds.room_a as int],
                        rooms[ds.room_b as int],
                        ds.coord,
                    )
                }
        },
{
    let mut room_list: Vec<Rectangle> = Vec::new();
    let mut object_list: Vec<DoorSpec> = Vec::new();
    let mut direction_list: Vec<CardinalDirection> = Vec::new();
    direction_list.push(CardinalDirection::N);
    direction_list.push(CardinalDirection::E);
    direction_list.push(CardinalDirection::S);
    direction_list.push(CardinalDirection::W);

    let goal_num_rooms = gen_num_rooms(params);

    // Generate the initial room.
    room_list.push(
        Rectangle::from_dimensions(0, 0, gen_room_width(params), gen_room_height(params)),
    );

    // Generate rooms by looking for free space next to existing rooms,
    // under a global retry budget so generation always terminates.
    let mut budget: usize = 100_000;
    while room_list.len() < goal_num_rooms
        invariant
            params_wf(*params),
            params.min_num_rooms <= goal_num_rooms <= params.max_num_rooms,
            1 <= room_list@.len() <= goal_num_rooms,
            room_list@[0].left == 0 && room_list@[0].top == 0,
            object_list@.len() == room_list@.len() - 1,
            direction_list@.len() == 4,
            forall|k: int|
                0 <= k < room_list@.len() ==> rect_wf(#[trigger] room_list@[k]) && room_bounded(
                    room_list@[k],
                    (k + 1) * 1002,
                ) && params.min_width <= room_list@[k].right - room_list@[k].left + 1
                    <= params.max_width && params.min_height <= room_list@[k].bottom
                    - room_list@[k].top + 1 <= params.max_height,
            forall|k1: int, k2: int|
                0 <= k1 < k2 < room_list@.len() ==> !rect_overlap(
                    #[trigger] room_list@[k1],
                    #[trigger] room_list@[k2],
                ),
            forall|d: int|
                0 <= d < object_list@.len() ==> {
                    let ds = #[trigger] object_list@[d];
                    &&& ds.room_b == d + 1
                    &&& ds.room_a < ds.room_b
                    &&& door_on_shared_wall(
                        room_list@[ds.room_a as int],
                        room_list@[ds.room_b as int],
                        ds.coord,
                    )
                },
        decreases budget,
    {
        if budget == 0 {
            return err_unexpected("Ran out of retries while placing rooms");
        }
        budget = budget - 1;

        let ri = match room_list.pick_index() {
            Some(i) => i,
            None => {
                proof {
                    assert(false);
                }
                0
            },
        };
        let room = room_list[ri];
        let direction = match direction_list.pick_index() {
            Some(i) => direction_list[i],
            None => {
                proof {
                    assert(false);
                }
                CardinalDirection::N
            },
        };

        proof {
            assert(room_bounded(room, 1_002_000)) by {
                assert((ri + 1) * 1002 <= 1_002_000) by (nonlinear_arith)
                    requires
                        0 <= ri < 1000,
                ;
            }
            assert forall|j: int|
                0 <= j < room_list@.len() implies rect_wf(#[trigger] room_list@[j])
                && room_bounded(room_list@[j], 1_002_000) by {
                assert((j + 1) * 1002 <= 1_002_000) by (nonlinear_arith)
                    requires
                        0 <= j < 1000,
                ;
            }
        }

        // Try a few times to generate a room here.
        let mut attempt: usize = 0;
        let mut found: Option<(Rectangle, Coord)> = None;
        while attempt < 3 && found.is_none()
            invariant
                params_wf(*params),
                rect_wf(room),
                room_bounded(room, 1_002_000),
                forall|j: int|
                    0 <= j < room_list@.len() ==> rect_wf(#[trigger] room_list@[j])
                        && room_bounded(room_list@[j], 1_002_000),
                found matches Some(pair) ==> {
                    &&& rect_wf(pair.0)
                    &&& params.min_width <= pair.0.right - pair.0.left + 1 <= params.max_width
                    &&& params.min_height <= pair.0.bottom - pair.0.top + 1 <= params.max_height
                    &&& pair.0.left >= room.left - 1001 && pair.0.right <= room.right + 1002
                    &&& pair.0.top >= room.top - 1001 && pair.0.bottom <= room.bottom + 1002
                    &&& forall|j: int|
                        0 <= j < room_list@.len() ==> !rect_overlap(
                            pair.0,
                            #[trigger] room_list@[j],
                        )
                    &&& door_on_shared_wall(room, pair.0, pair.1)
                },
            decreases 3 - attempt,
        {
            found = gen_room_adjacent(&room_list, &room, direction, params);
            attempt = attempt + 1;
        }

        match found {
            Some((new_room, door)) => {
                let ghost old_rooms = room_list@;
                let rb = room_list.len();
                object_list.push(DoorSpec { coord: door, room_a: ri, room_b: rb });
                room_list.push(new_room);
                proof {
                    assert(room_bounded(new_room, (rb + 1) * 1002)) by {
                        assert(room_bounded(room, rb * 1002)) by {
                            assert((ri + 1) * 1002 <= rb * 1002) by (nonlinear_arith)
                                requires
                                    0 <= ri < rb,
                            ;
                        }
                        assert(rb * 1002 + 1002 == (rb + 1) * 1002) by (nonlinear_arith);
                    }
                    assert forall|k: int|
                        0 <= k < room_list@.len() implies rect_wf(#[trigger] room_list@[k])
                        && room_bounded(room_list@[k], (k + 1) * 1002) && params.min_width
                        <= room_list@[k].right - room_list@[k].left + 1 <= params.max_width
                        && params.min_height <= room_list@[k].bottom - room_list@[k].top + 1
                        <= params.max_height by {
                        if k < rb {
                            assert(room_list@[k] == old_rooms[k]);
                        }
                    }
                }
            },
            None => {},
        }
    }

    Ok((room_list, object_list))
}

/// True if `(x, y)` lies in the interior of one of the first `n` rooms.
pub open spec fn covered_by(rooms: Seq<Rectangle>, n: int, x: int, y: int) -> bool {
    exists|k: int| 0 <= k < n && rect_contains(#[trigger] rooms[k], x, y)
}

/// The smallest `left` bound over the rooms, at most 0.
pub open spec fn min_left_of(rooms: Seq<Rectangle>) -> int
    decreases rooms.len(),
{
    if rooms.len() == 0 {
        0
    } else {
        let rest = min_left_of(rooms.drop_last());
        if rooms.last().left < rest {
            rooms.last().left as int
        } else {
            rest
        }
    }
}

/// The smallest `top` bound over the rooms, at most 0.
pub open spec fn min_top_of(rooms: Seq<Rectangle>) -> int
    decreases rooms.len(),
{
    if rooms.len() == 0 {
        0
    } else {
        let rest = min_top_of(rooms.drop_last());
        if rooms.last().top < rest {
            rooms.last().top as int
        } else {
            rest
        }
    }
}

/// The largest `right` bound over the rooms, at least 0.
pub open spec fn max_right_of(rooms: Seq<Rectangle>) -> int
    decreases rooms.len(),
{
    if rooms.len() == 0 {
        0
    } else {
        let rest = max_right_of(rooms.drop_last());
        if rooms.last().right > rest {
            rooms.last().right as int
        } else {
            rest
        }
    }
}

/// The largest `bottom` bound over the rooms, at least 0.
pub open spec fn max_bottom_of(rooms: Seq<Rectangle>) -> int
    decreases rooms.len(),
{
    if rooms.len() == 0 {
        0
    } else {
        let rest = max_bottom_of(rooms.drop_last());
        if rooms.last().bottom > rest {
            rooms.last().bottom as int
        } else {
            rest
        }
    }
}

/// Every room lies within the folded bounding box.
proof fn lemma_room_extents(rooms: Seq<Rectangle>, k: int)
    requires
        0 <= k < rooms.len(),
    ensures
        min_left_of(rooms) <= rooms[k].left,
        min_top_of(rooms) <= rooms[k].top,
        rooms[k].right <= max_right_of(rooms),
        rooms[k].bottom <= max_bottom_of(rooms),
        min_left_of(rooms) <= 0,
        min_top_of(rooms) <= 0,
        max_right_of(rooms) >= 0,
        max_bottom_of(rooms) >= 0,
    decreases rooms.len(),
{
    if rooms.len() > 0 {
        if k == rooms.len() - 1 {
            lemma_extents_nonneg(rooms.drop_last());
        } else {
            lemma_room_extents(rooms.drop_last(), k);
            assert(rooms.drop_last()[k] == rooms[k]);
        }
    }
}

/// When every room is bounded, so is the folded bounding box.
proof fn lemma_extents_bounded(rooms: Seq<Rectangle>, b: int)
    requires
        b >= 0,
        forall|k: int| 0 <= k < rooms.len() ==> room_bounded(#[trigger] rooms[k], b),
    ensures
        -b <= min_left_of(rooms) <= 0,
        -b <= min_top_of(rooms) <= 0,
        0 <= max_right_of(rooms) <= b,
        0 <= max_bottom_of(rooms) <= b,
    decreases rooms.len(),
{
    if rooms.len() > 0 {
        assert(room_bounded(rooms.last(), b));
        lemma_extents_bounded(rooms.drop_last(), b);
    }
}

/// The folded bounding box always includes the origin.
proof fn lemma_extents_nonneg(rooms: Seq<Rectangle>)
    ensures
        min_left_of(rooms) <= 0,
        min_top_of(rooms) <= 0,
        max_right_of(rooms) >= 0,
        max_bottom_of(rooms) >= 0,
    decreases rooms.len(),
{
    if rooms.len() > 0 {
        lemma_extents_nonneg(rooms.drop_last());
    }
}

/// Stamps the interiors of the rooms, translated by `(dx, dy)`, into the
/// grid as tiles of kind `floor`, leaving every other tile untouched.
pub fn gen_init_dungeon_rooms(
    dungeon: &mut Dungeon,
    floor: &TileInfo,
    room_list: &Vec<Rectangle>,
    dx: i32,
    dy: i32,
)
    requires
        old(dungeon).wf(),
        -2_010_000 <= dx <= 2_010_000,
        -2_010_000 <= dy <= 2_010_000,
        forall|k: int|
            0 <= k < room_list@.len() ==> {
                let rm = #[trigger] room_list@[k];
                &&& rect_wf(rm)
                &&& room_bounded(rm, 1_002_000)
                &&& 0 <= rm.left + dx
                &&& rm.right + dx < old(dungeon).spec_width()
                &&& 0 <= rm.top + dy
                &&& rm.bottom + dy < old(dungeon).spec_height()
            },
    ensures
        final (dungeon).wf(),
        final (dungeon).spec_actors() == old(dungeon).spec_actors(),
        final (dungeon).spec_objects() == old(dungeon).spec_objects(),
        final (dungeon).spec_aq() == old(dungeon).spec_aq(),
        final (dungeon).spec_oq() == old(dungeon).spec_oq(),
        final (dungeon).spec_turn() == old(dungeon).spec_turn(),
        final (dungeon).spec_width() == old(dungeon).spec_width(),
        final (dungeon).spec_height() == old(dungeon).spec_height(),
        final (dungeon).spec_danger_level() == old(dungeon).spec_danger_level(),
        final (dungeon).spec_dungeon_type() == old(dungeon).spec_dungeon_type(),
        forall|x: int, y: int|
            #![trigger final(dungeon).spec_tiles()[final(dungeon).idx_of(x, y)]]
            0 <= x < final (dungeon).spec_width() && 0 <= y < final (dungeon).spec_height()
                ==> final (dungeon).spec_tiles()[final (dungeon).idx_of(x, y)] == if covered_by(
                room_list@,
                room_list@.len() as int,
                x - dx,
                y - dy,
            ) {
                (Tile {
                    info: *floor,
                    ..old(dungeon).spec_tiles()[old(dungeon).idx_of(x, y)]
                })
            } else {
                old(dungeon).spec_tiles()[old(dungeon).idx_of(x, y)]
            },
{
    let mut ri: usize = 0;
    while ri < room_list.len()
        invariant
            dungeon.wf(),
            0 <= ri <= room_list@.len(),
            -2_010_000 <= dx <= 2_010_000,
            -2_010_000 <= dy <= 2_010_000,
            forall|k: int|
                0 <= k < room_list@.len() ==> {
                    let rm = #[trigger] room_list@[k];
                    &&& rect_wf(rm)
                    &&& room_bounded(rm, 1_002_000)
                    &&& 0 <= rm.left + dx
                    &&& rm.right + dx < old(dungeon).spec_width()
                    &&& 0 <= rm.top + dy
                    &&& rm.bottom + dy < old(dungeon).spec_height()
                },
            dungeon.spec_actors() == old(dungeon).spec_actors(),
            dungeon.spec_objects() == old(dungeon).spec_objects(),
            dungeon.spec_aq() == old(dungeon).spec_aq(),
            dungeon.spec_oq() == old(dungeon).spec_oq(),
            dungeon.spec_turn() == old(dungeon).spec_turn(),
            dungeon.spec_width() == old(dungeon).spec_width(),
            dungeon.spec_height() == old(dungeon).spec_height(),
            dungeon.spec_danger_level() == old(dungeon).spec_danger_level(),
            dungeon.spec_dungeon_type() == old(dungeon).spec_dungeon_type(),
            forall|x: int, y: int|
                #![trigger dungeon.spec_tiles()[dungeon.idx_of(x, y)]]
                0 <= x < dungeon.spec_width() && 0 <= y < dungeon.spec_height()
                    ==> dungeon.spec_tiles()[dungeon.idx_of(x, y)] == if covered_by(
                    room_list@,
                    ri as int,
                    x - dx,
                    y - dy,
                ) {
                    (Tile {
                        info: *floor,
                        ..old(dungeon).spec_tiles()[old(dungeon).idx_of(x, y)]
                    })
                } else {
                    old(dungeon).spec_tiles()[old(dungeon).idx_of(x, y)]
                },
        decreases room_list@.len() - ri,
    {
        let room = room_list[ri];
        let mut x: i32 = room.left;
        while x <= room.right
            invariant
                dungeon.wf(),
                0 <= ri < room_list@.len(),
                room == room_list@[ri as int],
                rect_wf(room),
                room_bounded(room, 1_002_000),
                room.left <= x <= room.right + 1,
                -2_010_000 <= dx <= 2_010_000,
                -2_010_000 <= dy <= 2_010_000,
                0 <= room.left + dx,
                room.right + dx < old(dungeon).spec_width(),
                0 <= room.top + dy,
                room.bottom + dy < old(dungeon).spec_height(),
                dungeon.spec_actors() == old(dungeon).spec_actors(),
                dungeon.spec_objects() == old(dungeon).spec_objects(),
                dungeon.spec_aq() == old(dungeon).spec_aq(),
                dungeon.spec_oq() == old(dungeon).spec_oq(),
                dungeon.spec_turn() == old(dungeon).spec_turn(),
                dungeon.spec_width() == old(dungeon).spec_width(),
                dungeon.spec_height() == old(dungeon).spec_height(),
                dungeon.spec_danger_level() == old(dungeon).spec_danger_level(),
                dungeon.spec_dungeon_type() == old(dungeon).spec_dungeon_type(),
                forall|gx: int, gy: int|
                    #![trigger dungeon.spec_tiles()[dungeon.idx_of(gx, gy)]]
                    0 <= gx < dungeon.spec_width() && 0 <= gy < dungeon.spec_height()
                        ==> dungeon.spec_tiles()[dungeon.idx_of(gx, gy)] == if covered_by(
                        room_list@,
                        ri as int,
                        gx - dx,
                        gy - dy,
                    ) || (rect_contains(room, gx - dx, gy - dy) && gx - dx < x) {
                        (Tile {
                            info: *floor,
                            ..old(dungeon).spec_tiles()[old(dungeon).idx_of(gx, gy)]
                        })
                    } else {
                        old(dungeon).spec_tiles()[old(dungeon).idx_of(gx, gy)]
                    },
            decreases room.right + 1 - x,
        {
            let mut y: i32 = room.top;
            while y <= room.bottom
                invariant
                    dungeon.wf(),
                    0 <= ri < room_list@.len(),
                    room == room_list@[ri as int],
                    rect_wf(room),
                    room_bounded(room, 1_002_000),
                    room.left <= x <= room.right,
                    room.top <= y <= room.bottom + 1,
                    -2_010_000 <= dx <= 2_010_000,
                    -2_010_000 <= dy <= 2_010_000,
                    0 <= room.left + dx,
                    room.right + dx < old(dungeon).spec_width(),
                    0 <= room.top + dy,
                    room.bottom + dy < old(dungeon).spec_height(),
                    dungeon.spec_actors() == old(dungeon).spec_actors(),
                    dungeon.spec_objects() == old(dungeon).spec_objects(),
                    dungeon.spec_aq() == old(dungeon).spec_aq(),
                    dungeon.spec_oq() == old(dungeon).spec_oq(),
                    dungeon.spec_turn() == old(dungeon).spec_turn(),
                    dungeon.spec_width() == old(dungeon).spec_width(),
                    dungeon.spec_height() == old(dungeon).spec_height(),
                    dungeon.spec_danger_level() == old(dungeon).spec_danger_level(),
                    dungeon.spec_dungeon_type() == old(dungeon).spec_dungeon_type(),
                    forall|gx: int, gy: int|
                        #![trigger dungeon.spec_tiles()[dungeon.idx_of(gx, gy)]]
                        0 <= gx < dungeon.spec_width() && 0 <= gy < dungeon.spec_height()
                            ==> dungeon.spec_tiles()[dungeon.idx_of(gx, gy)] == if covered_by(
                            room_list@,
                            ri as int,
                            gx - dx,
                            gy - dy,
                        ) || (rect_contains(room, gx - dx, gy - dy) && (gx - dx < x || (gx - dx
                            == x && gy - dy < y))) {
                            (Tile {
                                info: *floor,
                                ..old(dungeon).spec_tiles()[old(dungeon).idx_of(gx, gy)]
                            })
                        } else {
                            old(dungeon).spec_tiles()[old(dungeon).idx_of(gx, gy)]
                        },
                decreases room.bottom + 1 - y,
            {
                let c = Coord::new(x + dx, y + dy);
                let ghost pre = *dungeon;
                dungeon.set_tile_kind(c, floor.clone_info());
                proof {
                    let s = *dungeon;
                    let w = s.spec_width();
                    let h = s.spec_height();
                    assert(0 <= c.x as int && (c.x as int) < w && 0 <= c.y as int && (
                    c.y as int) < h);
                    crate::dungeon::lemma_idx_bound(c.x as int, c.y as int, w, h);
                    assert(s.spec_tiles() == pre.spec_tiles().update(
                        pre.idx_of(c.x as int, c.y as int),
                        (Tile { info: *floor, ..pre.tile_at(c) }),
                    ));
                    assert forall|gx: int, gy: int|
                        #![trigger s.spec_tiles()[s.idx_of(gx, gy)]]
                        0 <= gx < w && 0 <= gy < h implies s.spec_tiles()[s.idx_of(gx, gy)]
                        == if covered_by(room_list@, ri as int, gx - dx, gy - dy) || (
                        rect_contains(room, gx - dx, gy - dy) && (gx - dx < x || (gx - dx == x
                            && gy - dy < y + 1))) {
                        (Tile {
                            info: *floor,
                            ..old(dungeon).spec_tiles()[old(dungeon).idx_of(gx, gy)]
                        })
                    } else {
                        old(dungeon).spec_tiles()[old(dungeon).idx_of(gx, gy)]
                    } by {
                        crate::dungeon::lemma_idx_bound(gx, gy, w, h);
                        if gx == c.x as int && gy == c.y as int {
                            assert(rect_contains(room, gx - dx, gy - dy));
                        } else {
                            crate::dungeon::lemma_idx_inj(gx, gy, c.x as int, c.y as int, h);
                            assert(s.spec_tiles()[s.idx_of(gx, gy)] == pre.spec_tiles()[pre.idx_of(
                                gx,
                                gy,
                            )]);
                        }
                    }
                }
                y = y + 1;
            }
            proof {
                assert forall|gx: int, gy: int|
                    #![trigger dungeon.spec_tiles()[dungeon.idx_of(gx, gy)]]
                    0 <= gx < dungeon.spec_width() && 0 <= gy < dungeon.spec_height()
                        implies dungeon.spec_tiles()[dungeon.idx_of(gx, gy)] == if covered_by(
                        room_list@,
                        ri as int,
                        gx - dx,
                        gy - dy,
                    ) || (rect_contains(room, gx - dx, gy - dy) && gx - dx < x + 1) {
                        (Tile {
                            info: *floor,
                            ..old(dungeon).spec_tiles()[old(dungeon).idx_of(gx, gy)]
                        })
                    } else {
                        old(dungeon).spec_tiles()[old(dungeon).idx_of(gx, gy)]
                    } by {
                    assert(y == room.bottom + 1);
                    if rect_contains(room, gx - dx, gy - dy) && gx - dx == x {
                        assert(gy - dy <= room.bottom as int);
                    }
                }
            }
            x = x + 1;
        }
        proof {
            assert forall|gx: int, gy: int|
                #![trigger dungeon.spec_tiles()[dungeon.idx_of(gx, gy)]]
                0 <= gx < dungeon.spec_width() && 0 <= gy < dungeon.spec_height() implies dungeon.spec_tiles()[dungeon.idx_of(
                gx,
                gy,
            )] == if covered_by(room_list@, ri + 1, gx - dx, gy - dy) {
                (Tile {
                    info: *floor,
                    ..old(dungeon).spec_tiles()[old(dungeon).idx_of(gx, gy)]
                })
            } else {
                old(dungeon).spec_tiles()[old(dungeon).idx_of(gx, gy)]
            } by {
                if covered_by(room_list@, ri + 1, gx - dx, gy - dy) {
                    let k = choose|k: int|
                        0 <= k < ri + 1 && rect_contains(#[trigger] room_list@[k], gx - dx, gy - dy);
                    if k == ri {
                        assert(rect_contains(room, gx - dx, gy - dy));
                    } else {
                        assert(covered_by(room_list@, ri as int, gx - dx, gy - dy));
                    }
                } else {
                    assert(!covered_by(room_list@, ri as int, gx - dx, gy - dy)) by {
                        if covered_by(room_list@, ri as int, gx - dx, gy - dy) {
                            let k = choose|k: int|
                                0 <= k < ri && rect_contains(
                                    #[trigger] room_list@[k],
                                    gx - dx,
                                    gy - dy,
                                );
                            assert(covered_by(room_list@, ri + 1, gx - dx, gy - dy));
                        }
                    }
                    assert(!rect_contains(room, gx - dx, gy - dy)) by {
                        if rect_contains(room, gx - dx, gy - dy) {
                            assert(covered_by(room_list@, ri + 1, gx - dx, gy - dy));
                        }
                    }
                }
            }
        }
        ri = ri + 1;
    }
}

/// Initializes `dungeon`'s tile grid from the generated rooms: the grid is
/// sized to the rooms' bounding box with a one-tile wall margin, every tile
/// starts as `wall`, and each room interior, translated by the returned
/// `(dx, dy)`, is stamped as `floor`. Reading back the floor tiles
/// reproduces exactly the translated room interiors. Fails, leaving the
/// dungeon unchanged, exactly when the grid would not fit in memory.
pub fn init_dungeon_from_rooms(
    dungeon: &mut Dungeon,
    room_list: &Vec<Rectangle>,
    wall: &TileInfo,
    floor: &TileInfo,
) -> (r: GameResult<(i32, i32)>)
    requires
        old(dungeon).wf(),
        old(dungeon).spec_actors().len() == 0,
        old(dungeon).spec_objects().len() == 0,
        1 <= room_list@.len(),
        forall|k: int|
            0 <= k < room_list@.len() ==> rect_wf(#[trigger] room_list@[k]) && room_bounded(
                room_list@[k],
                1_002_000,
            ),
    ensures
        final (dungeon).wf(),
        final (dungeon).spec_actors() == old(dungeon).spec_actors(),
        final (dungeon).spec_objects() == old(dungeon).spec_objects(),
        final (dungeon).spec_aq() == old(dungeon).spec_aq(),
        final (dungeon).spec_oq() == old(dungeon).spec_oq(),
        final (dungeon).spec_turn() == old(dungeon).spec_turn(),
        r is Ok <==> (max_right_of(room_list@) - min_left_of(room_list@) + 3) * (max_bottom_of(
            room_list@,
        ) - min_top_of(room_list@) + 3) <= usize::MAX,
        r matches Err(e) ==> *final (dungeon) == *old(dungeon) && e is UnexpectedError,
        r matches Ok(d) ==> {
            &&& d.0 == 1 - min_left_of(room_list@)
            &&& d.1 == 1 - min_top_of(room_list@)
            &&& final (dungeon).spec_width() == max_right_of(room_list@) - min_left_of(room_list@)
                + 3
            &&& final (dungeon).spec_height() == max_bottom_of(room_list@) - min_top_of(room_list@)
                + 3
            &&& forall|k: int|
                0 <= k < room_list@.len() ==> {
                    let rm = #[trigger] room_list@[k];
                    &&& 1 <= rm.left + d.0
                    &&& rm.right + d.0 <= final (dungeon).spec_width() - 2
                    &&& 1 <= rm.top + d.1
                    &&& rm.bottom + d.1 <= final (dungeon).spec_height() - 2
                }
            &&& forall|x: int, y: int|
                #![trigger final(dungeon).spec_tiles()[final(dungeon).idx_of(x, y)]]
                0 <= x < final (dungeon).spec_width() && 0 <= y < final (dungeon).spec_height()
                    ==> {
                    let t = final (dungeon).spec_tiles()[final (dungeon).idx_of(x, y)];
                    &&& t.info == (if covered_by(
                        room_list@,
                        room_list@.len() as int,
                        x - d.0,
                        y - d.1,
                    ) {
                        *floor
                    } else {
                        *wall
                    })
                    &&& t.actor is None
                    &&& t.object is None
                }
        },
{
    let mut min_left: i32 = 0;
    let mut min_top: i32 = 0;
    let mut max_right: i32 = 0;
    let mut max_bottom: i32 = 0;

    let mut i: usize = 0;
    while i < room_list.len()
        invariant
            0 <= i <= room_list@.len(),
            forall|k: int|
                0 <= k < room_list@.len() ==> rect_wf(#[trigger] room_list@[k]) && room_bounded(
                    room_list@[k],
                    1_002_000,
                ),
            min_left == min_left_of(room_list@.take(i as int)),
            min_top == min_top_of(room_list@.take(i as int)),
            max_right == max_right_of(room_list@.take(i as int)),
            max_bottom == max_bottom_of(room_list@.take(i as int)),
            -1_002_000 <= min_left <= 0,
            -1_002_000 <= min_top <= 0,
            0 <= max_right <= 1_002_000,
            0 <= max_bottom <= 1_002_000,
        decreases room_list@.len() - i,
    {
        let room = room_list[i];
        proof {
            assert(room_list@.take(i + 1).drop_last() =~= room_list@.take(i as int));
            assert(room_list@.take(i + 1).last() == room);
        }
        if room.left < min_left {
            min_left = room.left;
        }
        if room.top < min_top {
            min_top = room.top;
        }
        if room.right > max_right {
            max_right = room.right;
        }
        if room.bottom > max_bottom {
            max_bottom = room.bottom;
        }
        i = i + 1;
    }
    proof {
        assert(room_list@.take(room_list@.len() as int) =~= room_list@);
    }

    let width64 = (max_right as i64) - (min_left as i64) + 3;
    let height64 = (max_bottom as i64) - (min_top as i64) + 3;
    proof {
        assert(0 <= (width64 as int) * (height64 as int) <= 0x9_0000_0000_0000i64 as int)
            by (nonlinear_arith)
            requires
                3 <= width64 <= 3_000_000,
                3 <= height64 <= 3_000_000,
        ;
    }
    if (width64 as u64) * (height64 as u64) > (usize::MAX as u64) {
        return err_unexpected("Dungeon bounding box does not fit in memory");
    }
    let width = width64 as usize;
    let height = height64 as usize;

    let dx = -min_left + 1;
    let dy = -min_top + 1;

    let init_res = dungeon.init_grid(width, height, wall);
    match init_res {
        Ok(_) => {},
        Err(e) => {
            proof {
                assert(false);
            }
            return Err(e);
        },
    }

    proof {
        assert forall|k: int| 0 <= k < room_list@.len() implies {
            let rm = #[trigger] room_list@[k];
            &&& 1 <= rm.left + dx
            &&& rm.right + dx <= dungeon.spec_width() - 2
            &&& 1 <= rm.top + dy
            &&& rm.bottom + dy <= dungeon.spec_height() - 2
        } by {
            lemma_room_extents(room_list@, k);
        }
    }

    let ghost walled = *dungeon;
    gen_init_dungeon_rooms(dungeon, floor, room_list, dx, dy);

    proof {
        let s = *dungeon;
        assert forall|x: int, y: int|
            #![trigger s.spec_tiles()[s.idx_of(x, y)]]
            0 <= x < s.spec_width() && 0 <= y < s.spec_height() implies {
            let t = s.spec_tiles()[s.idx_of(x, y)];
            &&& t.info == (if covered_by(room_list@, room_list@.len() as int, x - dx, y - dy) {
                *floor
            } else {
                *wall
            })
            &&& t.actor is None
            &&& t.object is None
        } by {
            crate::dungeon::lemma_idx_bound(x, y, s.spec_width(), s.spec_height());
            assert(walled.spec_tiles()[walled.idx_of(x, y)].info == *wall);
        }
    }

    Ok((dx, dy))
}

/// A door on a shared wall between two rooms, translated into grid space,
/// lands strictly inside the grid whenever both rooms do.
proof fn lemma_door_in_bounds(
    a: Rectangle,
    b: Rectangle,
    c: Coord,
    dx: int,
    dy: int,
    w: int,
    h: int,
)
    requires
        door_on_shared_wall(a, b, c),
        rect_wf(a),
        rect_wf(b),
        1 <= a.left + dx,
        a.right + dx <= w - 2,
        1 <= a.top + dy,
        a.bottom + dy <= h - 2,
        1 <= b.left + dx,
        b.right + dx <= w - 2,
        1 <= b.top + dy,
        b.bottom + dy <= h - 2,
    ensures
        0 <= c.x + dx < w,
        0 <= c.y + dy < h,
{
}

/// The shape of a grid generated by the room method: a non-overlapping room
/// set with the seed room at the origin and every dimension within the
/// configured ranges, rasterized by the translation `(dx, dy)` as `floor`
/// interiors in a `wall` fill, with no actor placed, and every live object
/// a door built from `door_data` sitting on a floor tile of the single
/// shared wall line between two of the rooms.
pub open spec fn room_grid_shape(
    d: Dungeon,
    params: DungeonRoomParams,
    wall: TileInfo,
    floor: TileInfo,
    door_data: crate::object::ObjectData,
    rooms: Seq<Rectangle>,
    dx: int,
    dy: int,
) -> bool {
    &&& params.min_num_rooms <= rooms.len() <= params.max_num_rooms
    &&& rooms[0].left == 0 && rooms[0].top == 0
    &&& forall|k: int|
        0 <= k < rooms.len() ==> rect_wf(#[trigger] rooms[k]) && params.min_width <= rooms[k].right
            - rooms[k].left + 1 <= params.max_width && params.min_height <= rooms[k].bottom
            - rooms[k].top + 1 <= params.max_height
    &&& forall|k1: int, k2: int|
        0 <= k1 < k2 < rooms.len() ==> !rect_overlap(#[trigger] rooms[k1], #[trigger] rooms[k2])
    &&& dx == 1 - min_left_of(rooms)
    &&& dy == 1 - min_top_of(rooms)
    &&& d.spec_width() == max_right_of(rooms) - min_left_of(rooms) + 3
    &&& d.spec_height() == max_bottom_of(rooms) - min_top_of(rooms) + 3
    &&& forall|x: int, y: int|
        #![trigger d.spec_tiles()[d.idx_of(x, y)]]
        0 <= x < d.spec_width() && 0 <= y < d.spec_height() ==> {
            let t = d.spec_tiles()[d.idx_of(x, y)];
            &&& t.actor is None
            &&& (t.object is None ==> t.info == (if covered_by(
                rooms,
                rooms.len() as int,
                x - dx,
                y - dy,
            ) {
                floor
            } else {
                wall
            }))
            &&& (t.object is Some ==> t.info == floor)
        }
    &&& forall|i: int|
        #[trigger] d.object_live(i) ==> {
            let o = d.object_at(i);
            &&& o.object_type == door_data.object_type
            &&& o.name == door_data.name
            &&& o.speed == door_data.speed
            &&& o.c == door_data.c
            &&& o.color == door_data.color
            &&& o.transparent == door_data.transparent
            &&& exists|a: int, b: int|
                0 <= a < b < rooms.len() && door_on_shared_wall(
                    rooms[a],
                    rooms[b],
                    (Coord { x: (o.coord.x - dx) as i32, y: (o.coord.y - dy) as i32 }),
                )
        }
}

/// Generates a dungeon level using the "room method": a non-overlapping
/// room set grown from a seed room, rasterized into the grid with walls
/// around floors, and a door object on each shared wall. Doors sit on
/// floor tiles, and each one starts open with a chance of 8 in 10. With a
/// room target of one, generation cannot fail; it fails exactly when the
/// room search's global retry budget runs out, leaving the dungeon
/// unchanged. Returns the seed room's interior translated into grid
/// space, so the caller can place the player inside the first room.
pub fn gen_dungeon_room_start(
    dungeon: &mut Dungeon,
    params: &DungeonRoomParams,
    wall: &TileInfo,
    floor: &TileInfo,
    door_data: &crate::object::ObjectData,
) -> (r: GameResult<Rectangle>)
    requires
        old(dungeon).wf(),
        old(dungeon).spec_actors().len() == 0,
        old(dungeon).spec_objects().len() == 0,
        params_wf(*params),
        crate::defs::gr_wf(old(dungeon).spec_turn()),
        crate::defs::gr_wf(door_data.speed),
        door_data.speed.num >= 1,
    ensures
        final (dungeon).wf(),
        final (dungeon).spec_actors() == old(dungeon).spec_actors(),
        final (dungeon).spec_aq() == old(dungeon).spec_aq(),
        final (dungeon).spec_turn() == old(dungeon).spec_turn(),
        r matches Err(e) ==> *final (dungeon) == *old(dungeon) && e is UnexpectedError,
        params.max_num_rooms == 1 ==> r is Ok,
        r is Ok ==> final (dungeon).spec_width() >= 3 && final (dungeon).spec_height() >= 3,
        r matches Ok(a) ==> ({
            &&& rect_wf(a)
            &&& 1 <= a.left && a.right <= final (dungeon).spec_width() - 2
            &&& 1 <= a.top && a.bottom <= final (dungeon).spec_height() - 2
            &&& exists|rooms: Seq<Rectangle>, dx: int, dy: int|
                {
                    &&& room_grid_shape(
                        *final (dungeon),
                        *params,
                        *wall,
                        *floor,
                        *door_data,
                        rooms,
                        dx,
                        dy,
                    )
                    &&& a.left == rooms[0].left + dx
                    &&& a.top == rooms[0].top + dy
                    &&& a.right == rooms[0].right + dx
                    &&& a.bottom == rooms[0].bottom + dy
                }
        }),
{
    let pair = match gen_rooms(params) {
        Ok(p) => p,
        Err(e) => {
            return Err(e);
        },
    };
    let (room_list, door_list) = pair;
    proof {
        assert forall|k: int|
            0 <= k < room_list@.len() implies rect_wf(#[trigger] room_list@[k]) && room_bounded(
            room_list@[k],
            1_002_000,
        ) by {}
    }
    let d = match init_dungeon_from_rooms(dungeon, &room_list, wall, floor) {
        Ok(d) => d,
        Err(e) => {
            proof {
                // A single room sits at the origin within the configured
                // bounds, so its grid always fits in memory.
                if params.max_num_rooms == 1 {
                    assert(room_bounded(room_list@[0], 1000));
                    lemma_extents_bounded(room_list@, 1000);
                    assert((max_right_of(room_list@) - min_left_of(room_list@) + 3) * (
                    max_bottom_of(room_list@) - min_top_of(room_list@) + 3) <= 0xffff_ffff)
                        by (nonlinear_arith)
                        requires
                            -1000 <= min_left_of(room_list@) <= 0,
                            -1000 <= min_top_of(room_list@) <= 0,
                            0 <= max_right_of(room_list@) <= 1000,
                            0 <= max_bottom_of(room_list@) <= 1000,
                    ;
                    assert(false);
                }
            }
            return Err(e);
        },
    };
    let (dx, dy) = d;
    proof {
        lemma_extents_bounded(room_list@, 1_002_000);
    }

    // Add doors: each sits on a floor tile between the two rooms it
    // connects.
    let mut di: usize = 0;
    while di < door_list.len()
        invariant
            dungeon.wf(),
            0 <= di <= door_list@.len(),
            crate::defs::gr_wf(door_data.speed),
            door_data.speed.num >= 1,
            params_wf(*params),
            dungeon.spec_actors() == old(dungeon).spec_actors(),
            dungeon.spec_aq() == old(dungeon).spec_aq(),
            dungeon.spec_turn() == old(dungeon).spec_turn(),
            dungeon.spec_width() >= 3,
            dungeon.spec_height() >= 3,
            params.min_num_rooms <= room_list@.len() <= params.max_num_rooms,
            room_list@[0].left == 0 && room_list@[0].top == 0,
            forall|k1: int, k2: int|
                0 <= k1 < k2 < room_list@.len() ==> !rect_overlap(
                    #[trigger] room_list@[k1],
                    #[trigger] room_list@[k2],
                ),
            dx == 1 - min_left_of(room_list@),
            dy == 1 - min_top_of(room_list@),
            dungeon.spec_width() == max_right_of(room_list@) - min_left_of(room_list@) + 3,
            dungeon.spec_height() == max_bottom_of(room_list@) - min_top_of(room_list@) + 3,
            forall|j: int|
                0 <= j < door_list@.len() ==> {
                    let ds = #[trigger] door_list@[j];
                    &&& ds.room_a < ds.room_b
                    &&& ds.room_b < room_list@.len()
                    &&& door_on_shared_wall(
                        room_list@[ds.room_a as int],
                        room_list@[ds.room_b as int],
                        ds.coord,
                    )
                },
            forall|k: int|
                0 <= k < room_list@.len() ==> {
                    let rm = #[trigger] room_list@[k];
                    &&& rect_wf(rm)
                    &&& room_bounded(rm, 1_002_000)
                    &&& params.min_width <= rm.right - rm.left + 1 <= params.max_width
                    &&& params.min_height <= rm.bottom - rm.top + 1 <= params.max_height
                    &&& 1 <= rm.left + dx
                    &&& rm.right + dx <= dungeon.spec_width() - 2
                    &&& 1 <= rm.top + dy
                    &&& rm.bottom + dy <= dungeon.spec_height() - 2
                },
            -2_000_000 <= dx <= 2_000_000,
            -2_000_000 <= dy <= 2_000_000,
            forall|x: int, y: int|
                #![trigger dungeon.spec_tiles()[dungeon.idx_of(x, y)]]
                0 <= x < dungeon.spec_width() && 0 <= y < dungeon.spec_height() ==> {
                    let t = dungeon.spec_tiles()[dungeon.idx_of(x, y)];
                    &&& t.actor is None
                    &&& (t.object is None ==> t.info == (if covered_by(
                        room_list@,
                        room_list@.len() as int,
                        x - dx,
                        y - dy,
                    ) {
                        *floor
                    } else {
                        *wall
                    }))
                    &&& (t.object is Some ==> t.info == *floor)
                },
            forall|i: int|
                #[trigger] dungeon.object_live(i) ==> {
                    let o = dungeon.object_at(i);
                    &&& o.object_type == door_data.object_type
                    &&& o.name == door_data.name
                    &&& o.speed == door_data.speed
                    &&& o.c == door_data.c
                    &&& o.color == door_data.color
                    &&& o.transparent == door_data.transparent
                    &&& exists|a: int, b: int|
                        0 <= a < b < room_list@.len() && door_on_shared_wall(
                            room_list@[a],
                            room_list@[b],
                            (Coord { x: (o.coord.x - dx) as i32, y: (o.coord.y - dy) as i32 }),
                        )
                },
        decreases door_list@.len() - di,
    {
        let ds = door_list[di];
        proof {
            lemma_door_in_bounds(
                room_list@[ds.room_a as int],
                room_list@[ds.room_b as int],
                ds.coord,
                dx as int,
                dy as int,
                dungeon.spec_width(),
                dungeon.spec_height(),
            );
        }
        let coord = Coord::new(ds.coord.x + dx, ds.coord.y + dy);
        let ghost before = *dungeon;
        dungeon.set_tile_kind(coord, floor.clone_info());
        proof {
            let s = *dungeon;
            let w = s.spec_width();
            let h = s.spec_height();
            lemma_idx_bound(coord.x as int, coord.y as int, w, h);
            assert forall|x: int, y: int|
                #![trigger s.spec_tiles()[s.idx_of(x, y)]]
                0 <= x < w && 0 <= y < h implies {
                let t = s.spec_tiles()[s.idx_of(x, y)];
                &&& t.actor is None
                &&& (t.object is None && !(x == coord.x as int && y == coord.y as int)
                    ==> t.info == (if covered_by(
                    room_list@,
                    room_list@.len() as int,
                    x - dx,
                    y - dy,
                ) {
                    *floor
                } else {
                    *wall
                }))
                &&& (t.object is Some ==> t.info == *floor)
                &&& (x == coord.x as int && y == coord.y as int ==> t.info == *floor)
            } by {
                lemma_idx_bound(x, y, w, h);
                if x == coord.x as int && y == coord.y as int {
                } else {
                    lemma_idx_inj(x, y, coord.x as int, coord.y as int, h);
                    assert(s.spec_tiles()[s.idx_of(x, y)] == before.spec_tiles()[before.idx_of(
                        x,
                        y,
                    )]);
                }
            }
        }
        if dungeon.tile(coord).object.is_none() {
            let active = crate::rng::dice(8, 10);
            let ghost mid = *dungeon;
            let res = crate::object::Object::insert_new(dungeon, coord, door_data, active);
            proof {
                assert(res is Ok);
                let s = *dungeon;
                let w = s.spec_width();
                let h = s.spec_height();
                let nid = mid.spec_objects().len() as int;
                assert(s.object_at(nid).coord == coord);
                assert((s.object_at(nid).coord.x - dx) as i32 == ds.coord.x);
                assert((s.object_at(nid).coord.y - dy) as i32 == ds.coord.y);
                assert forall|i: int| #[trigger] s.object_live(i) implies {
                    let o = s.object_at(i);
                    &&& o.object_type == door_data.object_type
                    &&& o.name == door_data.name
                    &&& o.speed == door_data.speed
                    &&& o.c == door_data.c
                    &&& o.color == door_data.color
                    &&& o.transparent == door_data.transparent
                    &&& exists|a: int, b: int|
                        0 <= a < b < room_list@.len() && door_on_shared_wall(
                            room_list@[a],
                            room_list@[b],
                            (Coord { x: (o.coord.x - dx) as i32, y: (o.coord.y - dy) as i32 }),
                        )
                } by {
                    if i < nid {
                        assert(before.object_live(i));
                        assert(s.object_at(i) == before.object_at(i));
                    } else {
                        assert(i == nid);
                        assert((ds.room_a as int) < (ds.room_b as int)
                            && (ds.room_b as int) < room_list@.len() && door_on_shared_wall(
                            room_list@[ds.room_a as int],
                            room_list@[ds.room_b as int],
                            (Coord {
                                x: (s.object_at(i).coord.x - dx) as i32,
                                y: (s.object_at(i).coord.y - dy) as i32,
                            }),
                        ));
                    }
                }
                lemma_idx_bound(coord.x as int, coord.y as int, w, h);
                assert forall|x: int, y: int|
                    #![trigger s.spec_tiles()[s.idx_of(x, y)]]
                    0 <= x < w && 0 <= y < h implies {
                    let t = s.spec_tiles()[s.idx_of(x, y)];
                    &&& t.actor is None
                    &&& (t.object is None ==> t.info == (if covered_by(
                        room_list@,
                        room_list@.len() as int,
                        x - dx,
                        y - dy,
                    ) {
                        *floor
                    } else {
                        *wall
                    }))
                    &&& (t.object is Some ==> t.info == *floor)
                } by {
                    lemma_idx_bound(x, y, w, h);
                    if x == coord.x as int && y == coord.y as int {
                        assert(s.spec_tiles()[s.idx_of(x, y)].object is Some);
                        assert(s.spec_tiles()[s.idx_of(x, y)].info == *floor);
                    } else {
                        lemma_idx_inj(x, y, coord.x as int, coord.y as int, h);
                        assert(s.spec_tiles()[s.idx_of(x, y)] == mid.spec_tiles()[mid.idx_of(
                            x,
                            y,
                        )]);
                    }
                }
            }
        } else {
            proof {
                let s = *dungeon;
                assert forall|x: int, y: int|
                    #![trigger s.spec_tiles()[s.idx_of(x, y)]]
                    0 <= x < s.spec_width() && 0 <= y < s.spec_height() implies {
                    let t = s.spec_tiles()[s.idx_of(x, y)];
                    &&& (t.object is None ==> t.info == (if covered_by(
                        room_list@,
                        room_list@.len() as int,
                        x - dx,
                        y - dy,
                    ) {
                        *floor
                    } else {
                        *wall
                    }))
                } by {
                    lemma_idx_bound(x, y, s.spec_width(), s.spec_height());
                    if x == coord.x as int && y == coord.y as int {
                        assert(s.spec_tiles()[s.idx_of(x, y)].object is Some);
                    }
                }
            }
        }
        di = di + 1;
    }
    proof {
        assert(room_grid_shape(
            *dungeon,
            *params,
            *wall,
            *floor,
            *door_data,
            room_list@,
            dx as int,
            dy as int,
        ));
    }
    let r0 = room_list[0];
    Ok(
        Rectangle {
            left: r0.left + dx,
            top: r0.top + dy,
            right: r0.right + dx,
            bottom: r0.bottom + dy,
        },
    )
}

/// Generates a dungeon level using the "room method", as
/// `gen_dungeon_room_start` does, without reporting the starting room.
pub fn gen_dungeon_room(
    dungeon: &mut Dungeon,
    params: &DungeonRoomParams,
    wall: &TileInfo,
    floor: &TileInfo,
    door_data: &crate::object::ObjectData,
) -> (r: GameResult<()>)
    requires
        old(dungeon).wf(),
        old(dungeon).spec_actors().len() == 0,
        old(dungeon).spec_objects().len() == 0,
        params_wf(*params),
        crate::defs::gr_wf(old(dungeon).spec_turn()),
        crate::defs::gr_wf(door_data.speed),
        door_data.speed.num >= 1,
    ensures
        final (dungeon).wf(),
        final (dungeon).spec_actors() == old(dungeon).spec_actors(),
        final (dungeon).spec_aq() == old(dungeon).spec_aq(),
        final (dungeon).spec_turn() == old(dungeon).spec_turn(),
        r matches Err(e) ==> *final (dungeon) == *old(dungeon) && e is UnexpectedError,
        params.max_num_rooms == 1 ==> r is Ok,
        r is Ok ==> final (dungeon).spec_width() >= 3 && final (dungeon).spec_height() >= 3,
        r is Ok ==> exists|rooms: Seq<Rectangle>, dx: int, dy: int|
            room_grid_shape(*final (dungeon), *params, *wall, *floor, *door_data, rooms, dx, dy),
{
    match gen_dungeon_room_start(dungeon, params, wall, floor, door_data) {
        Ok(_) => Ok(()),
        Err(e) => Err(e),
    }
}

/// Generates an empty 20 by 20 dungeon level of wall tiles, used in tests.
pub fn gen_dungeon_empty(dungeon: &mut Dungeon, wall: &TileInfo) -> (r: GameResult<()>)
    requires
        old(dungeon).wf(),
        old(dungeon).spec_actors().len() == 0,
        old(dungeon).spec_objects().len() == 0,
    ensures
        r is Ok,
        final (dungeon).wf(),
        final (dungeon).spec_width() == 20,
        final (dungeon).spec_height() == 20,
        final (dungeon).spec_actors() == old(dungeon).spec_actors(),
        final (dungeon).spec_objects() == old(dungeon).spec_objects(),
        final (dungeon).spec_aq() == old(dungeon).spec_aq(),
        final (dungeon).spec_oq() == old(dungeon).spec_oq(),
        final (dungeon).spec_turn() == old(dungeon).spec_turn(),
        forall|i: int|
            0 <= i < final (dungeon).spec_tiles().len() ==> {
                let t = #[trigger] final (dungeon).spec_tiles()[i];
                &&& t.info == *wall
                &&& t.actor is None
                &&& t.object is None
            },
{
    dungeon.init_grid(20, 20, wall)
}

/// Generates a single depth of the dungeon, by its layout kind.
pub fn gen_dungeon(
    dungeon: &mut Dungeon,
    params: &DungeonRoomParams,
    wall: &TileInfo,
    floor: &TileInfo,
    door_data: &crate::object::ObjectData,
) -> (r: GameResult<()>)
    requires
        old(dungeon).wf(),
        old(dungeon).spec_actors().len() == 0,
        old(dungeon).spec_objects().len() == 0,
        params_wf(*params),
        crate::defs::gr_wf(old(dungeon).spec_turn()),
        crate::defs::gr_wf(door_data.speed),
        door_data.speed.num >= 1,
    ensures
        final (dungeon).wf(),
        final (dungeon).spec_actors() == old(dungeon).spec_actors(),
        final (dungeon).spec_aq() == old(dungeon).spec_aq(),
        final (dungeon).spec_turn() == old(dungeon).spec_turn(),
        r matches Err(e) ==> *final (dungeon) == *old(dungeon) && e is UnexpectedError,
        old(dungeon).spec_dungeon_type() is Empty ==> r is Ok,
        params.max_num_rooms == 1 ==> r is Ok,
        r is Ok && old(dungeon).spec_dungeon_type() is Room ==> exists|
            rooms: Seq<Rectangle>,
            dx: int,
            dy: int,
        |
            room_grid_shape(*final (dungeon), *params, *wall, *floor, *door_data, rooms, dx, dy),
        r is Ok ==> final (dungeon).spec_width() >= 3 && final (dungeon).spec_height() >= 3,
{
    match dungeon.dungeon_type() {
        crate::dungeon::DungeonType::Room => gen_dungeon_room(
            dungeon,
            params,
            wall,
            floor,
            door_data,
        ),
        crate::dungeon::DungeonType::Empty => gen_dungeon_empty(dungeon, wall),
    }
}

/// Generates a single depth of the dungeon, by its layout kind, as
/// `gen_dungeon` does, and also returns the grid-space interior of the
/// seed room for layouts that have rooms: the world is built by placing
/// the player inside the first room.
pub fn gen_dungeon_start(
    dungeon: &mut Dungeon,
    params: &DungeonRoomParams,
    wall: &TileInfo,
    floor: &TileInfo,
    door_data: &crate::object::ObjectData,
) -> (r: GameResult<Option<Rectangle>>)
    requires
        old(dungeon).wf(),
        old(dungeon).spec_actors().len() == 0,
        old(dungeon).spec_objects().len() == 0,
        params_wf(*params),
        crate::defs::gr_wf(old(dungeon).spec_turn()),
        crate::defs::gr_wf(door_data.speed),
        door_data.speed.num >= 1,
    ensures
        final (dungeon).wf(),
        final (dungeon).spec_actors() == old(dungeon).spec_actors(),
        final (dungeon).spec_aq() == old(dungeon).spec_aq(),
        final (dungeon).spec_turn() == old(dungeon).spec_turn(),
        r matches Err(e) ==> *final (dungeon) == *old(dungeon) && e is UnexpectedError,
        old(dungeon).spec_dungeon_type() is Empty ==> r is Ok,
        params.max_num_rooms == 1 ==> r is Ok,
        r is Ok ==> final (dungeon).spec_width() >= 3 && final (dungeon).spec_height() >= 3,
        r matches Ok(s) ==> ((s is Some) <==> old(dungeon).spec_dungeon_type() is Room),
        r matches Ok(Some(a)) ==> ({
            &&& rect_wf(a)
            &&& 1 <= a.left && a.right <= final (dungeon).spec_width() - 2
            &&& 1 <= a.top && a.bottom <= final (dungeon).spec_height() - 2
            &&& exists|rooms: Seq<Rectangle>, dx: int, dy: int|
                {
                    &&& room_grid_shape(
                        *final (dungeon),
                        *params,
                        *wall,
                        *floor,
                        *door_data,
                        rooms,
                        dx,
                        dy,
                    )
                    &&& a.left == rooms[0].left + dx
                    &&& a.top == rooms[0].top + dy
                    &&& a.right == rooms[0].right + dx
                    &&& a.bottom == rooms[0].bottom + dy
                }
        }),
{
    match dungeon.dungeon_type() {
        crate::dungeon::DungeonType::Room => {
            match gen_dungeon_room_start(dungeon, params, wall, floor, door_data) {
                Ok(a) => {
                    proof {
                        let (rooms, dx, dy) = choose|rooms: Seq<Rectangle>, dx: int, dy: int|
                            {
                                &&& room_grid_shape(
                                    *dungeon,
                                    *params,
                                    *wall,
                                    *floor,
                                    *door_data,
                                    rooms,
                                    dx,
                                    dy,
                                )
                                &&& a.left == rooms[0].left + dx
                                &&& a.top == rooms[0].top + dy
                                &&& a.right == rooms[0].right + dx
                                &&& a.bottom == rooms[0].bottom + dy
                            };
                        assert(room_grid_shape(
                            *dungeon,
                            *params,
                            *wall,
                            *floor,
                            *door_data,
                            rooms,
                            dx,
                            dy,
                        ) && a.left == rooms[0].left + dx && a.top == rooms[0].top + dy && a.right
                            == rooms[0].right + dx && a.bottom == rooms[0].bottom + dy);
                    }
                    Ok(Some(a))
                },
                Err(e) => Err(e),
            }
        },
        crate::dungeon::DungeonType::Empty => {
            match gen_dungeon_empty(dungeon, wall) {
                Ok(_) => Ok(None),
                Err(e) => Err(e),
            }
        },
    }
}

/// Creates an actor from its stat block at a random open location of
/// `dungeon`, without adding it. Fails exactly when the dungeon has no
/// open tile left.
pub fn gen_actor_random_coord(dungeon: &Dungeon, actor_data: &crate::actor::ActorData) -> (r:
    GameResult<crate::actor::Actor>)
    requires
        dungeon.wf(),
        dungeon.spec_width() >= 1,
        dungeon.spec_height() >= 1,
        crate::defs::gr_wf(actor_data.speed),
        actor_data.speed.num >= 1,
        actor_data.hp <= i32::MAX,
    ensures
        r is Err ==> forall|x: int, y: int|
            0 <= x < dungeon.spec_width() && 0 <= y < dungeon.spec_height()
                ==> !dungeon.open_for_actor(x, y),
        r matches Err(e) ==> e is UnexpectedError,
        r matches Ok(a) ==> {
            &&& dungeon.in_bounds_spec(a.coord)
            &&& dungeon.open_for_actor(a.coord.x as int, a.coord.y as int)
            &&& crate::actor::actor_wf(a)
            &&& a.name == actor_data.name
            &&& a.speed == actor_data.speed
            &&& a.behavior == actor_data.behavior
            &&& crate::actor::gr_add_sat_rel(dungeon.spec_turn(), actor_data.speed, a.turn)
        },
{
    let coord = match dungeon.random_open_coord_actor() {
        Some(c) => c,
        None => {
            return err_unexpected("Ran out of tiles for new actors");
        },
    };
    Ok(crate::actor::Actor::new(coord, actor_data, dungeon.turn()))
}

} // verus!
