//! Room tests.

use taurus::generate::Room;

#[test]
fn generate_room_new() {
    assert_eq!(Room::new(1, 1, 2, 2), Room::from_dimensions(1, 1, 2, 2));
}

#[test]
fn generate_room_overlaps() {
    let rooms = vec![
        Room::new(0, 0, 1, 1),
        Room::new(1, 0, 3, 3),
        Room::new(-1, -1, 4, 4),
        Room::new(-3, -3, -2, -2),
    ];

    assert!(rooms[0].overlaps(&rooms[1]));
    assert!(rooms[0].overlaps(&rooms[2]));
    assert!(rooms[2].overlaps(&rooms[3]));
    assert!(!rooms[0].overlaps(&rooms[3]));
    assert!(!rooms[1].overlaps(&rooms[3]));

    for (i, room1) in rooms.iter().enumerate() {
        for (j, room2) in rooms.iter().enumerate() {
            if i == j {
                assert!(room1.overlaps(room2));
            }
            assert_eq!(room1.overlaps(room2), room2.overlaps(room1));
        }
    }
}

#[test]
fn room_room_new() {
    assert_eq!(Room::new(1, 1, 2, 2), Room::from_dimensions(1, 1, 2, 2));
}

#[test]
fn room_room_overlaps() {
    let rooms = vec![
        Room::new(0, 0, 1, 1),
        Room::new(1, 0, 3, 3),
        Room::new(-1, -1, 4, 4),
        Room::new(-3, -3, -2, -2),
    ];

    assert!(rooms[0].overlaps(&rooms[1]));
    assert!(rooms[0].overlaps(&rooms[2]));
    assert!(rooms[2].overlaps(&rooms[3]));
    assert!(!rooms[0].overlaps(&rooms[3]));
    assert!(!rooms[1].overlaps(&rooms[3]));

    for (i, room1) in rooms.iter().enumerate() {
        for (j, room2) in rooms.iter().enumerate() {
            if i == j {
                assert!(room1.overlaps(room2));
            }
            assert_eq!(room1.overlaps(room2), room2.overlaps(room1));
        }
    }
}
