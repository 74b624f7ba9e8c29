//! Rectangle tests.

use taurus::rectangle::Rectangle;

#[test]
fn rectangle_new() {
    assert_eq!(
        Rectangle::new(1, 1, 2, 2),
        Rectangle::from_dimensions(1, 1, 2, 2)
    );

    assert_eq!(
        Rectangle::new(0, 0, 0, 0),
        Rectangle::from_dimensions(0, 0, 1, 1)
    );
}

#[test]
fn rectangle_overlaps() {
    let rectangles = vec![
        Rectangle::new(0, 0, 1, 1),
        Rectangle::new(1, 0, 3, 3),
        Rectangle::new(-1, -1, 4, 4),
        Rectangle::new(-3, -3, -2, -2),
    ];

    assert!(rectangles[0].overlaps(&rectangles[1]));
    assert!(rectangles[0].overlaps(&rectangles[2]));
    assert!(rectangles[2].overlaps(&rectangles[3]));
    assert!(!rectangles[0].overlaps(&rectangles[3]));
    assert!(!rectangles[1].overlaps(&rectangles[3]));

    for (i, rectangle1) in rectangles.iter().enumerate() {
        for (j, rectangle2) in rectangles.iter().enumerate() {
            if i == j {
                assert!(rectangle1.overlaps(rectangle2));
            }
            assert_eq!(
                rectangle1.overlaps(rectangle2),
                rectangle2.overlaps(rectangle1)
            );
        }
    }
}
