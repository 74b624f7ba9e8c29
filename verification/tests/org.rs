//! Org outline tests.

use taurus::org::{get_heading, process_org, write_org};

#[test]
fn test_get_heading() {
    assert!(get_heading("") == (String::from(""), 0));
    assert!(get_heading("Test") == (String::from("Test"), 0));
    assert!(get_heading("* Test") == (String::from("Test"), 1));
    assert!(get_heading("***Test") == (String::from("Test"), 3));
    assert!(get_heading("*****") == (String::new(), 5));
}

#[test]
fn org_round_trip_canonical() {
    // A document in canonical spacing survives parsing and writing.
    let lines = vec![
        String::from("intro line"),
        String::from("* First"),
        String::from("content a"),
        String::from("** Nested"),
        String::from("content b"),
        String::from("* Second"),
    ];
    let org = process_org(&lines);
    let written = write_org(&org);
    assert_eq!(written, lines);
}
