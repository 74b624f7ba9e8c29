//! Language helper tests: capitalization and name generation.

use taurus::lang::{cap, name_gen};
use taurus::language;
use taurus::rng::rand_range_usize;
use taurus::string_util::capitalize;

#[test]
fn lang_test_cap() {
    assert_eq!("C", cap("c"));
    assert_eq!("", cap(""));
    assert_eq!("Cap", cap("cap"));
    assert_eq!("Yabba dabba", cap("yabba dabba"));
}

#[test]
fn test_name_gen() {
    for _ in 1..1000 {
        let min = rand_range_usize(3, 5);
        let max = rand_range_usize(6, 40);
        let name = name_gen(min, max);

        assert!(name.len() >= min);
        assert!(name.len() <= max);
    }
}

#[test]
fn language_test_cap() {
    let str1 = String::from("cap");
    let str2 = String::from("yabba dabba doo");

    assert_eq!("Cap", language::cap(&str1));
    assert_eq!("Yabba dabba doo", language::cap(&str2));
}

#[test]
fn language_name_gen_nonempty() {
    for _ in 0..100 {
        let name = language::name_gen(12);
        assert!(!name.is_empty());
        assert!(name.len() <= 14);
    }
}

#[test]
fn test_capitalize() {
    assert_eq!("C", capitalize("c"));
    assert_eq!("", capitalize(""));
    assert_eq!("Cap", capitalize("cap"));
    assert_eq!("Yabba dabba", capitalize("yabba dabba"));
    assert_eq!("Doo", capitalize("Doo"));
}
