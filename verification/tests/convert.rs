//! Hex conversion tests.

use taurus::convert::{color_code_to_rgb, hex_char_to_int, hex_str_to_int};

#[test]
fn test_hex_char_to_int() {
    assert_eq!(hex_char_to_int('0'), Some(0));
    assert_eq!(hex_char_to_int('a'), Some(10));
    assert_eq!(hex_char_to_int('F'), Some(15));
    assert_eq!(hex_char_to_int('G'), None);
    assert_eq!(hex_char_to_int('#'), None);
}

#[test]
fn test_hex_str_to_int() {
    assert_eq!(hex_str_to_int("#FF"), Some(255));
    assert_eq!(hex_str_to_int("FF"), Some(255));
    assert_eq!(hex_str_to_int("#0"), Some(0));
    assert_eq!(hex_str_to_int("0"), Some(0));

    assert_eq!(hex_str_to_int("G"), None);
    assert_eq!(hex_str_to_int("#"), None);
}

#[test]
fn test_color_code_to_rgb() {
    let (r, g, b) = color_code_to_rgb("#ff00ff").unwrap();
    assert_eq!(r, 255);
    assert_eq!(g, 0);
    assert_eq!(b, 255);

    let (r, g, b) = color_code_to_rgb("0f0f00").unwrap();
    assert_eq!(r, 15);
    assert_eq!(g, 15);
    assert_eq!(b, 0);

    assert_eq!(color_code_to_rgb("#FF00"), None);
    assert_eq!(color_code_to_rgb("FF00FFF"), None);
    assert_eq!(color_code_to_rgb("FF00GG"), None);
}
