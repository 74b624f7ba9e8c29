//! Console-facing value types: colors and console settings. The drawing
//! console itself lives outside the library, next to the rest of the I/O.

use crate::convert::{all_hex_digits, color_code_to_rgb, hex_digit_val, strip_hash};
use crate::error::GameError;
use crate::GameResult;
use vstd::prelude::*;

verus! {

/// Color struct.
#[derive(Clone, Copy, Debug, PartialEq, Eq, Structural)]
pub struct Color {
    pub r: u8,
    pub g: u8,
    pub b: u8,
}

impl Color {
    /// Parses a 6-digit hex color code, optionally starting with '#'.
    /// Returns a `ConversionError` exactly on strings of any other shape.
    pub fn from_code(s: &str) -> (res: GameResult<Color>)
        ensures
            res is Ok <==> strip_hash(s@).len() == 6 && all_hex_digits(strip_hash(s@)),
            res matches Ok(c) ==> {
                let ds = strip_hash(s@);
                &&& c.r == hex_digit_val(ds[0]) * 16 + hex_digit_val(ds[1])
                &&& c.g == hex_digit_val(ds[2]) * 16 + hex_digit_val(ds[3])
                &&& c.b == hex_digit_val(ds[4]) * 16 + hex_digit_val(ds[5])
            },
            res matches Err(e) ==> e is ConversionError,
    {
        match color_code_to_rgb(s) {
            Some((r, g, b)) => Ok(Color { r, g, b }),
            None => Err(
                GameError::ConversionError {
                    val: s.to_owned(),
                    msg: "Make sure the string is in the format \"#FFFFFF\".",
                },
            ),
        }
    }
}

impl Default for Color {
    /// Black.
    fn default() -> (r: Color)
        ensures
            r.r == 0 && r.g == 0 && r.b == 0,
    {
        Color { r: 0, g: 0, b: 0 }
    }
}

/// Parameters of the drawing console, read from configuration.
#[derive(Debug, Clone)]
pub struct ConsoleSettings {
    pub title: String,
    pub width: i32,
    pub height: i32,
    pub fps: i32,
    pub font: String,
    pub background_color: Color,
}

impl ConsoleSettings {
    /// Bundles console parameters, as read from configuration.
    pub fn new(title: String, width: i32, height: i32, fps: i32, font: String, background_color:
        Color) -> (r: ConsoleSettings)
        ensures
            r.title == title,
            r.width == width,
            r.height == height,
            r.fps == fps,
            r.font == font,
            r.background_color == background_color,
    {
        ConsoleSettings { title, width, height, fps, font, background_color }
    }
}

} // verus!
