//! User interface values: view-window geometry and the drawing trait that
//! the renderer consumes.

use crate::console::Color;
use crate::coord::Coord;
use crate::rectangle::{rect_wf, Rectangle};
use vstd::prelude::*;

verus! {

/// A struct containing UI parameters.
#[derive(Copy, Clone, Debug)]
pub struct UiSettings {
    pub game_width: usize,
    pub game_height: usize,
}

impl UiSettings {
    /// Bundles the UI parameters, as read from configuration.
    pub fn new(game_width: usize, game_height: usize) -> (r: UiSettings)
        ensures
            r.game_width == game_width,
            r.game_height == game_height,
    {
        UiSettings { game_width, game_height }
    }
}

/// Trait for any object that can be drawn.
pub trait Draw {
    /// The glyph to draw.
    fn draw_c(&self) -> char;

    /// The color to draw the glyph in.
    fn draw_color(&self) -> Color;
}

/// Computes the window of the dungeon that the screen shows, centered on
/// the player.
pub fn calc_game_view(settings: &UiSettings, player: Coord) -> (r: Rectangle)
    requires
        settings.game_width / 2 <= i32::MAX,
        settings.game_height / 2 <= i32::MAX,
        i32::MIN <= player.x - settings.game_width / 2,
        player.x + settings.game_width / 2 <= i32::MAX,
        i32::MIN <= player.y - settings.game_height / 2,
        player.y + settings.game_height / 2 <= i32::MAX,
    ensures
        rect_wf(r),
        r.left == player.x - settings.game_width / 2,
        r.right == player.x + settings.game_width / 2,
        r.top == player.y - settings.game_height / 2,
        r.bottom == player.y + settings.game_height / 2,
{
    let width_radius = (settings.game_width / 2) as i32;
    let height_radius = (settings.game_height / 2) as i32;

    let view_left = player.x - width_radius;
    let view_top = player.y - height_radius;
    let view_right = player.x + width_radius;
    let view_bottom = player.y + height_radius;

    Rectangle::new(view_left, view_top, view_right, view_bottom)
}

} // verus!
