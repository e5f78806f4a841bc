use vstd::prelude::*;

verus! {

pub const MAP_X: i32 = SIDE_W + 1;

pub const MAP_Y: i32 = 1;

pub const MAP_W: i32 = 79;

pub const MAP_H: i32 = 50;

pub const SIDE_X: i32 = 0;

pub const SIDE_Y: i32 = 0;

pub const SIDE_W: i32 = 16;

pub const SIDE_H: i32 = 50;

pub const CONSOLE_WIDTH: i32 = MAP_W + SIDE_W + 2;

pub const CONSOLE_HEIGHT: i32 = MAP_H + 15 + 2;

/// The largest size, and the largest distance from the origin, of a box
/// that can be placed.
pub const BOX_LIMIT: i32 = 0x1000_0000;

/// Where a box is drawn that stems from a point of the screen: its top left
/// corner, and on which side of the point it lies.
#[derive(Clone, Copy, Debug, PartialEq, Eq, Structural)]
pub struct BoxPlacement {
    pub x: i32,
    pub y: i32,
    pub right: bool,
    pub down: bool,
}

/// The placement of a box of `w` by `h` that stems from the point
/// `(x, y)`: to the right of the point and below it where the screen has the
/// room, else to the left, or above.
pub open spec fn box_placement(x: int, y: int, w: int, h: int) -> BoxPlacement {
    let right = x + w < CONSOLE_WIDTH - 1;
    let down = y + h < MAP_H;
    BoxPlacement {
        x: (if right {
            x + 1
        } else {
            x - w - 1
        }) as i32,
        y: (if down {
            y
        } else {
            y - h
        }) as i32,
        right,
        down,
    }
}

/// Places a box that stems from the point `(x, y)`.
pub fn position_box(x: i32, y: i32, w: i32, h: i32) -> (placed: BoxPlacement)
    requires
        -BOX_LIMIT <= x <= BOX_LIMIT,
        -BOX_LIMIT <= y <= BOX_LIMIT,
        -BOX_LIMIT <= w <= BOX_LIMIT,
        -BOX_LIMIT <= h <= BOX_LIMIT,
    ensures
        placed == box_placement(x as int, y as int, w as int, h as int),
{
    let right = x + w < CONSOLE_WIDTH - 1;
    let down = y + h < MAP_H;
    let box_x: i32 = if right {
        x + 1
    } else {
        x - w - 1
    };
    let box_y: i32 = if down {
        y
    } else {
        y - h
    };
    BoxPlacement { x: box_x, y: box_y, right, down }
}

} // verus!
