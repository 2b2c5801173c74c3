//! What part of a map a screen shows: the window around the player, and the
//! camera that scrolls over a dungeon.

use crate::map::types::Point;
use vstd::prelude::*;

verus! {

/// A direction in which a camera scrolls.
#[derive(Clone, Copy, Debug, PartialEq, Eq, Structural)]
pub enum Scroll {
    Left,
    Right,
    Up,
    Down,
}

/// A range of columns or rows: from `start` up to, but not including, `end`.
#[derive(Clone, Copy, Debug, PartialEq, Eq, Structural)]
pub struct Window {
    pub start: usize,
    pub end: usize,
}

/// The smaller of two numbers.
pub open spec fn least(a: int, b: int) -> int {
    if a < b {
        a
    } else {
        b
    }
}

/// `a - b`, or zero where that would be negative.
pub open spec fn monus(a: int, b: int) -> int {
    if a < b {
        0
    } else {
        a - b
    }
}

/// The window of `visible` cells around `center` on an axis of `limit`
/// cells: it starts half the visible length before the centre, or at the
/// first cell, and ends with the axis at the latest.
pub open spec fn window_around(center: int, visible: int, limit: int) -> (int, int) {
    let start = monus(center, visible / 2);
    (start, least(start + visible, limit))
}

/// The farthest that a camera may stand along an axis of `length` cells of
/// which the screen shows `viewport`.
pub open spec fn camera_limit(length: int, viewport: int) -> int {
    monus(length, viewport)
}

/// Where the camera stands after a scroll by one cell, kept inside a dungeon
/// of the given size of which the screen shows the given viewport.
pub open spec fn scrolled(
    camera: Point,
    scroll: Scroll,
    dungeon_width: int,
    dungeon_height: int,
    viewport_width: int,
    viewport_height: int,
) -> (int, int) {
    let x = match scroll {
        Scroll::Left => monus(camera.x as int, 1),
        Scroll::Right => camera.x + 1,
        _ => camera.x as int,
    };
    let y = match scroll {
        Scroll::Up => monus(camera.y as int, 1),
        Scroll::Down => camera.y + 1,
        _ => camera.y as int,
    };
    (
        least(x, camera_limit(dungeon_width, viewport_width)),
        least(y, camera_limit(dungeon_height, viewport_height)),
    )
}

/// The window of `visible` cells around `center` on an axis of `limit`
/// cells.
pub fn window(center: usize, visible: usize, limit: usize) -> (shown: Window)
    ensures
        shown.start == window_around(center as int, visible as int, limit as int).0,
        shown.end == window_around(center as int, visible as int, limit as int).1,
{
    let start: usize = center.saturating_sub(visible / 2);
    let end: usize = if start <= limit && visible <= limit - start {
        start + visible
    } else {
        limit
    };
    Window { start, end }
}

/// Scrolls the camera by one cell and keeps it inside the dungeon.
pub fn scroll_camera(
    camera: Point,
    scroll: Scroll,
    dungeon_width: usize,
    dungeon_height: usize,
    viewport_width: usize,
    viewport_height: usize,
) -> (moved: Point)
    ensures
        moved.x == scrolled(
            camera,
            scroll,
            dungeon_width as int,
            dungeon_height as int,
            viewport_width as int,
            viewport_height as int,
        ).0,
        moved.y == scrolled(
            camera,
            scroll,
            dungeon_width as int,
            dungeon_height as int,
            viewport_width as int,
            viewport_height as int,
        ).1,
{
    let limit_x: usize = dungeon_width.saturating_sub(viewport_width);
    let limit_y: usize = dungeon_height.saturating_sub(viewport_height);
    let mut x: usize = camera.x;
    let mut y: usize = camera.y;
    match scroll {
        Scroll::Left => {
            x = x.saturating_sub(1);
        },
        Scroll::Right => {
            x = if x < limit_x {
                x + 1
            } else {
                limit_x
            };
        },
        Scroll::Up => {
            y = y.saturating_sub(1);
        },
        Scroll::Down => {
            y = if y < limit_y {
                y + 1
            } else {
                limit_y
            };
        },
    }
    if x > limit_x {
        x = limit_x;
    }
    if y > limit_y {
        y = limit_y;
    }
    Point { x, y }
}

/// The index along an axis of `length` cells that the screen shows at
/// `offset` cells from the camera: the last cell where the axis ends before.
pub fn shown_index(camera: usize, offset: usize, length: usize) -> (index: usize)
    ensures
        index == least(camera + offset, monus(length as int, 1)),
{
    let last: usize = length.saturating_sub(1);
    if camera <= last && offset <= last - camera {
        camera + offset
    } else {
        last
    }
}

} // verus!
