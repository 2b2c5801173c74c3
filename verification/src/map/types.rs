use crate::tile::Tile;
use vstd::prelude::*;

verus! {

/// One row of the grid, left to right.
pub type GameTileRow = Vec<Tile>;

/// The tiles of a grid, one row after another from the top.
pub type GameMapTiles = Vec<GameTileRow>;

/// A cell coordinate along one axis of the grid.
pub type Coordinate = usize;

/// The position of one cell: column `x`, row `y`.
#[derive(Debug, Clone, Copy, PartialEq, Eq, Hash, Structural)]
pub struct Point {
    pub x: Coordinate,
    pub y: Coordinate,
}

impl Point {
    pub fn new(x: Coordinate, y: Coordinate) -> (p: Point)
        ensures
            p == (Point { x, y }),
    {
        Point { x, y }
    }
}

} // verus!
