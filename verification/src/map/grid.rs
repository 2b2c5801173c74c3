//! The mathematical model of a grid of tiles, and the bounds-checked reads
//! and writes that everything else is built on.
//!
//! A grid is a sequence of rows. A cell outside the grid reads as `Empty`,
//! and a write to it changes nothing.

use crate::map::types::{GameMapTiles, Point};
use crate::tile::Tile;
use vstd::prelude::*;

verus! {

/// A grid as a value: `grid[y][x]` is the tile in column `x` of row `y`.
pub type Grid = Seq<Seq<Tile>>;

/// The grid that a vector of rows holds.
pub open spec fn grid_of(tiles: Seq<Vec<Tile>>) -> Grid {
    Seq::new(tiles.len(), |y: int| tiles[y]@)
}

/// The point that names the cell `(x, y)`.
pub open spec fn cell(x: int, y: int) -> Point {
    Point { x: x as usize, y: y as usize }
}

/// The number of rows.
pub open spec fn rows(grid: Grid) -> nat {
    grid.len()
}

/// The number of columns, read off the first row; zero without rows.
pub open spec fn columns(grid: Grid) -> nat {
    if grid.len() == 0 {
        0
    } else {
        grid[0].len()
    }
}

/// Every row is as long as the first.
pub open spec fn rectangular(grid: Grid) -> bool {
    forall|y: int| 0 <= y < grid.len() ==> (#[trigger] grid[y]).len() == columns(grid)
}

/// Two grids have the same rows of the same lengths.
pub open spec fn same_shape(a: Grid, b: Grid) -> bool {
    &&& a.len() == b.len()
    &&& forall|y: int| 0 <= y < a.len() ==> (#[trigger] a[y]).len() == b[y].len()
}

/// The cell `(x, y)` lies in the grid.
pub open spec fn in_grid(grid: Grid, x: int, y: int) -> bool {
    0 <= y < grid.len() && 0 <= x < grid[y].len()
}

/// The tile at `(x, y)`; `Empty` outside the grid.
pub open spec fn tile_at(grid: Grid, x: int, y: int) -> Tile {
    if in_grid(grid, x, y) {
        grid[y][x]
    } else {
        Tile::Empty
    }
}

/// The grid with `tile` at `(x, y)`; the same grid when the cell lies
/// outside.
pub open spec fn with_tile(grid: Grid, x: int, y: int, tile: Tile) -> Grid {
    if in_grid(grid, x, y) {
        grid.update(y, grid[y].update(x, tile))
    } else {
        grid
    }
}

/// A grid of `height` rows and `width` columns with `tile` in every cell.
pub open spec fn filled(width: nat, height: nat, tile: Tile) -> Grid {
    Seq::new(height, |y: int| Seq::new(width, |x: int| tile))
}

/// The grid with `tile` in every cell of the block of columns `x0..x1` and
/// rows `y0..y1`.
pub open spec fn with_block(grid: Grid, x0: int, y0: int, x1: int, y1: int, tile: Tile) -> Grid {
    Seq::new(
        grid.len(),
        |y: int|
            Seq::new(
                grid[y].len(),
                |x: int|
                    if x0 <= x < x1 && y0 <= y < y1 {
                        tile
                    } else {
                        grid[y][x]
                    },
            ),
    )
}

/// Every index into the grid is a machine coordinate.
pub open spec fn addressable(grid: Grid) -> bool {
    &&& grid.len() <= usize::MAX
    &&& forall|y: int| 0 <= y < grid.len() ==> (#[trigger] grid[y]).len() <= usize::MAX
}

/// A grid held in memory is addressable.
pub proof fn lemma_addressable(tiles: &GameMapTiles)
    ensures
        addressable(grid_of(tiles@)),
{
    assert(tiles@.len() == tiles.len());
    assert forall|y: int| 0 <= y < tiles@.len() implies (#[trigger] grid_of(tiles@)[y]).len()
        <= usize::MAX by {
        assert(tiles@[y]@.len() == tiles@[y].len());
    }
}

/// Outside the grid every read gives `Empty` and every write is lost. In a
/// rectangular grid, outside means a column or a row beyond the grid's
/// numbers of columns and rows.
pub proof fn lemma_outside_is_empty(grid: Grid, x: int, y: int, tile: Tile)
    ensures
        !in_grid(grid, x, y) ==> tile_at(grid, x, y) == Tile::Empty && with_tile(grid, x, y, tile)
            == grid,
        rectangular(grid) ==> (in_grid(grid, x, y) <==> 0 <= x < columns(grid) && 0 <= y < rows(
            grid,
        )),
{
    if rectangular(grid) && 0 <= y < grid.len() {
        assert(grid[y].len() == columns(grid));
    }
}

/// Two grids are the same grid when they agree in shape and in every cell.
pub proof fn lemma_grid_ext(a: Grid, b: Grid)
    requires
        same_shape(a, b),
        forall|x: int, y: int| in_grid(a, x, y) ==> tile_at(a, x, y) == tile_at(b, x, y),
    ensures
        a == b,
{
    assert forall|y: int| 0 <= y < a.len() implies a[y] == b[y] by {
        assert(a[y].len() == b[y].len());
        assert forall|x: int| 0 <= x < a[y].len() implies a[y][x] == b[y][x] by {
            assert(in_grid(a, x, y));
            assert(tile_at(a, x, y) == tile_at(b, x, y));
        }
        assert(a[y] =~= b[y]);
    }
    assert(a =~= b);
}

/// What a write does, cell by cell: the written cell holds the new tile if it
/// lies in the grid, and every other cell keeps its tile.
pub proof fn lemma_with_tile(grid: Grid, x: int, y: int, tile: Tile)
    ensures
        same_shape(grid, with_tile(grid, x, y, tile)),
        forall|i: int, j: int|
            #![trigger tile_at(with_tile(grid, x, y, tile), i, j)]
            tile_at(with_tile(grid, x, y, tile), i, j) == if i == x && j == y && in_grid(
                grid,
                x,
                y,
            ) {
                tile
            } else {
                tile_at(grid, i, j)
            },
        forall|i: int, j: int|
            #![trigger in_grid(with_tile(grid, x, y, tile), i, j)]
            in_grid(with_tile(grid, x, y, tile), i, j) == in_grid(grid, i, j),
{
}

/// The tile at `position`, or `Empty` when the position lies outside the
/// grid.
pub fn tile_or_empty(tiles: &GameMapTiles, position: Point) -> (tile: Tile)
    ensures
        tile == tile_at(grid_of(tiles@), position.x as int, position.y as int),
{
    if position.y < tiles.len() && position.x < tiles[position.y].len() {
        tiles[position.y][position.x]
    } else {
        Tile::Empty
    }
}

/// Writes `tile` at `position`; does nothing when the position lies outside
/// the grid.
pub fn put_tile(tiles: &mut GameMapTiles, position: Point, tile: Tile)
    ensures
        grid_of(final(tiles)@) == with_tile(
            grid_of(old(tiles)@),
            position.x as int,
            position.y as int,
            tile,
        ),
{
    if position.y < tiles.len() && position.x < tiles[position.y].len() {
        tiles[position.y][position.x] = tile;
        assert(grid_of(tiles@) =~~= with_tile(
            grid_of(old(tiles)@),
            position.x as int,
            position.y as int,
            tile,
        ));
    }
}

/// Writes `tile` into every cell of the block of columns `x0..x1` and rows
/// `y0..y1` that lies in the grid.
pub fn fill_block(tiles: &mut GameMapTiles, x0: usize, y0: usize, x1: usize, y1: usize, tile: Tile)
    ensures
        grid_of(final(tiles)@) == with_block(
            grid_of(old(tiles)@),
            x0 as int,
            y0 as int,
            x1 as int,
            y1 as int,
            tile,
        ),
{
    let ghost start = grid_of(tiles@);
    let y_end: usize = if y1 < tiles.len() {
        y1
    } else {
        tiles.len()
    };
    let mut y: usize = y0;
    while y < y_end
        invariant
            y0 <= y,
            y <= y_end || y == y0,
            y_end <= tiles.len(),
            y_end == if y1 < tiles.len() {
                y1
            } else {
                tiles.len()
            },
            same_shape(start, grid_of(tiles@)),
            forall|i: int, j: int|
                in_grid(start, i, j) ==> #[trigger] tile_at(grid_of(tiles@), i, j) == if x0 <= i
                    < x1 && y0 <= j < y {
                    tile
                } else {
                    tile_at(start, i, j)
                },
        decreases y_end - y,
    {
        let x_end: usize = if x1 < tiles[y].len() {
            x1
        } else {
            tiles[y].len()
        };
        let mut x: usize = x0;
        while x < x_end
            invariant
                x0 <= x,
                x <= x_end || x == x0,
                y0 <= y < y_end,
                y_end <= tiles.len(),
                x_end == if x1 < tiles[y as int].len() {
                    x1
                } else {
                    tiles[y as int].len()
                },
                same_shape(start, grid_of(tiles@)),
                forall|i: int, j: int|
                    in_grid(start, i, j) ==> #[trigger] tile_at(grid_of(tiles@), i, j) == if x0
                        <= i < x1 && (y0 <= j < y || (j == y && i < x)) {
                        tile
                    } else {
                        tile_at(start, i, j)
                    },
            decreases x_end - x,
        {
            let ghost before = grid_of(tiles@);
            put_tile(tiles, Point { x, y }, tile);
            proof {
                lemma_with_tile(before, x as int, y as int, tile);
                assert(before[y as int].len() == start[y as int].len());
            }
            x = x + 1;
        }
        y = y + 1;
    }
    proof {
        let done = grid_of(tiles@);
        let goal = with_block(start, x0 as int, y0 as int, x1 as int, y1 as int, tile);
        assert forall|i: int, j: int| in_grid(done, i, j) implies tile_at(done, i, j) == tile_at(
            goal,
            i,
            j,
        ) by {
            assert(start[j].len() == done[j].len());
            assert(in_grid(start, i, j));
        }
        lemma_grid_ext(done, goal);
    }
}

} // verus!
