//! Curse propagation: every cursing obelisk curses the floor, and the
//! player, that it sees within its radius.

use crate::map::fov::{cells_in_reach, in_reach, reach, reaches, sight_line};
use crate::map::grid::{
    cell, grid_of, in_grid, lemma_addressable, lemma_grid_ext, lemma_with_tile, put_tile, same_shape,
    tile_at, tile_or_empty, with_tile, Grid,
};
use crate::map::sight::lemma_sees_same_blocks;
use crate::map::types::{GameMapTiles, Point};
use crate::tile::Tile;
use vstd::prelude::*;

verus! {

/// The tile at `(ox, oy)` is an obelisk that curses, and the cell `(x, y)`
/// lies in its reach: within its `fov`, with a line of sight to the obelisk
/// under the obelisk's rule.
pub open spec fn curses(grid: Grid, ox: int, oy: int, x: int, y: int) -> bool {
    tile_at(grid, ox, oy) matches Tile::Obelisk { curse, fov, .. } && curse && in_reach(
        grid,
        ox,
        oy,
        fov as int,
        true,
        false,
        x,
        y,
    )
}

/// Some obelisk of the grid curses the cell `(x, y)`.
pub open spec fn in_curse_area(grid: Grid, x: int, y: int) -> bool {
    exists|ox: int, oy: int| in_grid(grid, ox, oy) && #[trigger] curses(grid, ox, oy, x, y)
}

/// The grid with the curse of every tile set to `cursed`.
pub open spec fn all_cursed_as(grid: Grid, cursed: bool) -> Grid {
    Seq::new(grid.len(), |y: int| Seq::new(grid[y].len(), |x: int| grid[y][x].cursed_as(cursed)))
}

/// The grid with the curse laid on every listed cell.
pub open spec fn cursed_in(grid: Grid, cells: Set<Point>) -> Grid {
    Seq::new(
        grid.len(),
        |y: int|
            Seq::new(
                grid[y].len(),
                |x: int|
                    if cells.contains(cell(x, y)) {
                        grid[y][x].cursed_as(true)
                    } else {
                        grid[y][x]
                    },
            ),
    )
}

/// The grid after the curses of a turn: a floor or player in the curse area
/// of some obelisk is cursed, every other floor or player is not, and
/// nothing else changes.
pub open spec fn after_curses(grid: Grid) -> Grid {
    Seq::new(
        grid.len(),
        |y: int|
            Seq::new(grid[y].len(), |x: int| grid[y][x].cursed_as(in_curse_area(grid, x, y))),
    )
}

/// Two grids differ in nothing but the curse on their tiles.
pub open spec fn same_but_curses(a: Grid, b: Grid) -> bool {
    &&& same_shape(a, b)
    &&& forall|x: int, y: int|
        (#[trigger] tile_at(a, x, y)).cursed_as(false) == tile_at(b, x, y).cursed_as(false)
}

/// What obelisks curse does not depend on what is cursed already.
pub proof fn lemma_curse_area_ignores_curses(a: Grid, b: Grid)
    requires
        same_but_curses(a, b),
    ensures
        forall|x: int, y: int| #[trigger] in_curse_area(a, x, y) == in_curse_area(b, x, y),
{
    assert forall|ox: int, oy: int, x: int, y: int| #[trigger]
        curses(a, ox, oy, x, y) == curses(b, ox, oy, x, y) by {
        lemma_curses_ignores_curses(a, b, ox, oy, x, y);
    }
    assert forall|x: int, y: int| #[trigger] in_curse_area(a, x, y) == in_curse_area(b, x, y) by {
        if in_curse_area(a, x, y) {
            let (ox, oy) = choose|ox: int, oy: int|
                in_grid(a, ox, oy) && #[trigger] curses(a, ox, oy, x, y);
            assert(in_grid(b, ox, oy) && curses(b, ox, oy, x, y));
        }
        if in_curse_area(b, x, y) {
            let (ox, oy) = choose|ox: int, oy: int|
                in_grid(b, ox, oy) && #[trigger] curses(b, ox, oy, x, y);
            assert(a[oy].len() == b[oy].len());
            assert(in_grid(a, ox, oy) && curses(a, ox, oy, x, y));
        }
    }
}

proof fn lemma_curses_ignores_curses(a: Grid, b: Grid, ox: int, oy: int, x: int, y: int)
    requires
        same_but_curses(a, b),
    ensures
        curses(a, ox, oy, x, y) == curses(b, ox, oy, x, y),
{
    assert(tile_at(a, ox, oy).cursed_as(false) == tile_at(b, ox, oy).cursed_as(false));
    assert(in_grid(a, x, y) == in_grid(b, x, y)) by {
        if 0 <= y < a.len() {
            assert(a[y].len() == b[y].len());
        }
    }
    assert forall|i: int, j: int|
        tile_at(a, i, j).blocks_sight(true, false) == (#[trigger] tile_at(b, i, j)).blocks_sight(
            true,
            false,
        ) by {
        assert(tile_at(a, i, j).cursed_as(false) == tile_at(b, i, j).cursed_as(false));
    }
    lemma_sees_same_blocks(a, b, sight_line(ox, oy, x, y, true), true, false);
}

/// Laying the curses of a turn twice in a row gives the grid that laying
/// them once gives.
pub proof fn lemma_curses_idempotent(grid: Grid)
    ensures
        after_curses(after_curses(grid)) == after_curses(grid),
{
    let once = after_curses(grid);
    let twice = after_curses(once);
    assert(same_but_curses(grid, once));
    lemma_curse_area_ignores_curses(grid, once);
    assert forall|x: int, y: int| in_grid(twice, x, y) implies tile_at(twice, x, y) == tile_at(
        once,
        x,
        y,
    ) by {
        assert(in_curse_area(grid, x, y) == in_curse_area(once, x, y));
    }
    lemma_grid_ext(twice, once);
}

/// Clears the curse from every floor and from the player, wherever they are.
pub fn clear_curses(tiles: &mut GameMapTiles)
    ensures
        grid_of(final(tiles)@) == all_cursed_as(grid_of(old(tiles)@), false),
{
    let ghost start = grid_of(tiles@);
    let mut y: usize = 0;
    while y < tiles.len()
        invariant
            same_shape(start, grid_of(tiles@)),
            forall|i: int, j: int|
                in_grid(start, i, j) ==> #[trigger] tile_at(grid_of(tiles@), i, j) == if j < y {
                    tile_at(start, i, j).cursed_as(false)
                } else {
                    tile_at(start, i, j)
                },
        decreases tiles.len() - y,
    {
        let mut x: usize = 0;
        while x < tiles[y].len()
            invariant
                y < tiles.len(),
                same_shape(start, grid_of(tiles@)),
                forall|i: int, j: int|
                    in_grid(start, i, j) ==> #[trigger] tile_at(grid_of(tiles@), i, j) == if j < y
                        || (j == y && i < x) {
                        tile_at(start, i, j).cursed_as(false)
                    } else {
                        tile_at(start, i, j)
                    },
            decreases tiles[y as int].len() - x,
        {
            let point: Point = Point::new(x, y);
            let ghost before = grid_of(tiles@);
            let tile: Tile = tile_or_empty(tiles, point);
            if let Tile::Floor { cursed: true, visible } = tile {
                put_tile(tiles, point, Tile::Floor { cursed: false, visible });
            } else if let Tile::Player { is_cursed: true, is_dead } = tile {
                put_tile(tiles, point, Tile::Player { is_cursed: false, is_dead });
            }
            proof {
                assert(grid_of(tiles@) == with_tile(
                    before,
                    x as int,
                    y as int,
                    tile.cursed_as(false),
                )) by {
                    lemma_with_tile(before, x as int, y as int, tile.cursed_as(false));
                    if tile.cursed_as(false) == tile {
                        lemma_grid_ext(
                            before,
                            with_tile(
                                before,
                                x as int,
                                y as int,
                                tile.cursed_as(false),
                            ),
                        );
                    }
                }
                lemma_with_tile(before, x as int, y as int, tile.cursed_as(false));
                assert(before[y as int].len() == start[y as int].len());
            }
            x = x + 1;
        }
        y = y + 1;
    }
    proof {
        lemma_grid_ext(grid_of(tiles@), all_cursed_as(start, false));
    }
}

/// Lays the curse on every listed cell that can carry it.
pub fn curse_cells(tiles: &mut GameMapTiles, cells: &Vec<Point>)
    ensures
        grid_of(final(tiles)@) == cursed_in(grid_of(old(tiles)@), cells@.to_set()),
{
    let ghost start = grid_of(tiles@);
    let mut i: usize = 0;
    proof {
        lemma_grid_ext(start, cursed_in(start, cells@.take(0).to_set()));
    }
    while i < cells.len()
        invariant
            i <= cells.len(),
            grid_of(tiles@) == cursed_in(start, cells@.take(i as int).to_set()),
        decreases cells.len() - i,
    {
        let point: Point = cells[i];
        let ghost before = grid_of(tiles@);
        let ghost done = cells@.take(i as int).to_set();
        let ghost next = cells@.take(i + 1).to_set();
        let tile: Tile = tile_or_empty(tiles, point);
        if let Tile::Floor { visible, .. } = tile {
            put_tile(tiles, point, Tile::Floor { visible, cursed: true });
        } else if let Tile::Player { is_dead, .. } = tile {
            put_tile(tiles, point, Tile::Player { is_dead, is_cursed: true });
        }
        proof {
            let after = grid_of(tiles@);
            lemma_with_tile(before, point.x as int, point.y as int, tile.cursed_as(true));
            lemma_addressable(tiles);
            assert(cells@.take(i + 1) =~= cells@.take(i as int).push(point));
            assert forall|p: Point| next.contains(p) <==> (done.contains(p) || p == point) by {
                vstd::seq_lib::lemma_seq_contains_after_push(cells@.take(i as int), point, p);
            }
            assert(same_shape(after, cursed_in(start, next)));
            assert forall|x: int, y: int| in_grid(after, x, y) implies tile_at(after, x, y)
                == tile_at(cursed_in(start, next), x, y) by {
                if x == point.x && y == point.y {
                    assert(cell(x, y) == point);
                } else {
                    assert(cell(x, y) != point);
                }
            }
            lemma_grid_ext(after, cursed_in(start, next));
        }
        i = i + 1;
    }
    proof {
        assert(cells@.take(cells.len() as int) =~= cells@);
    }
}

/// Adds to `cursed_tiles` the cells in reach of an obelisk at `center` with
/// the given radius.
pub fn calculate_curse_area(
    tiles: &GameMapTiles,
    center: Point,
    radius: u32,
    cursed_tiles: &mut Vec<Point>,
)
    ensures
        final(cursed_tiles)@.to_set() == old(cursed_tiles)@.to_set().union(
            reach(grid_of(tiles@), center, radius, true, false),
        ),
{
    let mut area: Vec<Point> = cells_in_reach(tiles, center, radius, true, false);
    let ghost listed = cursed_tiles@;
    let ghost added = area@;
    cursed_tiles.append(&mut area);
    proof {
        assert forall|p: Point| (listed + added).contains(p) <==> (listed.contains(p)
            || added.contains(p)) by {
            if listed.contains(p) {
                let i = choose|i: int| 0 <= i < listed.len() && listed[i] == p;
                assert((listed + added)[i] == p);
            }
            if added.contains(p) {
                let i = choose|i: int| 0 <= i < added.len() && added[i] == p;
                assert((listed + added)[listed.len() + i] == p);
            }
        }
        assert(cursed_tiles@.to_set() =~= listed.to_set().union(added.to_set()));
    }
}

/// The cell `(ox, oy)` comes before `(x, y)` when the grid is read row by
/// row.
pub open spec fn comes_before(ox: int, oy: int, x: int, y: int) -> bool {
    oy < y || (oy == y && ox < x)
}

/// Some obelisk that comes before `(cx, cy)` curses the cell `(x, y)`.
pub open spec fn cursed_before(grid: Grid, cx: int, cy: int, x: int, y: int) -> bool {
    exists|ox: int, oy: int|
        in_grid(grid, ox, oy) && comes_before(ox, oy, cx, cy) && #[trigger] curses(
            grid,
            ox,
            oy,
            x,
            y,
        )
}

/// The curses of one turn: clears every curse, then curses the floor and the
/// player wherever a cursing obelisk reaches them.
pub fn apply_curses(tiles: &mut GameMapTiles)
    ensures
        grid_of(final(tiles)@) == after_curses(grid_of(old(tiles)@)),
{
    let ghost start = grid_of(tiles@);
    clear_curses(tiles);
    let ghost cleared = grid_of(tiles@);
    let mut cursed_tiles: Vec<Point> = Vec::new();
    let mut y: usize = 0;
    while y < tiles.len()
        invariant
            cleared == grid_of(tiles@),
            forall|p: Point|
                cursed_tiles@.contains(p) <==> cursed_before(
                    cleared,
                    0,
                    y as int,
                    p.x as int,
                    p.y as int,
                ),
        decreases tiles.len() - y,
    {
        let mut x: usize = 0;
        while x < tiles[y].len()
            invariant
                y < tiles.len(),
                cleared == grid_of(tiles@),
                forall|p: Point|
                    cursed_tiles@.contains(p) <==> cursed_before(
                        cleared,
                        x as int,
                        y as int,
                        p.x as int,
                        p.y as int,
                    ),
            decreases tiles[y as int].len() - x,
        {
            let point: Point = Point::new(x, y);
            let ghost listed = cursed_tiles@;
            let tile: Tile = tile_or_empty(tiles, point);
            if let Tile::Obelisk { curse: true, fov, .. } = tile {
                calculate_curse_area(tiles, point, fov, &mut cursed_tiles);
            }
            proof {
                assert forall|p: Point|
                    cursed_tiles@.contains(p) <==> cursed_before(
                        cleared,
                        x + 1,
                        y as int,
                        p.x as int,
                        p.y as int,
                    ) by {
                    let from_here = curses(cleared, x as int, y as int, p.x as int, p.y as int);
                    assert(cursed_tiles@.contains(p) <==> (listed.contains(p) || from_here)) by {
                        if let Tile::Obelisk { curse: true, fov, .. } = tile {
                            assert(cursed_tiles@.to_set().contains(p) <==> (listed.to_set().contains(
                                p,
                            ) || reach(cleared, point, fov, true, false).contains(p)));
                            assert(reach(cleared, point, fov, true, false).contains(p) == reaches(
                                cleared,
                                point,
                                fov,
                                true,
                                false,
                                p,
                            ));
                        }
                    }
                    if cursed_before(cleared, x + 1, y as int, p.x as int, p.y as int) {
                        let (ox, oy) = choose|ox: int, oy: int|
                            in_grid(cleared, ox, oy) && comes_before(ox, oy, x + 1, y as int)
                                && #[trigger] curses(cleared, ox, oy, p.x as int, p.y as int);
                        if ox == x && oy == y {
                            assert(from_here);
                        } else {
                            assert(comes_before(ox, oy, x as int, y as int));
                            assert(cursed_before(
                                cleared,
                                x as int,
                                y as int,
                                p.x as int,
                                p.y as int,
                            ));
                        }
                    }
                    if listed.contains(p) {
                        let (ox, oy) = choose|ox: int, oy: int|
                            in_grid(cleared, ox, oy) && comes_before(ox, oy, x as int, y as int)
                                && #[trigger] curses(cleared, ox, oy, p.x as int, p.y as int);
                        assert(comes_before(ox, oy, x + 1, y as int));
                    }
                    if from_here {
                        assert(in_grid(cleared, x as int, y as int));
                        assert(comes_before(x as int, y as int, x + 1, y as int));
                    }
                }
            }
            x = x + 1;
        }
        proof {
            assert forall|p: Point|
                cursed_tiles@.contains(p) <==> cursed_before(
                    cleared,
                    0,
                    y + 1,
                    p.x as int,
                    p.y as int,
                ) by {
                if cursed_before(cleared, 0, y + 1, p.x as int, p.y as int) {
                    let (ox, oy) = choose|ox: int, oy: int|
                        in_grid(cleared, ox, oy) && comes_before(ox, oy, 0, y + 1)
                            && #[trigger] curses(cleared, ox, oy, p.x as int, p.y as int);
                    assert(comes_before(ox, oy, x as int, y as int));
                }
                if cursed_before(cleared, x as int, y as int, p.x as int, p.y as int) {
                    let (ox, oy) = choose|ox: int, oy: int|
                        in_grid(cleared, ox, oy) && comes_before(ox, oy, x as int, y as int)
                            && #[trigger] curses(cleared, ox, oy, p.x as int, p.y as int);
                    assert(comes_before(ox, oy, 0, y + 1));
                }
            }
        }
        y = y + 1;
    }
    curse_cells(tiles, &cursed_tiles);
    proof {
        let done = grid_of(tiles@);
        lemma_addressable(tiles);
        assert(same_but_curses(start, cleared));
        lemma_curse_area_ignores_curses(start, cleared);
        assert(same_shape(done, after_curses(start)));
        assert forall|i: int, j: int| in_grid(done, i, j) implies tile_at(done, i, j) == tile_at(
            after_curses(start),
            i,
            j,
        ) by {
            let p = cell(i, j);
            assert(p.x == i && p.y == j);
            assert(in_curse_area(start, i, j) == in_curse_area(cleared, i, j));
            if in_curse_area(cleared, i, j) {
                let (ox, oy) = choose|ox: int, oy: int|
                    in_grid(cleared, ox, oy) && #[trigger] curses(cleared, ox, oy, i, j);
                assert(comes_before(ox, oy, 0, y as int));
                assert(cursed_before(cleared, 0, y as int, i, j));
            }
            if cursed_tiles@.contains(p) {
                assert(cursed_before(cleared, 0, y as int, i, j));
            }
            assert(cursed_tiles@.to_set().contains(p) == in_curse_area(cleared, i, j));
        }
        lemma_grid_ext(done, after_curses(start));
    }
}

} // verus!
