//! Fields of view: the cells within a radius of a centre that a line of
//! sight connects with it, and the `visible` flags that record them.

use crate::map::grid::{
    cell, grid_of, in_grid, lemma_addressable, lemma_grid_ext, lemma_with_tile, put_tile,
    same_shape, tile_at, tile_or_empty, with_tile, Grid,
};
use crate::map::sight::{
    lemma_sees_same_blocks, lemma_wall_then_floor, line, line_of_sight, sees, span, Line,
};
use crate::map::types::{GameMapTiles, Point};
use crate::tile::Tile;
use vstd::prelude::*;

verus! {

/// A cell that lies `dx` columns and `dy` rows from a centre is within
/// `radius` of it: the squared distance is at most the squared radius.
pub open spec fn within(radius: int, dx: int, dy: int) -> bool {
    dx * dx + dy * dy <= radius * radius
}

/// A cell within a radius lies within it along each axis.
pub proof fn lemma_within_box(radius: int, dx: int, dy: int)
    requires
        0 <= radius,
        within(radius, dx, dy),
    ensures
        -radius <= dx <= radius,
        -radius <= dy <= radius,
{
    assert(dy * dy >= 0) by (nonlinear_arith);
    assert(dx * dx >= 0) by (nonlinear_arith);
    assert(dx > radius ==> dx * dx > radius * radius) by (nonlinear_arith)
        requires
            0 <= radius,
    ;
    assert(dx < -radius ==> dx * dx > radius * radius) by (nonlinear_arith)
        requires
            0 <= radius,
    ;
    assert(dy > radius ==> dy * dy > radius * radius) by (nonlinear_arith)
        requires
            0 <= radius,
    ;
    assert(dy < -radius ==> dy * dy > radius * radius) by (nonlinear_arith)
        requires
            0 <= radius,
    ;
}

/// The line of sight between a centre and the cell `(x, y)`. An observer
/// looks from the centre at the cell; an obelisk is looked at from the cell.
pub open spec fn sight_line(cx: int, cy: int, x: int, y: int, by_obelisk: bool) -> Line {
    if by_obelisk {
        Line { x0: x, y0: y, x1: cx, y1: cy }
    } else {
        Line { x0: cx, y0: cy, x1: x, y1: y }
    }
}

/// The cell `(x, y)` lies in the grid, within `radius` of the centre
/// `(cx, cy)`, and a line of sight connects the two.
pub open spec fn in_reach(
    grid: Grid,
    cx: int,
    cy: int,
    radius: int,
    by_obelisk: bool,
    is_player_cursed: bool,
    x: int,
    y: int,
) -> bool {
    &&& in_grid(grid, x, y)
    &&& within(radius, x - cx, y - cy)
    &&& sees(grid, sight_line(cx, cy, x, y, by_obelisk), by_obelisk, is_player_cursed)
}

/// The cell that `p` names is in reach of `center`.
pub open spec fn reaches(
    grid: Grid,
    center: Point,
    radius: u32,
    by_obelisk: bool,
    is_player_cursed: bool,
    p: Point,
) -> bool {
    in_reach(
        grid,
        center.x as int,
        center.y as int,
        radius as int,
        by_obelisk,
        is_player_cursed,
        p.x as int,
        p.y as int,
    )
}

/// All cells in reach of a centre.
pub open spec fn reach(
    grid: Grid,
    center: Point,
    radius: u32,
    by_obelisk: bool,
    is_player_cursed: bool,
) -> Set<Point> {
    Set::new(|p: Point| reaches(grid, center, radius, by_obelisk, is_player_cursed, p))
}

/// The field of view of an observer at `pov`: the cells of the grid within
/// `radius` that the observer has a line of sight to.
pub open spec fn field_of_view(grid: Grid, pov: Point, radius: u32, is_player_cursed: bool) -> Set<
    Point,
> {
    reach(grid, pov, radius, false, is_player_cursed)
}

/// The grid with the `visible` flag of every listed cell set to `visible`.
pub open spec fn shown_in(grid: Grid, cells: Set<Point>, visible: bool) -> Grid {
    Seq::new(
        grid.len(),
        |y: int|
            Seq::new(
                grid[y].len(),
                |x: int|
                    if cells.contains(cell(x, y)) {
                        grid[y][x].shown_as(visible)
                    } else {
                        grid[y][x]
                    },
            ),
    )
}

/// The grid after a field of view is computed afresh: the cells in `before`
/// lose their `visible` flag, then the cells in `now` gain it.
pub open spec fn relit(grid: Grid, before: Set<Point>, now: Set<Point>) -> Grid {
    shown_in(shown_in(grid, before, false), now, true)
}

/// Every tile whose `visible` flag is set lies in `cells`.
pub open spec fn shown_only_in(grid: Grid, cells: Set<Point>) -> bool {
    forall|x: int, y: int|
        in_grid(grid, x, y) && (#[trigger] tile_at(grid, x, y)).shown() ==> cells.contains(
            cell(x, y),
        )
}

/// What `shown_in` does, cell by cell.
pub proof fn lemma_shown_in(grid: Grid, cells: Set<Point>, visible: bool)
    ensures
        same_shape(grid, shown_in(grid, cells, visible)),
        forall|x: int, y: int|
            #![trigger tile_at(shown_in(grid, cells, visible), x, y)]
            tile_at(shown_in(grid, cells, visible), x, y) == if cells.contains(cell(x, y)) {
                tile_at(grid, x, y).shown_as(visible)
            } else {
                tile_at(grid, x, y)
            },
{
}

/// Setting `visible` flags changes no line of sight.
pub proof fn lemma_shown_in_sees(
    grid: Grid,
    cells: Set<Point>,
    visible: bool,
    line: Line,
    by_obelisk: bool,
    is_player_cursed: bool,
)
    ensures
        sees(shown_in(grid, cells, visible), line, by_obelisk, is_player_cursed) == sees(
            grid,
            line,
            by_obelisk,
            is_player_cursed,
        ),
{
    lemma_shown_in(grid, cells, visible);
    lemma_sees_same_blocks(
        shown_in(grid, cells, visible),
        grid,
        line,
        by_obelisk,
        is_player_cursed,
    );
}

/// Setting `visible` flags changes no field of view.
pub proof fn lemma_shown_in_reach(
    grid: Grid,
    cells: Set<Point>,
    visible: bool,
    center: Point,
    radius: u32,
    by_obelisk: bool,
    is_player_cursed: bool,
)
    ensures
        reach(shown_in(grid, cells, visible), center, radius, by_obelisk, is_player_cursed)
            == reach(grid, center, radius, by_obelisk, is_player_cursed),
{
    let lit = shown_in(grid, cells, visible);
    lemma_shown_in(grid, cells, visible);
    assert forall|p: Point|
        reaches(lit, center, radius, by_obelisk, is_player_cursed, p)
            == reaches(
                grid,
                center,
                radius,
                by_obelisk,
                is_player_cursed,
                p,
            ) by {
        lemma_shown_in_sees(
            grid,
            cells,
            visible,
            sight_line(center.x as int, center.y as int, p.x as int, p.y as int, by_obelisk),
            by_obelisk,
            is_player_cursed,
        );
    }
    assert(reach(lit, center, radius, by_obelisk, is_player_cursed) =~= reach(
        grid,
        center,
        radius,
        by_obelisk,
        is_player_cursed,
    ));
}

/// A fresh field of view leaves no stale flags: if every tile that was
/// flagged `visible` lay in `before`, then after the cells of `before` are
/// cleared and those of `now` are lit, the flagged tiles are those of `now`
/// that can carry the flag, and no others.
pub proof fn lemma_relit_exact(grid: Grid, before: Set<Point>, now: Set<Point>)
    requires
        shown_only_in(grid, before),
    ensures
        shown_only_in(relit(grid, before, now), now),
        forall|x: int, y: int|
            in_grid(grid, x, y) ==> ((#[trigger] tile_at(relit(grid, before, now), x, y)).shown()
                <==> now.contains(cell(x, y)) && tile_at(grid, x, y).has_visible_flag()),
{
    let dark = shown_in(grid, before, false);
    lemma_shown_in(grid, before, false);
    lemma_shown_in(dark, now, true);
    assert forall|x: int, y: int| in_grid(grid, x, y) implies ((#[trigger] tile_at(
        relit(grid, before, now),
        x,
        y,
    )).shown() <==> now.contains(cell(x, y)) && tile_at(grid, x, y).has_visible_flag()) by {
        let t = tile_at(grid, x, y);
        let d = tile_at(dark, x, y);
        assert(t.shown() ==> before.contains(cell(x, y)));
    }
    assert forall|x: int, y: int|
        in_grid(relit(grid, before, now), x, y) && (#[trigger] tile_at(
            relit(grid, before, now),
            x,
            y,
        )).shown() implies now.contains(cell(x, y)) by {
        assert(dark[y].len() == grid[y].len());
        assert(in_grid(grid, x, y));
    }
}

/// Two fields of view in a row, from any two places: the flags that the
/// second leaves are those of the second field of view alone.
pub proof fn lemma_fov_twice(
    grid: Grid,
    seen: Set<Point>,
    first: Point,
    first_radius: u32,
    first_cursed: bool,
    second: Point,
    second_radius: u32,
    second_cursed: bool,
)
    requires
        shown_only_in(grid, seen),
    ensures
        ({
            let one = field_of_view(grid, first, first_radius, first_cursed);
            let after_one = relit(grid, seen, one);
            let two = field_of_view(after_one, second, second_radius, second_cursed);
            let after_two = relit(after_one, one, two);
            &&& two == field_of_view(grid, second, second_radius, second_cursed)
            &&& forall|x: int, y: int|
                in_grid(grid, x, y) ==> ((#[trigger] tile_at(after_two, x, y)).shown()
                    <==> two.contains(cell(x, y)) && tile_at(grid, x, y).has_visible_flag())
        }),
{
    let one = field_of_view(grid, first, first_radius, first_cursed);
    let dark = shown_in(grid, seen, false);
    let after_one = relit(grid, seen, one);
    let two = field_of_view(after_one, second, second_radius, second_cursed);
    let after_two = relit(after_one, one, two);
    lemma_relit_exact(grid, seen, one);
    lemma_relit_exact(after_one, one, two);
    lemma_shown_in_reach(grid, seen, false, second, second_radius, false, second_cursed);
    lemma_shown_in_reach(dark, one, true, second, second_radius, false, second_cursed);
    lemma_shown_in(grid, seen, false);
    lemma_shown_in(dark, one, true);
    assert forall|x: int, y: int| in_grid(grid, x, y) implies ((#[trigger] tile_at(
        after_two,
        x,
        y,
    )).shown() <==> two.contains(cell(x, y)) && tile_at(grid, x, y).has_visible_flag()) by {
        assert(dark[y].len() == grid[y].len());
        assert(after_one[y].len() == dark[y].len());
        assert(in_grid(after_one, x, y));
        let t = tile_at(after_one, x, y);
        let d = tile_at(dark, x, y);
    }
}

/// A wall on the way takes a cell out of the field of view, and plain floor
/// in its place brings the cell back: where `target` lies in the field of
/// view of `pov`, a wall on a cell that the line walk from `pov` to `target`
/// stands on before it arrives leaves `target` out of view, and floor without
/// a curse on that cell puts it back in view.
pub proof fn lemma_wall_hides(
    grid: Grid,
    pov: Point,
    radius: u32,
    is_player_cursed: bool,
    target: Point,
    k: nat,
    visible: bool,
)
    requires
        field_of_view(grid, pov, radius, is_player_cursed).contains(target),
        forall|j: nat| j <= k ==> !line(pov, target).arrives(j),
        in_grid(grid, line(pov, target).at(k).x, line(pov, target).at(k).y),
    ensures
        ({
            let x = line(pov, target).at(k).x;
            let y = line(pov, target).at(k).y;
            let blocked = with_tile(grid, x, y, Tile::Wall { visible });
            let cleared = with_tile(blocked, x, y, Tile::Floor { visible, cursed: false });
            &&& !field_of_view(blocked, pov, radius, is_player_cursed).contains(target)
            &&& field_of_view(cleared, pov, radius, is_player_cursed).contains(target)
        }),
{
    let way = line(pov, target);
    let x = way.at(k).x;
    let y = way.at(k).y;
    let blocked = with_tile(grid, x, y, Tile::Wall { visible });
    lemma_wall_then_floor(grid, way, k, false, is_player_cursed, visible);
    lemma_with_tile(grid, x, y, Tile::Wall { visible });
    lemma_with_tile(blocked, x, y, Tile::Floor { visible, cursed: false });
}

/// The distance between two coordinates.
fn gap(a: usize, b: usize) -> (d: usize)
    ensures
        d == span(a as int, b as int),
{
    if a < b {
        b - a
    } else {
        a - b
    }
}

/// Whether a cell `dx` columns and `dy` rows away lies within `radius`.
fn is_within(radius: u32, dx: usize, dy: usize) -> (inside: bool)
    requires
        dx <= radius,
        dy <= radius,
    ensures
        inside == within(radius as int, dx as int, dy as int),
{
    let r: u128 = radius as u128;
    let a: u128 = dx as u128;
    let b: u128 = dy as u128;
    assert(a * a <= 0xFFFF_FFFF * 0xFFFF_FFFF && b * b <= 0xFFFF_FFFF * 0xFFFF_FFFF && r * r
        <= 0xFFFF_FFFF * 0xFFFF_FFFF) by (nonlinear_arith)
        requires
            a <= 0xFFFF_FFFF,
            b <= 0xFFFF_FFFF,
            r <= 0xFFFF_FFFF,
    ;
    a * a + b * b <= r * r
}

/// The first index of a window of half-width `radius` around `center`.
fn window_start(center: usize, radius: u32) -> (start: usize)
    ensures
        start as int == if center as int - radius >= 0 {
            center as int - radius
        } else {
            0
        },
{
    let r: usize = radius as usize;
    if center >= r {
        center - r
    } else {
        0
    }
}

/// The end (one past the last index) of a window of half-width `radius`
/// around `center`, cut off at `limit`.
fn window_end(center: usize, radius: u32, limit: usize) -> (end: usize)
    ensures
        end as int == if center + radius < limit {
            center + radius + 1
        } else {
            limit as int
        },
{
    let r: usize = radius as usize;
    if center <= usize::MAX - r && center + r < limit {
        center + r + 1
    } else {
        limit
    }
}

/// Lists the cells in reach of `center`, row by row and each cell once.
pub fn cells_in_reach(
    tiles: &GameMapTiles,
    center: Point,
    radius: u32,
    by_obelisk: bool,
    is_player_cursed: bool,
) -> (cells: Vec<Point>)
    ensures
        cells@.no_duplicates(),
        cells@.to_set() == reach(grid_of(tiles@), center, radius, by_obelisk, is_player_cursed),
{
    let ghost grid = grid_of(tiles@);
    let mut cells: Vec<Point> = Vec::new();
    let y_start: usize = window_start(center.y, radius);
    let y_end: usize = window_end(center.y, radius, tiles.len());
    let mut y: usize = y_start;
    proof {
        assert forall|p: Point| reaches(
                grid,
                center,
                radius,
                by_obelisk,
                is_player_cursed,
                p,
            ) implies p.y >= y_start by {
            lemma_within_box(radius as int, p.x - center.x, p.y - center.y);
        }
    }
    while y < y_end
        invariant
            grid == grid_of(tiles@),
            y_start <= y,
            y_start as int == if center.y as int - radius >= 0 {
                center.y as int - radius
            } else {
                0
            },
            y_end as int == if center.y + radius < tiles.len() {
                center.y + radius + 1
            } else {
                tiles.len() as int
            },
            cells@.no_duplicates(),
            forall|p: Point| cells@.contains(p) <==> (p.y < y && reaches(
                grid,
                center,
                radius,
                by_obelisk,
                is_player_cursed,
                p,
            )),
        decreases y_end - y,
    {
        let dy: usize = gap(y, center.y);
        let x_start: usize = window_start(center.x, radius);
        let x_end: usize = window_end(center.x, radius, tiles[y].len());
        let mut x: usize = x_start;
        proof {
            assert forall|p: Point| reaches(
                    grid,
                    center,
                    radius,
                    by_obelisk,
                    is_player_cursed,
                    p,
                ) implies p.x >= x_start by {
                lemma_within_box(radius as int, p.x - center.x, p.y - center.y);
            }
        }
        while x < x_end
            invariant
                grid == grid_of(tiles@),
                y < tiles.len(),
                dy == span(y as int, center.y as int),
                dy <= radius,
                x_start <= x,
                x_start as int == if center.x as int - radius >= 0 {
                    center.x as int - radius
                } else {
                    0
                },
                x_end as int == if center.x + radius < tiles[y as int].len() {
                    center.x + radius + 1
                } else {
                    tiles[y as int].len() as int
                },
                cells@.no_duplicates(),
                forall|p: Point|
                    cells@.contains(p) <==> ((p.y < y || (p.y == y && p.x < x)) && reaches(
                        grid,
                        center,
                        radius,
                        by_obelisk,
                        is_player_cursed,
                        p,
                    )),
            decreases x_end - x,
        {
            let dx: usize = gap(x, center.x);
            let near: bool = is_within(radius, dx, dy);
            assert(near == within(radius as int, x - center.x, y - center.y)) by (nonlinear_arith)
                requires
                    near == within(radius as int, dx as int, dy as int),
                    dx == x - center.x || dx == -(x - center.x),
                    dy == y - center.y || dy == -(y - center.y),
            ;
            let seen: bool = near && if by_obelisk {
                line_of_sight(tiles, x, y, center.x, center.y, by_obelisk, is_player_cursed)
            } else {
                line_of_sight(tiles, center.x, center.y, x, y, by_obelisk, is_player_cursed)
            };
            let here: Point = Point::new(x, y);
            assert(in_grid(grid, x as int, y as int));
            assert(seen == reaches(
                grid,
                center,
                radius,
                by_obelisk,
                is_player_cursed,
                here,
            ));
            let ghost listed = cells@;
            if seen {
                cells.push(here);
                proof {
                    assert(!listed.contains(here));
                    assert forall|p: Point|
                        cells@.contains(p) <==> (listed.contains(p) || p == here) by {
                        vstd::seq_lib::lemma_seq_contains_after_push(listed, here, p);
                    }
                    assert forall|i: int, j: int|
                        0 <= i < cells@.len() && 0 <= j < cells@.len() && i != j implies cells@[i]
                        != cells@[j] by {
                        if i < listed.len() {
                            assert(listed.contains(cells@[i]));
                        }
                        if j < listed.len() {
                            assert(listed.contains(cells@[j]));
                        }
                    }
                }
            }
            proof {
                assert forall|p: Point|
                    cells@.contains(p) <==> ((p.y < y || (p.y == y && p.x < x + 1)) && reaches(
                        grid,
                        center,
                        radius,
                        by_obelisk,
                        is_player_cursed,
                        p,
                    )) by {
                    if p.y == y && p.x == x {
                        assert(p == here);
                    }
                    if seen {
                        assert(cells@.contains(p) <==> (listed.contains(p) || p == here));
                    }
                }
            }
            x = x + 1;
        }
        proof {
            // Nothing in this row lies in reach beyond the window.
            assert forall|p: Point| p.y == y && reaches(
                    grid,
                    center,
                    radius,
                    by_obelisk,
                    is_player_cursed,
                    p,
                ) implies p.x < x by {
                lemma_within_box(radius as int, p.x - center.x, p.y - center.y);
            }
            assert forall|p: Point| cells@.contains(p) <==> (p.y < y + 1 && reaches(
                    grid,
                    center,
                    radius,
                    by_obelisk,
                    is_player_cursed,
                    p,
                )) by {
                if p.y == y && reaches(
                        grid,
                        center,
                        radius,
                        by_obelisk,
                        is_player_cursed,
                        p,
                    ) {
                    assert(p.x < x);
                }
            }
        }
        y = y + 1;
    }
    proof {
        assert forall|p: Point| reaches(
                grid,
                center,
                radius,
                by_obelisk,
                is_player_cursed,
                p,
            ) implies p.y < y by {
            lemma_within_box(radius as int, p.x - center.x, p.y - center.y);
        }
        assert(cells@.to_set() =~= reach(grid, center, radius, by_obelisk, is_player_cursed));
    }
    cells
}

/// Sets the `visible` flag of every listed cell to `visible`.
pub fn set_visibility(tiles: &mut GameMapTiles, cells: &Vec<Point>, visible: bool)
    ensures
        grid_of(final(tiles)@) == shown_in(grid_of(old(tiles)@), cells@.to_set(), visible),
{
    let ghost start = grid_of(tiles@);
    let mut i: usize = 0;
    proof {
        lemma_shown_in(start, cells@.take(0).to_set(), visible);
        lemma_grid_ext(start, shown_in(start, cells@.take(0).to_set(), visible));
    }
    while i < cells.len()
        invariant
            i <= cells.len(),
            grid_of(tiles@) == shown_in(start, cells@.take(i as int).to_set(), visible),
        decreases cells.len() - i,
    {
        let point: Point = cells[i];
        let ghost before = grid_of(tiles@);
        let ghost done = cells@.take(i as int).to_set();
        let ghost next = cells@.take(i + 1).to_set();
        let tile: Tile = tile_or_empty(tiles, point).with_visibility(visible);
        put_tile(tiles, point, tile);
        proof {
            let after = grid_of(tiles@);
            lemma_shown_in(start, done, visible);
            lemma_shown_in(start, next, visible);
            lemma_with_tile(before, point.x as int, point.y as int, tile);
            lemma_addressable(tiles);
            assert(cells@.take(i + 1) =~= cells@.take(i as int).push(point));
            assert forall|p: Point| next.contains(p) <==> (done.contains(p) || p == point) by {
                vstd::seq_lib::lemma_seq_contains_after_push(cells@.take(i as int), point, p);
            }
            assert forall|x: int, y: int| in_grid(after, x, y) implies tile_at(after, x, y)
                == tile_at(shown_in(start, next, visible), x, y) by {
                if x == point.x && y == point.y {
                    assert(cell(x, y) == point);
                } else {
                    assert(cell(x, y) != point);
                }
            }
            lemma_grid_ext(after, shown_in(start, next, visible));
        }
        i = i + 1;
    }
    proof {
        assert(cells@.take(cells.len() as int) =~= cells@);
    }
}

} // verus!
