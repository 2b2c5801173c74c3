//! Corridors: walks from one room to another that lay floor where they step
//! and wall around it.

use crate::generator::bsp::BSPNode;
use crate::generator::room::{fresh_floor, fresh_wall, Room};
use crate::map::grid::{
    columns, grid_of, in_grid, lemma_addressable, lemma_grid_ext, lemma_with_tile, put_tile,
    rectangular, rows, same_shape, tile_at, tile_or_empty, with_tile, Grid,
};
use crate::map::sight::span;
use crate::map::types::{GameMapTiles, Point};
use crate::random::chance;
use crate::tile::Tile;
use vstd::prelude::*;

verus! {

/// Out of how many steps, on average, a walk turns of its own accord once.
pub const TURN_ODDS: u32 = 5;

/// The tile can be walked through once its doors are opened: floor, or a
/// door.
pub open spec fn passable(tile: Tile) -> bool {
    tile is Floor || tile is Door
}

/// The two cells share a side.
pub open spec fn adjacent(a: Point, b: Point) -> bool {
    ||| (a.x == b.x && (a.y + 1 == b.y || b.y + 1 == a.y))
    ||| (a.y == b.y && (a.x + 1 == b.x || b.x + 1 == a.x))
}

/// `path` leads from `a` to `b` through the grid: from each of its cells to
/// the next is one step to a cell that shares a side, and every cell but the
/// last is passable. The last cell may hold anything.
pub open spec fn leads(grid: Grid, path: Seq<Point>, a: Point, b: Point) -> bool {
    &&& path.len() > 0
    &&& path[0] == a
    &&& path[path.len() - 1] == b
    &&& forall|i: int|
        0 <= i < path.len() - 1 ==> adjacent(#[trigger] path[i], path[i + 1]) && passable(
            tile_at(grid, path[i].x as int, path[i].y as int),
        )
}

/// Some path leads from `a` to `b`.
pub open spec fn joined(grid: Grid, a: Point, b: Point) -> bool {
    exists|path: Seq<Point>| #[trigger] leads(grid, path, a, b)
}

/// Whatever is passable in `before` is passable in `after`.
pub open spec fn keeps_passages(before: Grid, after: Grid) -> bool {
    forall|x: int, y: int|
        passable(tile_at(before, x, y)) ==> passable(#[trigger] tile_at(after, x, y))
}

/// The grid after corridors were carved: every cell either keeps its tile,
/// or holds new floor, or was empty and holds new wall.
pub open spec fn carved(before: Grid, after: Grid) -> bool {
    &&& same_shape(before, after)
    &&& forall|x: int, y: int|
        #![trigger tile_at(after, x, y)]
        {
            ||| tile_at(after, x, y) == tile_at(before, x, y)
            ||| (in_grid(before, x, y) && tile_at(after, x, y) == fresh_floor())
            ||| (tile_at(before, x, y) is Empty && tile_at(after, x, y) == fresh_wall())
        }
}

/// The grid with a corridor cell stamped at `(x, y)`: floor on the cell
/// itself, and wall on each of the eight cells around it that was empty.
pub open spec fn stamped(grid: Grid, x: int, y: int) -> Grid {
    Seq::new(
        grid.len(),
        |j: int|
            Seq::new(
                grid[j].len(),
                |i: int|
                    if i == x && j == y {
                        fresh_floor()
                    } else if x - 1 <= i <= x + 1 && y - 1 <= j <= y + 1 && grid[j][i] is Empty {
                        fresh_wall()
                    } else {
                        grid[j][i]
                    },
            ),
    )
}

/// A cell is joined with itself.
pub proof fn lemma_joined_self(grid: Grid, a: Point)
    ensures
        joined(grid, a, a),
{
    assert(leads(grid, seq![a], a, a));
}

/// A path stays a path when nothing passable is lost.
pub proof fn lemma_joined_kept(before: Grid, after: Grid, a: Point, b: Point)
    requires
        joined(before, a, b),
        keeps_passages(before, after),
    ensures
        joined(after, a, b),
{
    let path = choose|path: Seq<Point>| #[trigger] leads(before, path, a, b);
    assert forall|i: int| 0 <= i < path.len() - 1 implies adjacent(#[trigger] path[i], path[i + 1])
        && passable(tile_at(after, path[i].x as int, path[i].y as int)) by {
        assert(passable(tile_at(before, path[i].x as int, path[i].y as int)));
    }
    assert(leads(after, path, a, b));
}

/// Paths can be put end to end.
pub proof fn lemma_joined_onward(grid: Grid, a: Point, b: Point, c: Point)
    requires
        joined(grid, a, b),
        joined(grid, b, c),
    ensures
        joined(grid, a, c),
{
    let first = choose|path: Seq<Point>| #[trigger] leads(grid, path, a, b);
    let second = choose|path: Seq<Point>| #[trigger] leads(grid, path, b, c);
    if second.len() == 1 {
        assert(b == c);
    } else {
        let whole = first.drop_last() + second;
        assert forall|i: int| 0 <= i < whole.len() - 1 implies adjacent(
            #[trigger] whole[i],
            whole[i + 1],
        ) && passable(tile_at(grid, whole[i].x as int, whole[i].y as int)) by {
            let cut = first.len() - 1;
            if i < cut - 1 {
                assert(whole[i] == first[i]);
                assert(whole[i + 1] == first[i + 1]);
            } else if i == cut - 1 {
                assert(whole[i] == first[i]);
                assert(whole[i + 1] == second[0]);
                assert(first[i + 1] == b);
            } else {
                assert(whole[i] == second[i - cut]);
                assert(whole[i + 1] == second[i - cut + 1]);
            }
        }
        assert(whole[0] == a) by {
            if first.len() == 1 {
                assert(whole[0] == second[0]);
            } else {
                assert(whole[0] == first[0]);
            }
        }
        assert(whole[whole.len() - 1] == second[second.len() - 1]);
        assert(leads(grid, whole, a, c));
    }
}

/// Carving loses nothing passable.
pub proof fn lemma_carved_keeps_passages(before: Grid, after: Grid)
    requires
        carved(before, after),
    ensures
        keeps_passages(before, after),
{
}

/// Carving after carving is carving.
pub proof fn lemma_carved_onward(a: Grid, b: Grid, c: Grid)
    requires
        carved(a, b),
        carved(b, c),
    ensures
        carved(a, c),
{
    assert forall|x: int, y: int|
        #![trigger tile_at(c, x, y)]
        {
            ||| tile_at(c, x, y) == tile_at(a, x, y)
            ||| (in_grid(a, x, y) && tile_at(c, x, y) == fresh_floor())
            ||| (tile_at(a, x, y) is Empty && tile_at(c, x, y) == fresh_wall())
        } by {
        let t = tile_at(b, x, y);
        if 0 <= y < a.len() {
            assert(a[y].len() == b[y].len());
        }
    }
    assert forall|y: int| 0 <= y < a.len() implies (#[trigger] a[y]).len() == c[y].len() by {
        assert(a[y].len() == b[y].len());
        assert(b[y].len() == c[y].len());
    }
}

/// The tile that a corridor cell stamped beside or on a cell leaves there:
/// floor on the cell of the corridor itself, wall on an empty cell beside it,
/// and whatever was there otherwise.
pub open spec fn stamp_of(tile: Tile, center: bool) -> Tile {
    if center {
        fresh_floor()
    } else if tile is Empty {
        fresh_wall()
    } else {
        tile
    }
}

/// Stamps the cell `(x, y)` as the centre of a corridor cell, or as one of
/// the cells around it.
fn stamp_cell(tiles: &mut GameMapTiles, x: usize, y: usize, center: bool)
    ensures
        grid_of(final(tiles)@) == with_tile(
            grid_of(old(tiles)@),
            x as int,
            y as int,
            stamp_of(tile_at(grid_of(old(tiles)@), x as int, y as int), center),
        ),
{
    let ghost before = grid_of(tiles@);
    let here: Point = Point { x, y };
    let tile: Tile = tile_or_empty(tiles, here);
    if center {
        put_tile(tiles, here, Tile::Floor { visible: false, cursed: false });
    } else if let Tile::Empty = tile {
        put_tile(tiles, here, Tile::Wall { visible: false });
    } else {
        proof {
            lemma_with_tile(before, x as int, y as int, tile);
            lemma_grid_ext(before, with_tile(before, x as int, y as int, tile));
        }
    }
}

/// The grid with one row of a corridor cell stamped: the cells of row `y`
/// in the columns from `x - 1` to `x + 1`.
pub open spec fn row_stamped(grid: Grid, x: int, y: int, center_row: bool) -> Grid {
    Seq::new(
        grid.len(),
        |j: int|
            Seq::new(
                grid[j].len(),
                |i: int|
                    if j == y && x - 1 <= i <= x + 1 {
                        stamp_of(grid[j][i], center_row && i == x)
                    } else {
                        grid[j][i]
                    },
            ),
    )
}

/// Stamps the three cells of row `y` that belong to the corridor cell in
/// column `x`.
fn carve_row(tiles: &mut GameMapTiles, x: usize, y: usize, center_row: bool)
    requires
        x < usize::MAX,
    ensures
        grid_of(final(tiles)@) == row_stamped(grid_of(old(tiles)@), x as int, y as int, center_row),
{
    let ghost start = grid_of(tiles@);
    if x > 0 {
        stamp_cell(tiles, x - 1, y, false);
    }
    let ghost one = grid_of(tiles@);
    stamp_cell(tiles, x, y, center_row);
    let ghost two = grid_of(tiles@);
    stamp_cell(tiles, x + 1, y, false);
    proof {
        let done = grid_of(tiles@);
        lemma_with_tile(start, x - 1, y as int, stamp_of(tile_at(start, x - 1, y as int), false));
        lemma_with_tile(one, x as int, y as int, stamp_of(tile_at(one, x as int, y as int), center_row));
        lemma_with_tile(two, x + 1, y as int, stamp_of(tile_at(two, x + 1, y as int), false));
        assert(same_shape(start, one) && same_shape(one, two) && same_shape(two, done));
        assert forall|i: int, j: int| in_grid(done, i, j) implies tile_at(done, i, j) == tile_at(
            row_stamped(start, x as int, y as int, center_row),
            i,
            j,
        ) by {
            assert(start[j].len() == one[j].len() && one[j].len() == two[j].len() && two[j].len()
                == done[j].len());
            let a = tile_at(one, i, j);
            let b = tile_at(two, i, j);
        }
        lemma_grid_ext(done, row_stamped(start, x as int, y as int, center_row));
    }
}

/// Stamps one cell of a corridor: floor at `(x, y)`, and wall on every empty
/// cell around it.
pub fn carve_corridor(tiles: &mut GameMapTiles, x: usize, y: usize)
    requires
        in_grid(grid_of(old(tiles)@), x as int, y as int),
    ensures
        grid_of(final(tiles)@) == stamped(grid_of(old(tiles)@), x as int, y as int),
{
    let ghost start = grid_of(tiles@);
    proof {
        lemma_addressable(tiles);
        assert(start[y as int].len() <= usize::MAX);
    }
    if y > 0 {
        carve_row(tiles, x, y - 1, false);
    }
    let ghost one = grid_of(tiles@);
    carve_row(tiles, x, y, true);
    let ghost two = grid_of(tiles@);
    carve_row(tiles, x, y + 1, false);
    proof {
        let done = grid_of(tiles@);
        assert forall|i: int, j: int| in_grid(done, i, j) implies tile_at(done, i, j) == tile_at(
            stamped(start, x as int, y as int),
            i,
            j,
        ) by {
            assert(start[j].len() == one[j].len() && one[j].len() == two[j].len() && two[j].len()
                == done[j].len());
            let a = tile_at(one, i, j);
            let b = tile_at(two, i, j);
        }
        lemma_grid_ext(done, stamped(start, x as int, y as int));
    }
}

/// Stamping a corridor cell is carving.
pub proof fn lemma_stamped_carved(grid: Grid, x: int, y: int)
    requires
        in_grid(grid, x, y),
    ensures
        carved(grid, stamped(grid, x, y)),
        tile_at(stamped(grid, x, y), x, y) == fresh_floor(),
{
}

/// The walk has come level with `end` along the axis that it steps along.
pub open spec fn level_with(current: Point, end: Point, along_x: bool) -> bool {
    if along_x {
        current.x == end.x
    } else {
        current.y == end.y
    }
}

/// The cell one step from `current` towards `end` along the given axis;
/// `current` itself where the walk is level with `end` along that axis.
pub open spec fn step_towards(current: Point, end: Point, along_x: bool) -> Point {
    if along_x {
        if current.x < end.x {
            Point { x: (current.x + 1) as usize, y: current.y }
        } else if current.x > end.x {
            Point { x: (current.x - 1) as usize, y: current.y }
        } else {
            current
        }
    } else {
        if current.y < end.y {
            Point { x: current.x, y: (current.y + 1) as usize }
        } else if current.y > end.y {
            Point { x: current.x, y: (current.y - 1) as usize }
        } else {
            current
        }
    }
}

/// How far the walk has to go: the steps that remain along both axes, and
/// the one turn that it may have to make first.
pub open spec fn walk_left(current: Point, end: Point, along_x: bool) -> int {
    2 * (span(current.x as int, end.x as int) + span(current.y as int, end.y as int)) + if level_with(
        current,
        end,
        along_x,
    ) {
        0int
    } else {
        1int
    }
}

/// Whether the walk is level with `end` along the axis that it steps along.
pub fn is_level_with(current: Point, end: Point, along_x: bool) -> (level: bool)
    ensures
        level == level_with(current, end, along_x),
{
    if along_x {
        current.x == end.x
    } else {
        current.y == end.y
    }
}

/// One step of a walk from `current` towards `end` along the given axis.
pub fn step(current: Point, end: Point, along_x: bool) -> (next: Point)
    ensures
        next == step_towards(current, end, along_x),
{
    let mut next: Point = current;
    if along_x {
        if current.x < end.x {
            next.x = current.x + 1;
        } else if current.x > end.x {
            next.x = current.x - 1;
        }
    } else {
        if current.y < end.y {
            next.y = current.y + 1;
        } else if current.y > end.y {
            next.y = current.y - 1;
        }
    }
    next
}

/// A step that follows a turn made at the latest when the walk was level
/// with `end` brings the walk nearer to `end`, or at least round to the axis
/// along which it has steps to go.
pub proof fn lemma_step_gains(current: Point, end: Point, along_x: bool, turn: bool)
    requires
        current != end,
        level_with(current, end, along_x) ==> turn,
    ensures
        ({
            let heading = if turn {
                !along_x
            } else {
                along_x
            };
            let next = step_towards(current, end, heading);
            &&& 0 <= walk_left(next, end, heading) < walk_left(current, end, along_x)
            &&& next == current || adjacent(current, next)
            &&& (current.x <= next.x <= end.x || end.x <= next.x <= current.x)
            &&& (current.y <= next.y <= end.y || end.y <= next.y <= current.y)
        }),
{
}

/// `path` is a staircase from `a` to `b`: it starts on `a`, ends on `b`, and
/// each of its steps leads one cell nearer to `b` along one axis.
pub open spec fn staircase(path: Seq<Point>, a: Point, b: Point) -> bool {
    &&& path.len() > 0
    &&& path[0] == a
    &&& path[path.len() - 1] == b
    &&& forall|i: int|
        0 <= i < path.len() - 1 ==> (#[trigger] path[i]) != path[i + 1] && (path[i + 1]
            == step_towards(path[i], b, true) || path[i + 1] == step_towards(path[i], b, false))
}

/// The grid with a corridor cell stamped on each of the cells, one after
/// another.
pub open spec fn stamped_along(grid: Grid, cells: Seq<Point>) -> Grid
    decreases cells.len(),
{
    if cells.len() == 0 {
        grid
    } else {
        stamped(
            stamped_along(grid, cells.drop_last()),
            cells.last().x as int,
            cells.last().y as int,
        )
    }
}

/// A corridor was walked from `start` to `end`: along some staircase between
/// the two, every cell but the last was stamped as a corridor cell, and
/// nothing else was done to the grid.
pub open spec fn walked(before: Grid, after: Grid, start: Point, end: Point) -> bool {
    exists|path: Seq<Point>|
        #![trigger staircase(path, start, end)]
        staircase(path, start, end) && after == stamped_along(before, path.drop_last())
}

/// Stamping a corridor cell twice is stamping it once.
pub proof fn lemma_stamped_twice(grid: Grid, x: int, y: int)
    ensures
        stamped(stamped(grid, x, y), x, y) == stamped(grid, x, y),
{
    let once = stamped(grid, x, y);
    let twice = stamped(once, x, y);
    assert forall|i: int, j: int| in_grid(twice, i, j) implies tile_at(twice, i, j) == tile_at(
        once,
        i,
        j,
    ) by {
        assert(once[j].len() == grid[j].len());
    }
    lemma_grid_ext(twice, once);
}

/// Carves a corridor from `start` to `end`.
///
/// The walk steps along one axis towards `end` and now and then turns to the
/// other; it turns at the latest when it has come level with `end`. Every
/// cell it leaves is stamped as a corridor cell. The cell of `end` itself is
/// not stamped.
///
/// Chance decides on the turns, and so on the staircase that the walk
/// takes. Whichever it takes, a path of floor leads from `start` to `end`
/// afterwards, and nothing was lost but what the corridor overwrote.
pub fn drunken_walk_corridor(tiles: &mut GameMapTiles, start: Point, end: Point)
    requires
        in_grid(grid_of(old(tiles)@), start.x as int, start.y as int),
        in_grid(grid_of(old(tiles)@), end.x as int, end.y as int),
        rectangular(grid_of(old(tiles)@)),
    ensures
        walked(grid_of(old(tiles)@), grid_of(final(tiles)@), start, end),
        carved(grid_of(old(tiles)@), grid_of(final(tiles)@)),
        joined(grid_of(final(tiles)@), start, end),
{
    let ghost origin = grid_of(tiles@);
    let mut current: Point = start;
    let mut along_x: bool = chance(1, 2);
    let ghost mut path: Seq<Point> = seq![start];
    let ghost mut stamped_last: bool = false;
    proof {
        assert(carved(origin, origin));
        assert(path.drop_last() =~= Seq::<Point>::empty());
    }
    while current.x != end.x || current.y != end.y
        invariant
            rectangular(origin),
            in_grid(origin, start.x as int, start.y as int),
            in_grid(origin, end.x as int, end.y as int),
            in_grid(origin, current.x as int, current.y as int),
            carved(origin, grid_of(tiles@)),
            leads(grid_of(tiles@), path, start, current),
            path.len() > 0,
            path[0] == start,
            path[path.len() - 1] == current,
            stamped_last ==> current != end,
            forall|i: int|
                0 <= i < path.len() - 1 ==> (#[trigger] path[i]) != path[i + 1] && (path[i + 1]
                    == step_towards(path[i], end, true) || path[i + 1] == step_towards(
                    path[i],
                    end,
                    false,
                )),
            grid_of(tiles@) == stamped_along(
                origin,
                if stamped_last {
                    path
                } else {
                    path.drop_last()
                },
            ),
        decreases walk_left(current, end, along_x),
    {
        let ghost before = grid_of(tiles@);
        assert(in_grid(before, current.x as int, current.y as int)) by {
            assert(origin[current.y as int].len() == before[current.y as int].len());
        }
        carve_corridor(tiles, current.x, current.y);
        proof {
            let after = grid_of(tiles@);
            lemma_stamped_carved(before, current.x as int, current.y as int);
            lemma_carved_onward(origin, before, after);
            lemma_carved_keeps_passages(before, after);
            assert forall|i: int| 0 <= i < path.len() - 1 implies adjacent(
                #[trigger] path[i],
                path[i + 1],
            ) && passable(tile_at(after, path[i].x as int, path[i].y as int)) by {
                assert(passable(tile_at(before, path[i].x as int, path[i].y as int)));
            }
            if stamped_last {
                lemma_stamped_twice(
                    stamped_along(origin, path.drop_last()),
                    current.x as int,
                    current.y as int,
                );
            }
            assert(after == stamped_along(origin, path));
        }
        let turn: bool = is_level_with(current, end, along_x) || chance(1, TURN_ODDS);
        proof {
            lemma_step_gains(current, end, along_x, turn);
        }
        if turn {
            along_x = !along_x;
        }
        let ghost from = current;
        current = step(current, end, along_x);
        proof {
            let after = grid_of(tiles@);
            assert(origin[current.y as int].len() == origin[end.y as int].len());
            assert(origin[from.y as int].len() == origin[end.y as int].len());
            if current != from {
                let longer = path.push(current);
                assert forall|i: int| 0 <= i < longer.len() - 1 implies adjacent(
                    #[trigger] longer[i],
                    longer[i + 1],
                ) && passable(tile_at(after, longer[i].x as int, longer[i].y as int)) by {
                    if i < path.len() - 1 {
                        assert(longer[i] == path[i]);
                        assert(longer[i + 1] == path[i + 1]);
                    } else {
                        assert(longer[i] == from);
                        assert(longer[i + 1] == current);
                    }
                }
                assert forall|i: int| 0 <= i < longer.len() - 1 implies (#[trigger] longer[i])
                    != longer[i + 1] && (longer[i + 1] == step_towards(longer[i], end, true)
                    || longer[i + 1] == step_towards(longer[i], end, false)) by {
                    if i < path.len() - 1 {
                        assert(longer[i] == path[i]);
                        assert(longer[i + 1] == path[i + 1]);
                    } else {
                        assert(longer[i] == from);
                        assert(longer[i + 1] == current);
                    }
                }
                assert(longer[0] == path[0]);
                assert(longer.drop_last() =~= path);
                path = longer;
                stamped_last = false;
            } else {
                stamped_last = true;
            }
        }
    }
    proof {
        assert(current == end);
        assert(staircase(path, start, end));
    }
}

impl BSPNode {
    /// The rooms of the tree are linked up: wherever a node has two children
    /// that both hold rooms, a path joins the middle of the first room of
    /// the one with the middle of the first room of the other, and so on
    /// down.
    pub open spec fn linked(self, grid: Grid) -> bool
        decreases self,
    {
        match (self.left, self.right) {
            (Some(first), Some(second)) => {
                &&& first.linked(grid)
                &&& second.linked(grid)
                &&& first.rooms().len() > 0 && second.rooms().len() > 0 ==> joined(
                    grid,
                    first.rooms()[0].middle(),
                    second.rooms()[0].middle(),
                )
            },
            _ => true,
        }
    }

    /// The rectangle of the node lies in the grid.
    pub open spec fn inside(self, grid: Grid) -> bool {
        &&& self.y + self.height <= grid.len()
        &&& forall|y: int| 0 <= y < grid.len() ==> self.x + self.width <= (#[trigger] grid[y]).len()
    }

    /// Links stay links when nothing passable is lost.
    pub proof fn lemma_linked_kept(self, before: Grid, after: Grid)
        requires
            self.linked(before),
            keeps_passages(before, after),
        ensures
            self.linked(after),
        decreases self,
    {
        match (self.left, self.right) {
            (Some(first), Some(second)) => {
                first.lemma_linked_kept(before, after);
                second.lemma_linked_kept(before, after);
                if first.rooms().len() > 0 && second.rooms().len() > 0 {
                    lemma_joined_kept(
                        before,
                        after,
                        first.rooms()[0].middle(),
                        second.rooms()[0].middle(),
                    );
                }
            },
            _ => {},
        }
    }

    /// In a tree whose rooms are linked up, a path joins the middle of the
    /// first room with the middle of every room.
    pub proof fn lemma_linked_joins_all(self, grid: Grid)
        requires
            self.partitioned(),
            self.housed(),
            self.linked(grid),
        ensures
            forall|i: int|
                0 <= i < self.rooms().len() ==> joined(
                    grid,
                    self.rooms()[0].middle(),
                    (#[trigger] self.rooms()[i]).middle(),
                ),
        decreases self,
    {
        match (self.left, self.right) {
            (Some(first), Some(second)) => {
                first.lemma_linked_joins_all(grid);
                second.lemma_linked_joins_all(grid);
                let a = first.rooms();
                let b = second.rooms();
                assert(self.room is None);
                assert(self.rooms() =~= a + b);
                assert forall|i: int| 0 <= i < self.rooms().len() implies joined(
                    grid,
                    self.rooms()[0].middle(),
                    (#[trigger] self.rooms()[i]).middle(),
                ) by {
                    if i < a.len() {
                        assert(self.rooms()[i] == a[i]);
                        assert(self.rooms()[0] == a[0]);
                    } else if a.len() == 0 {
                        assert(self.rooms()[i] == b[i]);
                        assert(self.rooms()[0] == b[0]);
                    } else {
                        assert(self.rooms()[i] == b[i - a.len()]);
                        assert(self.rooms()[0] == a[0]);
                        lemma_joined_onward(
                            grid,
                            a[0].middle(),
                            b[0].middle(),
                            b[i - a.len()].middle(),
                        );
                    }
                }
            },
            _ => {
                assert(self.rooms() =~= match self.room {
                    Some(room) => seq![room],
                    None => Seq::empty(),
                });
                if self.rooms().len() > 0 {
                    lemma_joined_self(grid, self.rooms()[0].middle());
                }
            },
        }
    }

    /// A room that the tree houses has its middle in every grid that the
    /// rectangle of the root lies in.
    pub proof fn lemma_middle_inside(self, grid: Grid, room: Room)
        requires
            self.houses(room),
            self.fits(),
            self.inside(grid),
            rectangular(grid),
        ensures
            room.fits(),
            in_grid(grid, room.middle().x as int, room.middle().y as int),
    {
        let y = room.location.y + room.height / 2;
        assert(0 <= y < grid.len());
        assert(self.x + self.width <= grid[y].len());
    }
}

/// Links up the rooms of the tree with corridors, the subtrees of a node
/// before the node itself: at each node with two children that both hold
/// rooms, a corridor is carved from the middle of the first room of the one
/// to the middle of the first room of the other.
pub fn connect_rooms_bsp(tiles: &mut GameMapTiles, node: &BSPNode)
    requires
        node.partitioned(),
        node.housed(),
        node.fits(),
        node.inside(grid_of(old(tiles)@)),
        rectangular(grid_of(old(tiles)@)),
    ensures
        carved(grid_of(old(tiles)@), grid_of(final(tiles)@)),
        node.linked(grid_of(final(tiles)@)),
    decreases node,
{
    let ghost origin = grid_of(tiles@);
    if !node.is_leaf() {
        match (node.left.as_ref(), node.right.as_ref()) {
            (Some(left), Some(right)) => {
                connect_rooms_bsp(tiles, left);
                let ghost one = grid_of(tiles@);
                proof {
                    lemma_carved_shape(origin, one);
                }
                connect_rooms_bsp(tiles, right);
                let ghost two = grid_of(tiles@);
                proof {
                    lemma_carved_shape(one, two);
                    lemma_carved_onward(origin, one, two);
                    lemma_carved_keeps_passages(one, two);
                    left.lemma_linked_kept(one, two);
                }
                let left_room: Option<&Room> = left.get_room_in_subtree();
                let right_room: Option<&Room> = right.get_room_in_subtree();
                match (left_room, right_room) {
                    (Some(lr), Some(rr)) => {
                        proof {
                            left.lemma_rooms_apart();
                            right.lemma_rooms_apart();
                            left.lemma_middle_inside(two, *lr);
                            right.lemma_middle_inside(two, *rr);
                        }
                        drunken_walk_corridor(tiles, lr.center(), rr.center());
                        proof {
                            let three = grid_of(tiles@);
                            lemma_carved_onward(origin, two, three);
                            lemma_carved_keeps_passages(two, three);
                            left.lemma_linked_kept(two, three);
                            right.lemma_linked_kept(two, three);
                        }
                    },
                    _ => {},
                }
            },
            _ => {},
        }
    } else {
        assert(carved(origin, origin));
    }
}

/// Carving keeps the grid rectangular, with every rectangle that lay in it
/// still inside.
pub proof fn lemma_carved_shape(before: Grid, after: Grid)
    requires
        carved(before, after),
        rectangular(before),
    ensures
        rectangular(after),
        columns(after) == columns(before),
        rows(after) == rows(before),
{
    if before.len() > 0 {
        assert(before[0].len() == after[0].len());
    }
    assert forall|y: int| 0 <= y < after.len() implies (#[trigger] after[y]).len()
        == columns(after) by {
        assert(before[y].len() == after[y].len());
    }
}

} // verus!
