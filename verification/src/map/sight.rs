//! Lines of sight: the cells that an integer line walk visits between two
//! cells, and whether a tile on the way stops the view.

use crate::map::grid::{
    grid_of, in_grid, lemma_with_tile, tile_at, tile_or_empty, with_tile, Grid,
};
use crate::map::types::{GameMapTiles, Point};
use crate::tile::Tile;
use vstd::prelude::*;

verus! {

/// The distance between two coordinates.
pub open spec fn span(from: int, to: int) -> int {
    if from < to {
        to - from
    } else {
        from - to
    }
}

/// The unit step from one coordinate towards another (`-1` when they are
/// equal; no step is then taken along that axis).
pub open spec fn heading(from: int, to: int) -> int {
    if from < to {
        1
    } else {
        -1
    }
}

/// A line from the cell `(x0, y0)` to the cell `(x1, y1)`.
pub struct Line {
    pub x0: int,
    pub y0: int,
    pub x1: int,
    pub y1: int,
}

/// A position on a line walk, with the error term that steers it.
pub struct Ray {
    pub x: int,
    pub y: int,
    pub err: int,
}

impl Line {
    /// The line's extent along x.
    pub open spec fn dx(self) -> int {
        span(self.x0, self.x1)
    }

    /// The line's extent along y.
    pub open spec fn dy(self) -> int {
        span(self.y0, self.y1)
    }

    /// Where the walk begins: on the first cell, with the error term at the
    /// difference of the extents.
    pub open spec fn start(self) -> Ray {
        Ray { x: self.x0, y: self.y0, err: self.dx() - self.dy() }
    }

    /// One step of the walk. Twice the error term is compared with both
    /// extents: when it is at least `-dy` the walk moves along x, when it is
    /// at most `dx` the walk moves along y, and it may do both at once.
    pub open spec fn step(self, ray: Ray) -> Ray {
        let along_x = 2 * ray.err >= -self.dy();
        let along_y = 2 * ray.err <= self.dx();
        Ray {
            x: if along_x { ray.x + heading(self.x0, self.x1) } else { ray.x },
            y: if along_y { ray.y + heading(self.y0, self.y1) } else { ray.y },
            err: ray.err - (if along_x { self.dy() } else { 0 }) + (if along_y { self.dx() } else { 0 }),
        }
    }

    /// The walk after `n` steps.
    pub open spec fn at(self, n: nat) -> Ray
        decreases n,
    {
        if n == 0 {
            self.start()
        } else {
            self.step(self.at((n - 1) as nat))
        }
    }

    /// The walk stands on the line's last cell after `n` steps.
    pub open spec fn arrives(self, n: nat) -> bool {
        self.at(n).x == self.x1 && self.at(n).y == self.y1
    }

    /// The number of steps along x that have brought the walk to `ray`.
    pub open spec fn done_x(self, ray: Ray) -> int {
        if self.x0 < self.x1 {
            ray.x - self.x0
        } else {
            self.x0 - ray.x
        }
    }

    /// The number of steps along y that have brought the walk to `ray`.
    pub open spec fn done_y(self, ray: Ray) -> int {
        if self.y0 < self.y1 {
            ray.y - self.y0
        } else {
            self.y0 - ray.y
        }
    }

    /// The steps that remain, counted along both axes.
    pub open spec fn remaining(self, ray: Ray) -> int {
        (self.dx() - self.done_x(ray)) + (self.dy() - self.done_y(ray))
    }

    /// `ray` is a position that the walk can be in: between the two ends on
    /// both axes, with the error term that its steps so far account for.
    pub open spec fn on_course(self, ray: Ray) -> bool {
        &&& 0 <= self.done_x(ray) <= self.dx()
        &&& 0 <= self.done_y(ray) <= self.dy()
        &&& ray.err == self.dx() - self.dy() - self.done_x(ray) * self.dy() + self.done_y(ray)
            * self.dx()
        &&& -3 * self.dy() <= 2 * ray.err <= 3 * self.dx()
    }

    /// A step taken short of the last cell stays on course and leaves fewer
    /// steps to go.
    pub proof fn lemma_step(self, ray: Ray)
        requires
            self.on_course(ray),
            !(ray.x == self.x1 && ray.y == self.y1),
        ensures
            self.on_course(self.step(ray)),
            0 <= self.remaining(self.step(ray)) < self.remaining(ray),
    {
        let a = self.dx();
        let b = self.dy();
        let i = self.done_x(ray);
        let j = self.done_y(ray);
        let next = self.step(ray);
        let along_x = 2 * ray.err >= -b;
        let along_y = 2 * ray.err <= a;
        assert(i == a <==> ray.x == self.x1);
        assert(j == b <==> ray.y == self.y1);
        if i == a {
            // The walk has crossed the whole extent along x: the error term
            // is too low for another step along x.
            assert(a - a * b + j * a == a * (1 + j - b)) by (nonlinear_arith);
            assert(a * (1 + j - b) <= 0) by (nonlinear_arith)
                requires
                    a >= 0,
                    1 + j - b <= 0,
            ;
            assert(!along_x);
        }
        if j == b {
            assert(b * a - i * b - b == b * (a - i - 1)) by (nonlinear_arith);
            assert(b * (a - i - 1) >= 0) by (nonlinear_arith)
                requires
                    b >= 0,
                    a - i - 1 >= 0,
            ;
            assert(!along_y);
        }
        assert(along_x || along_y);
        let i2 = self.done_x(next);
        let j2 = self.done_y(next);
        assert(i2 == if along_x { i + 1 } else { i });
        assert(j2 == if along_y { j + 1 } else { j });
        assert((i + 1) * b == i * b + b) by (nonlinear_arith);
        assert((j + 1) * a == j * a + a) by (nonlinear_arith);
    }

    /// The walk hugs the straight line between the two ends: as long as it
    /// has not arrived, the cell it stands on lies between the two ends on
    /// both axes and within about a cell of that line. (For a cell `i` steps
    /// along x and `j` steps along y from the first, `j * dx - i * dy`
    /// measures how far off the line it lies.)
    pub proof fn lemma_hugs_the_line(self, n: nat)
        requires
            forall|k: nat| k < n ==> !self.arrives(k),
        ensures
            0 <= self.done_x(self.at(n)) <= self.dx(),
            0 <= self.done_y(self.at(n)) <= self.dy(),
            -(2 * self.dx() + self.dy()) <= 2 * (self.done_y(self.at(n)) * self.dx() - self.done_x(
                self.at(n),
            ) * self.dy()) <= self.dx() + 2 * self.dy(),
    {
        self.lemma_on_course(n);
    }

    /// The walk begins on course.
    pub proof fn lemma_start(self)
        ensures
            self.on_course(self.start()),
            self.remaining(self.start()) == self.dx() + self.dy(),
    {
        assert(0 * self.dy() == 0) by (nonlinear_arith);
        assert(0 * self.dx() == 0) by (nonlinear_arith);
    }

    /// As long as the walk has not arrived, it is on course, and each step
    /// has brought it nearer.
    pub proof fn lemma_on_course(self, n: nat)
        requires
            forall|k: nat| k < n ==> !self.arrives(k),
        ensures
            self.on_course(self.at(n)),
            0 <= self.remaining(self.at(n)) <= self.dx() + self.dy() - n,
        decreases n,
    {
        if n == 0 {
            self.lemma_start();
        } else {
            let m = (n - 1) as nat;
            self.lemma_on_course(m);
            assert(!self.arrives(m));
            self.lemma_step(self.at(m));
        }
    }

    proof fn lemma_arrival_from(self, n: nat) -> (m: nat)
        requires
            forall|k: nat| k < n ==> !self.arrives(k),
        ensures
            self.arrives(m),
            forall|k: nat| k < m ==> !self.arrives(k),
            m <= self.dx() + self.dy(),
        decreases self.dx() + self.dy() - n,
    {
        self.lemma_on_course(n);
        if self.arrives(n) {
            n
        } else {
            let ray = self.at(n);
            assert(self.done_x(ray) == self.dx() <==> ray.x == self.x1);
            assert(self.done_y(ray) == self.dy() <==> ray.y == self.y1);
            assert(self.remaining(ray) > 0);
            assert forall|k: nat| k < n + 1 implies !self.arrives(k) by {
                if k < n {
                } else {
                    assert(k == n);
                }
            }
            self.lemma_arrival_from(n + 1)
        }
    }

    /// The walk reaches the line's last cell, after at most as many steps as
    /// the two extents add up to. The result is the number of steps that the
    /// first arrival takes.
    pub proof fn lemma_arrival(self) -> (m: nat)
        ensures
            self.arrives(m),
            forall|k: nat| k < m ==> !self.arrives(k),
            m <= self.dx() + self.dy(),
    {
        self.lemma_arrival_from(0)
    }
}

/// The line from one cell to another.
pub open spec fn line(from: Point, to: Point) -> Line {
    Line { x0: from.x as int, y0: from.y as int, x1: to.x as int, y1: to.y as int }
}

/// The cell that the walk stands on after `n` steps does not stop the view.
pub open spec fn open_at(
    grid: Grid,
    line: Line,
    n: nat,
    by_obelisk: bool,
    is_player_cursed: bool,
) -> bool {
    !tile_at(grid, line.at(n).x, line.at(n).y).blocks_sight(by_obelisk, is_player_cursed)
}

/// The last cell of the line can be seen from its first: the walk along the
/// line arrives at the last cell, and no cell that it stands on before, the
/// first cell included, stops the view. The last cell itself may hold
/// anything.
pub open spec fn sees(grid: Grid, line: Line, by_obelisk: bool, is_player_cursed: bool) -> bool {
    exists|n: nat|
        #![trigger line.arrives(n)]
        line.arrives(n) && forall|k: nat|
            k < n ==> #[trigger] open_at(grid, line, k, by_obelisk, is_player_cursed)
}

/// A cell always sees itself.
pub proof fn lemma_sees_itself(grid: Grid, x: int, y: int, by_obelisk: bool, is_player_cursed: bool)
    ensures
        sees(grid, Line { x0: x, y0: y, x1: x, y1: y }, by_obelisk, is_player_cursed),
{
    let line = Line { x0: x, y0: y, x1: x, y1: y };
    assert(line.arrives(0));
}

/// Sight depends on the grid only through which cells stop the view: two
/// grids that agree on that agree on every line of sight.
pub proof fn lemma_sees_same_blocks(
    a: Grid,
    b: Grid,
    line: Line,
    by_obelisk: bool,
    is_player_cursed: bool,
)
    requires
        forall|x: int, y: int|
            tile_at(a, x, y).blocks_sight(by_obelisk, is_player_cursed) == (#[trigger] tile_at(
                b,
                x,
                y,
            )).blocks_sight(by_obelisk, is_player_cursed),
    ensures
        sees(a, line, by_obelisk, is_player_cursed) == sees(b, line, by_obelisk, is_player_cursed),
{
    if sees(a, line, by_obelisk, is_player_cursed) {
        let n = choose|n: nat|
            #![trigger line.arrives(n)]
            line.arrives(n) && forall|k: nat|
                k < n ==> #[trigger] open_at(a, line, k, by_obelisk, is_player_cursed);
        assert forall|k: nat| k < n implies #[trigger] open_at(
            b,
            line,
            k,
            by_obelisk,
            is_player_cursed,
        ) by {
            assert(open_at(a, line, k, by_obelisk, is_player_cursed));
            let t = tile_at(b, line.at(k).x, line.at(k).y);
        }
        assert(line.arrives(n));
    }
    if sees(b, line, by_obelisk, is_player_cursed) {
        let n = choose|n: nat|
            #![trigger line.arrives(n)]
            line.arrives(n) && forall|k: nat|
                k < n ==> #[trigger] open_at(b, line, k, by_obelisk, is_player_cursed);
        assert forall|k: nat| k < n implies #[trigger] open_at(
            a,
            line,
            k,
            by_obelisk,
            is_player_cursed,
        ) by {
            assert(open_at(b, line, k, by_obelisk, is_player_cursed));
            let t = tile_at(b, line.at(k).x, line.at(k).y);
        }
        assert(line.arrives(n));
    }
}

/// A wall on the way blocks the view: if the walk stands on a wall before
/// it has arrived, the last cell of the line cannot be seen, whoever looks.
pub proof fn lemma_wall_blocks(
    grid: Grid,
    line: Line,
    k: nat,
    by_obelisk: bool,
    is_player_cursed: bool,
)
    requires
        forall|j: nat| j <= k ==> !line.arrives(j),
        tile_at(grid, line.at(k).x, line.at(k).y) is Wall,
    ensures
        !sees(grid, line, by_obelisk, is_player_cursed),
{
    assert(!open_at(grid, line, k, by_obelisk, is_player_cursed));
    assert forall|n: nat| line.arrives(n) implies !(forall|j: nat|
        j < n ==> #[trigger] open_at(grid, line, j, by_obelisk, is_player_cursed)) by {
        if n <= k {
            assert(!line.arrives(n));
        }
    }
}

/// Putting a wall on a cell of the way takes the view, and putting plain
/// floor in its place gives it back: where the last cell of the line can be
/// seen, a wall on a cell that the walk stands on before it arrives blocks
/// the view, and floor without a curse on that cell restores it.
pub proof fn lemma_wall_then_floor(
    grid: Grid,
    line: Line,
    k: nat,
    by_obelisk: bool,
    is_player_cursed: bool,
    visible: bool,
)
    requires
        sees(grid, line, by_obelisk, is_player_cursed),
        forall|j: nat| j <= k ==> !line.arrives(j),
        in_grid(grid, line.at(k).x, line.at(k).y),
    ensures
        !sees(
            with_tile(
                grid,
                line.at(k).x,
                line.at(k).y,
                Tile::Wall { visible },
            ),
            line,
            by_obelisk,
            is_player_cursed,
        ),
        sees(
            with_tile(
                with_tile(
                    grid,
                    line.at(k).x,
                    line.at(k).y,
                    Tile::Wall { visible },
                ),
                line.at(k).x,
                line.at(k).y,
                Tile::Floor { visible, cursed: false },
            ),
            line,
            by_obelisk,
            is_player_cursed,
        ),
{
    let x = line.at(k).x;
    let y = line.at(k).y;
    let wall = Tile::Wall { visible };
    let floor = Tile::Floor { visible, cursed: false };
    let blocked = with_tile(grid, x, y, wall);
    let cleared = with_tile(blocked, x, y, floor);
    lemma_with_tile(grid, x, y, wall);
    lemma_with_tile(blocked, x, y, floor);
    lemma_wall_blocks(blocked, line, k, by_obelisk, is_player_cursed);
    let n = choose|n: nat|
        #![trigger line.arrives(n)]
        line.arrives(n) && forall|j: nat|
            j < n ==> #[trigger] open_at(grid, line, j, by_obelisk, is_player_cursed);
    assert forall|j: nat| j < n implies #[trigger] open_at(
        cleared,
        line,
        j,
        by_obelisk,
        is_player_cursed,
    ) by {
        assert(open_at(grid, line, j, by_obelisk, is_player_cursed));
        let t = tile_at(cleared, line.at(j).x, line.at(j).y);
        let u = tile_at(blocked, line.at(j).x, line.at(j).y);
    }
    assert(line.arrives(n));
}

/// Whether `(x1, y1)` can be seen from `(x0, y0)`: walks the line between
/// them and stops at the first cell that blocks the view.
pub fn line_of_sight(
    tiles: &GameMapTiles,
    x0: usize,
    y0: usize,
    x1: usize,
    y1: usize,
    by_obelisk: bool,
    is_player_cursed: bool,
) -> (visible: bool)
    ensures
        visible == sees(
            grid_of(tiles@),
            Line { x0: x0 as int, y0: y0 as int, x1: x1 as int, y1: y1 as int },
            by_obelisk,
            is_player_cursed,
        ),
{
    let ghost grid = grid_of(tiles@);
    let ghost line = Line { x0: x0 as int, y0: y0 as int, x1: x1 as int, y1: y1 as int };
    let target_x: i128 = x1 as i128;
    let target_y: i128 = y1 as i128;
    let mut x: i128 = x0 as i128;
    let mut y: i128 = y0 as i128;
    let dx: i128 = if x < target_x {
        target_x - x
    } else {
        x - target_x
    };
    let dy: i128 = if y < target_y {
        y - target_y
    } else {
        target_y - y
    };
    let sx: i128 = if x < target_x {
        1
    } else {
        -1
    };
    let sy: i128 = if y < target_y {
        1
    } else {
        -1
    };
    let mut err: i128 = dx + dy;
    let ghost mut n: nat = 0;
    proof {
        line.lemma_start();
    }
    loop
        invariant
            grid == grid_of(tiles@),
            line == (Line { x0: x0 as int, y0: y0 as int, x1: x1 as int, y1: y1 as int }),
            target_x == x1,
            target_y == y1,
            dx == line.dx(),
            dy == -line.dy(),
            sx == heading(line.x0, line.x1),
            sy == heading(line.y0, line.y1),
            line.at(n) == (Ray { x: x as int, y: y as int, err: err as int }),
            line.on_course(line.at(n)),
            forall|k: nat| k < n ==> !line.arrives(k),
            forall|k: nat| k < n ==> #[trigger] open_at(grid, line, k, by_obelisk, is_player_cursed),
        decreases line.remaining(line.at(n)),
    {
        if x == target_x && y == target_y {
            assert(line.arrives(n));
            return true;
        }
        assert(0 <= x <= usize::MAX && 0 <= y <= usize::MAX);
        let point = Point::new(x as usize, y as usize);
        if tile_or_empty(tiles, point).is_opaque(by_obelisk, is_player_cursed) {
            proof {
                assert(!open_at(grid, line, n, by_obelisk, is_player_cursed));
                assert forall|m: nat| line.arrives(m) implies !(forall|k: nat|
                    k < m ==> #[trigger] open_at(grid, line, k, by_obelisk, is_player_cursed)) by {
                    assert(!line.arrives(n));
                    if m < n {
                        assert(!line.arrives(m));
                    }
                    assert(n < m);
                }
            }
            return false;
        }
        proof {
            line.lemma_step(line.at(n));
            assert forall|k: nat| k < n + 1 implies !line.arrives(k) by {
                if k == n {
                }
            }
            assert forall|k: nat| k < n + 1 implies #[trigger] open_at(
                grid,
                line,
                k,
                by_obelisk,
                is_player_cursed,
            ) by {
                if k == n {
                }
            }
            assert(line.at((n + 1) as nat) == line.step(line.at(n)));
        }
        let e2: i128 = 2 * err;
        if e2 >= dy {
            err += dy;
            x += sx;
        }
        if e2 <= dx {
            err += dx;
            y += sy;
        }
        proof {
            n = n + 1;
        }
    }
}

} // verus!
