//! Rooms: rectangles of the grid that fill themselves with floor, wall
//! themselves in, and furnish themselves.

use crate::generator::furniture::{
    guard_brute, kept_outside, lemma_mob_step_stocked, lemma_mob_steps_stocked,
    lemma_secret_furnished, lemma_secret_inside,
};
use crate::map::grid::{
    cell, fill_block, grid_of, in_grid, lemma_grid_ext, lemma_with_tile, put_tile, same_shape,
    tile_at, with_block, with_tile, Grid,
};
use crate::map::types::{Coordinate, GameMapTiles, Point};
use crate::random::{chance, uniform_inclusive};
use crate::tile::Tile;
use vstd::prelude::*;

verus! {

/// What a room is furnished as.
#[derive(Clone, Copy, Debug, PartialEq, Eq, Structural)]
pub enum RoomType {
    Normal,
    Obelisk,
    Secret,
}

/// A rectangle of the grid. Its floor covers the columns from `location.x`
/// up to, but not including, `location.x + width`, and the rows likewise; its
/// walls run along both of those bounds.
#[derive(Clone, Copy, Debug, PartialEq, Eq, Structural)]
pub struct Room {
    pub location: Point,
    pub width: Coordinate,
    pub height: Coordinate,
    pub room_type: RoomType,
}

/// A floor tile as the generator lays it.
pub open spec fn fresh_floor() -> Tile {
    Tile::Floor { visible: false, cursed: false }
}

/// A wall tile as the generator lays it.
pub open spec fn fresh_wall() -> Tile {
    Tile::Wall { visible: false }
}

/// A column as the generator sets it.
pub open spec fn fresh_column() -> Tile {
    Tile::Column { visible: false }
}

/// A door as the generator hangs it: closed.
pub open spec fn fresh_door() -> Tile {
    Tile::Door { visible: false, open: false }
}

/// The obelisk that stands in the middle of a room.
pub open spec fn room_obelisk() -> Tile {
    Tile::Obelisk { visible: false, curse: true, fov: 8, damage_hp: 1, reduce_fov_radius: 3 }
}

/// The tile is one that the generator may have laid: hidden, free of the
/// curse, and neither empty nor the player.
pub open spec fn generated(tile: Tile) -> bool {
    !tile.shown() && !tile.cursed() && !(tile is Empty) && !(tile is Player)
}

/// The cell `(x, y)` lies outside the grid or holds a wall.
pub open spec fn walled(grid: Grid, x: int, y: int) -> bool {
    !in_grid(grid, x, y) || tile_at(grid, x, y) is Wall
}

/// The cell is floor with a wall, or the edge of the grid, to its left and
/// to its right: an opening in a wall that runs across.
pub open spec fn opening_across(grid: Grid, x: int, y: int) -> bool {
    tile_at(grid, x, y) is Floor && walled(grid, x - 1, y) && walled(grid, x + 1, y)
}

/// The cell is floor with a wall, or the edge of the grid, above and below
/// it: an opening in a wall that runs down.
pub open spec fn opening_along(grid: Grid, x: int, y: int) -> bool {
    tile_at(grid, x, y) is Floor && walled(grid, x, y - 1) && walled(grid, x, y + 1)
}

/// The grid after some changes that stay inside the room: every cell either
/// keeps its tile or is a cell of the room's footprint with a tile that the
/// generator lays.
pub open spec fn furnished(before: Grid, after: Grid, room: Room) -> bool {
    &&& same_shape(before, after)
    &&& forall|x: int, y: int|
        #![trigger tile_at(after, x, y)]
        tile_at(after, x, y) == tile_at(before, x, y) || (room.covers(x, y) && in_grid(
            before,
            x,
            y,
        ) && generated(tile_at(after, x, y)))
}

impl Room {
    /// The first column of the room.
    pub open spec fn left(self) -> int {
        self.location.x as int
    }

    /// The first row of the room.
    pub open spec fn top(self) -> int {
        self.location.y as int
    }

    /// The column of the far wall.
    pub open spec fn right(self) -> int {
        self.location.x + self.width
    }

    /// The row of the far wall.
    pub open spec fn bottom(self) -> int {
        self.location.y + self.height
    }

    /// The far walls of the room, and the two cells beyond them, have machine
    /// coordinates.
    pub open spec fn fits(self) -> bool {
        self.right() + 2 <= usize::MAX && self.bottom() + 2 <= usize::MAX
    }

    /// The cell lies in the footprint of the room, walls included.
    pub open spec fn covers(self, x: int, y: int) -> bool {
        self.left() <= x <= self.right() && self.top() <= y <= self.bottom()
    }

    /// The cell lies on the walls of the room.
    pub open spec fn on_edge(self, x: int, y: int) -> bool {
        self.covers(x, y) && (x == self.left() || x == self.right() || y == self.top() || y
            == self.bottom())
    }

    /// The cell lies where the room is furnished: off the walls, and off the
    /// last column and row before the far walls.
    pub open spec fn interior(self, x: int, y: int) -> bool {
        self.left() + 1 <= x < self.right() - 1 && self.top() + 1 <= y < self.bottom() - 1
    }

    /// The middle of the room.
    pub open spec fn middle(self) -> Point {
        Point {
            x: (self.location.x + self.width / 2) as usize,
            y: (self.location.y + self.height / 2) as usize,
        }
    }

    /// The grid with the room's walls drawn.
    pub open spec fn walled_in(self, grid: Grid) -> Grid {
        Seq::new(
            grid.len(),
            |y: int|
                Seq::new(
                    grid[y].len(),
                    |x: int|
                        if self.on_edge(x, y) {
                            fresh_wall()
                        } else {
                            grid[y][x]
                        },
                ),
        )
    }

    /// The cell is one of the four where the room's columns stand: two cells
    /// in from each corner of the footprint.
    pub open spec fn column_spot(self, x: int, y: int) -> bool {
        (x == self.left() + 2 || x == self.right() - 2) && (y == self.top() + 2 || y
            == self.bottom() - 2)
    }

    /// The grid with the room's four columns set.
    pub open spec fn with_columns(self, grid: Grid) -> Grid {
        Seq::new(
            grid.len(),
            |y: int|
                Seq::new(
                    grid[y].len(),
                    |x: int|
                        if self.column_spot(x, y) {
                            fresh_column()
                        } else {
                            grid[y][x]
                        },
                ),
        )
    }

    pub fn new(location: Point, width: Coordinate, height: Coordinate) -> (room: Room)
        ensures
            room == (Room { location, width, height, room_type: RoomType::Normal }),
    {
        Room { location, width, height, room_type: RoomType::Normal }
    }

    pub fn center(&self) -> (center: Point)
        requires
            self.location.x + self.width / 2 <= usize::MAX,
            self.location.y + self.height / 2 <= usize::MAX,
        ensures
            center == self.middle(),
            center.x == self.location.x + self.width / 2,
            center.y == self.location.y + self.height / 2,
    {
        Point::new(self.location.x + self.width / 2, self.location.y + self.height / 2)
    }

    /// Lays floor over the whole room, up to the far walls.
    pub fn fill_with_floor(&self, tiles: &mut GameMapTiles)
        requires
            self.fits(),
        ensures
            grid_of(final(tiles)@) == with_block(
                grid_of(old(tiles)@),
                self.left(),
                self.top(),
                self.right(),
                self.bottom(),
                fresh_floor(),
            ),
    {
        fill_block(
            tiles,
            self.location.x,
            self.location.y,
            self.location.x + self.width,
            self.location.y + self.height,
            Tile::Floor { visible: false, cursed: false },
        );
    }

    /// Lays floor over the room again, inside the near walls.
    pub fn reset(&self, tiles: &mut GameMapTiles)
        requires
            self.fits(),
        ensures
            grid_of(final(tiles)@) == with_block(
                grid_of(old(tiles)@),
                self.left() + 1,
                self.top() + 1,
                self.right(),
                self.bottom(),
                fresh_floor(),
            ),
    {
        fill_block(
            tiles,
            self.location.x + 1,
            self.location.y + 1,
            self.location.x + self.width,
            self.location.y + self.height,
            Tile::Floor { visible: false, cursed: false },
        );
    }

    /// Draws the four walls of the room.
    pub fn surround_with_walls(&self, tiles: &mut GameMapTiles)
        requires
            self.fits(),
        ensures
            grid_of(final(tiles)@) == self.walled_in(grid_of(old(tiles)@)),
    {
        let ghost start = grid_of(tiles@);
        let left: usize = self.location.x;
        let top: usize = self.location.y;
        let right: usize = self.location.x + self.width;
        let bottom: usize = self.location.y + self.height;
        let wall: Tile = Tile::Wall { visible: false };
        fill_block(tiles, left, top, right + 1, top + 1, wall);
        fill_block(tiles, left, bottom, right + 1, bottom + 1, wall);
        fill_block(tiles, left, top, left + 1, bottom + 1, wall);
        fill_block(tiles, right, top, right + 1, bottom + 1, wall);
        proof {
            lemma_grid_ext(grid_of(tiles@), self.walled_in(start));
        }
    }

    /// Sets a column two cells in from each corner of the room.
    pub fn stamp_columns(&self, tiles: &mut GameMapTiles)
        requires
            self.fits(),
        ensures
            grid_of(final(tiles)@) == self.with_columns(grid_of(old(tiles)@)),
    {
        let ghost start = grid_of(tiles@);
        let x1: usize = self.location.x + 2;
        let y1: usize = self.location.y + 2;
        let right: usize = self.location.x + self.width;
        let bottom: usize = self.location.y + self.height;
        let column: Tile = Tile::Column { visible: false };
        proof {
            lemma_with_tile(start, x1 as int, y1 as int, column);
        }
        put_tile(tiles, Point { x: x1, y: y1 }, column);
        let ghost one = grid_of(tiles@);
        if right >= 2 {
            proof {
                lemma_with_tile(one, right - 2, y1 as int, column);
            }
            put_tile(tiles, Point { x: right - 2, y: y1 }, column);
        }
        let ghost two = grid_of(tiles@);
        if bottom >= 2 {
            proof {
                lemma_with_tile(two, x1 as int, bottom - 2, column);
            }
            put_tile(tiles, Point { x: x1, y: bottom - 2 }, column);
        }
        let ghost three = grid_of(tiles@);
        if right >= 2 && bottom >= 2 {
            proof {
                lemma_with_tile(three, right - 2, bottom - 2, column);
            }
            put_tile(tiles, Point { x: right - 2, y: bottom - 2 }, column);
        }
        proof {
            let done = grid_of(tiles@);
            assert(same_shape(start, one) && same_shape(one, two) && same_shape(two, three)
                && same_shape(three, done));
            assert forall|x: int, y: int| in_grid(done, x, y) implies tile_at(done, x, y)
                == tile_at(self.with_columns(start), x, y) by {
                assert(tile_at(one, x, y) == if x == x1 && y == y1 {
                    column
                } else {
                    tile_at(start, x, y)
                });
                assert(tile_at(two, x, y) == if x == right - 2 && y == y1 {
                    column
                } else {
                    tile_at(one, x, y)
                });
                assert(tile_at(three, x, y) == if x == x1 && y == bottom - 2 {
                    column
                } else {
                    tile_at(two, x, y)
                });
                assert(tile_at(done, x, y) == if x == right - 2 && y == bottom - 2 {
                    column
                } else {
                    tile_at(three, x, y)
                });
            }
            lemma_grid_ext(done, self.with_columns(start));
        }
    }

    /// Sets the room's columns, or leaves them out: a coin decides.
    pub fn place_columns(&self, tiles: &mut GameMapTiles)
        requires
            self.fits(),
        ensures
            grid_of(final(tiles)@) == self.with_columns(grid_of(old(tiles)@)) || grid_of(
                final(tiles)@,
            ) == grid_of(old(tiles)@),
    {
        if chance(1, 2) {
            self.stamp_columns(tiles);
        }
    }

    /// Sets an obelisk in the middle of the room.
    pub fn place_obelisk(&self, tiles: &mut GameMapTiles)
        requires
            self.fits(),
        ensures
            grid_of(final(tiles)@) == with_tile(
                grid_of(old(tiles)@),
                self.middle().x as int,
                self.middle().y as int,
                room_obelisk(),
            ),
    {
        let center: Point = self.center();
        put_tile(
            tiles,
            center,
            Tile::Obelisk { visible: false, curse: true, fov: 8, damage_hp: 1, reduce_fov_radius: 3 },
        );
    }

    /// The openings in the room's top and bottom walls among the columns
    /// before `upto`, column by column, top before bottom.
    pub open spec fn entrances_across(self, grid: Grid, upto: int) -> Seq<Point>
        decreases upto - self.left(),
    {
        if upto <= self.left() {
            Seq::empty()
        } else {
            let x = upto - 1;
            self.entrances_across(grid, x) + listed_if(
                opening_across(grid, x, self.top()),
                cell(x, self.top()),
            ) + listed_if(opening_across(grid, x, self.bottom()), cell(x, self.bottom()))
        }
    }

    /// The openings in the room's left and right walls among the rows before
    /// `upto`, row by row, left before right.
    pub open spec fn entrances_along(self, grid: Grid, upto: int) -> Seq<Point>
        decreases upto - self.top(),
    {
        if upto <= self.top() {
            Seq::empty()
        } else {
            let y = upto - 1;
            self.entrances_along(grid, y) + listed_if(
                opening_along(grid, self.left(), y),
                cell(self.left(), y),
            ) + listed_if(opening_along(grid, self.right(), y), cell(self.right(), y))
        }
    }

    /// The entrances of the room: the floor cells on its walls that have a
    /// wall, or the edge of the grid, on both sides along the wall. Those of
    /// the top and bottom walls come first, then those of the left and right
    /// walls. A corner that is open both ways is listed for both.
    pub open spec fn entrances(self, grid: Grid) -> Seq<Point> {
        self.entrances_across(grid, self.right() + 1) + self.entrances_along(
            grid,
            self.bottom() + 1,
        )
    }

    /// The cell is an entrance of the room.
    pub open spec fn entrance(self, grid: Grid, x: int, y: int) -> bool {
        ||| (self.left() <= x <= self.right() && (y == self.top() || y == self.bottom())
            && opening_across(grid, x, y))
        ||| (self.top() <= y <= self.bottom() && (x == self.left() || x == self.right())
            && opening_along(grid, x, y))
    }

    /// Every listed entrance is an entrance.
    pub proof fn lemma_entrances_across(self, grid: Grid, upto: int)
        requires
            self.fits(),
            upto <= self.right() + 1,
        ensures
            forall|p: Point| #[trigger]
                self.entrances_across(grid, upto).contains(p) ==> self.entrance(
                    grid,
                    p.x as int,
                    p.y as int,
                ),
        decreases upto - self.left(),
    {
        if upto <= self.left() {
        } else {
            let x = upto - 1;
            self.lemma_entrances_across(grid, x);
            let a = self.entrances_across(grid, x);
            let b = listed_if(opening_across(grid, x, self.top()), cell(x, self.top()));
            let c = listed_if(opening_across(grid, x, self.bottom()), cell(x, self.bottom()));
            assert forall|p: Point| #[trigger]
                self.entrances_across(grid, upto).contains(p) implies self.entrance(
                grid,
                p.x as int,
                p.y as int,
            ) by {
                let i = choose|i: int| 0 <= i < (a + b + c).len() && (a + b + c)[i] == p;
                if i < a.len() {
                    assert(a[i] == p);
                    assert(a.contains(p));
                } else if i < a.len() + b.len() {
                    assert(b[i - a.len()] == p);
                } else {
                    assert(c[i - a.len() - b.len()] == p);
                }
            }
        }
    }

    /// Every listed entrance is an entrance.
    pub proof fn lemma_entrances_along(self, grid: Grid, upto: int)
        requires
            self.fits(),
            upto <= self.bottom() + 1,
        ensures
            forall|p: Point| #[trigger]
                self.entrances_along(grid, upto).contains(p) ==> self.entrance(
                    grid,
                    p.x as int,
                    p.y as int,
                ),
        decreases upto - self.top(),
    {
        if upto <= self.top() {
        } else {
            let y = upto - 1;
            self.lemma_entrances_along(grid, y);
            let a = self.entrances_along(grid, y);
            let b = listed_if(opening_along(grid, self.left(), y), cell(self.left(), y));
            let c = listed_if(opening_along(grid, self.right(), y), cell(self.right(), y));
            assert forall|p: Point| #[trigger]
                self.entrances_along(grid, upto).contains(p) implies self.entrance(
                grid,
                p.x as int,
                p.y as int,
            ) by {
                let i = choose|i: int| 0 <= i < (a + b + c).len() && (a + b + c)[i] == p;
                if i < a.len() {
                    assert(a[i] == p);
                    assert(a.contains(p));
                } else if i < a.len() + b.len() {
                    assert(b[i - a.len()] == p);
                } else {
                    assert(c[i - a.len() - b.len()] == p);
                }
            }
        }
    }

    /// Every listed entrance is an entrance: a floor cell on the walls of
    /// the room.
    pub proof fn lemma_entrances(self, grid: Grid)
        requires
            self.fits(),
        ensures
            forall|p: Point| #[trigger]
                self.entrances(grid).contains(p) ==> self.entrance(grid, p.x as int, p.y as int)
                    && self.on_edge(p.x as int, p.y as int) && tile_at(
                    grid,
                    p.x as int,
                    p.y as int,
                ) is Floor,
    {
        self.lemma_entrances_across(grid, self.right() + 1);
        self.lemma_entrances_along(grid, self.bottom() + 1);
        let a = self.entrances_across(grid, self.right() + 1);
        let b = self.entrances_along(grid, self.bottom() + 1);
        assert forall|p: Point| #[trigger] self.entrances(grid).contains(p) implies self.entrance(
            grid,
            p.x as int,
            p.y as int,
        ) by {
            let i = choose|i: int| 0 <= i < (a + b).len() && (a + b)[i] == p;
            if i < a.len() {
                assert(a[i] == p);
                assert(a.contains(p));
            } else {
                assert(b[i - a.len()] == p);
                assert(b.contains(p));
            }
        }
    }

    /// Lists the entrances of the room.
    pub fn find_room_entrances(&self, tiles: &GameMapTiles) -> (entrances: Vec<Point>)
        requires
            self.fits(),
        ensures
            entrances@ == self.entrances(grid_of(tiles@)),
    {
        let ghost grid = grid_of(tiles@);
        let mut entrances: Vec<Point> = Vec::new();
        let left: usize = self.location.x;
        let right: usize = self.location.x + self.width;
        let top: usize = self.location.y;
        let bottom: usize = self.location.y + self.height;
        let mut x: usize = left;
        while x <= right
            invariant
                grid == grid_of(tiles@),
                self.fits(),
                left == self.left(),
                right == self.right(),
                top == self.top(),
                bottom == self.bottom(),
                left <= x <= right + 1,
                entrances@ == self.entrances_across(grid, x as int),
            decreases right + 1 - x,
        {
            let ghost so_far = entrances@;
            if is_opening_across(tiles, x, top) {
                entrances.push(Point::new(x, top));
            }
            if is_opening_across(tiles, x, bottom) {
                entrances.push(Point::new(x, bottom));
            }
            proof {
                assert(entrances@ =~= so_far + listed_if(
                    opening_across(grid, x as int, self.top()),
                    cell(x as int, self.top()),
                ) + listed_if(
                    opening_across(grid, x as int, self.bottom()),
                    cell(x as int, self.bottom()),
                ));
            }
            x = x + 1;
        }
        let ghost across = entrances@;
        let mut y: usize = top;
        while y <= bottom
            invariant
                grid == grid_of(tiles@),
                self.fits(),
                left == self.left(),
                right == self.right(),
                top == self.top(),
                bottom == self.bottom(),
                top <= y <= bottom + 1,
                across == self.entrances_across(grid, self.right() + 1),
                entrances@ == across + self.entrances_along(grid, y as int),
            decreases bottom + 1 - y,
        {
            let ghost so_far = entrances@;
            if is_opening_along(tiles, left, y) {
                entrances.push(Point::new(left, y));
            }
            if is_opening_along(tiles, right, y) {
                entrances.push(Point::new(right, y));
            }
            proof {
                assert(entrances@ =~= so_far + listed_if(
                    opening_along(grid, self.left(), y as int),
                    cell(self.left(), y as int),
                ) + listed_if(
                    opening_along(grid, self.right(), y as int),
                    cell(self.right(), y as int),
                ));
                assert(entrances@ =~= across + self.entrances_along(grid, y + 1));
            }
            y = y + 1;
        }
        entrances
    }

    /// Hangs a closed door in some of the room's entrances: a coin decides
    /// for each.
    pub fn place_doors(&self, tiles: &mut GameMapTiles)
        requires
            self.fits(),
        ensures
            doors_hung(grid_of(old(tiles)@), grid_of(final(tiles)@), *self),
    {
        let ghost start = grid_of(tiles@);
        let entrances: Vec<Point> = self.find_room_entrances(tiles);
        proof {
            self.lemma_entrances(start);
        }
        let mut i: usize = 0;
        while i < entrances.len()
            invariant
                entrances@ == self.entrances(start),
                forall|p: Point| #[trigger]
                    self.entrances(start).contains(p) ==> self.entrance(
                        start,
                        p.x as int,
                        p.y as int,
                    ) && self.on_edge(p.x as int, p.y as int) && tile_at(
                        start,
                        p.x as int,
                        p.y as int,
                    ) is Floor,
                doors_hung(start, grid_of(tiles@), *self),
            decreases entrances.len() - i,
        {
            let entrance: Point = entrances[i];
            let ghost before = grid_of(tiles@);
            hang_door(tiles, entrance, chance(1, 2));
            proof {
                assert(self.entrances(start).contains(entrance));
                lemma_with_tile(before, entrance.x as int, entrance.y as int, fresh_door());
                assert(same_shape(start, grid_of(tiles@)));
            }
            i = i + 1;
        }
    }

    /// Decides what the room is furnished as. A room with a single entrance
    /// is most often an obelisk room; other rooms lean towards secrets.
    pub fn determine_room_type(&mut self, tiles: &GameMapTiles)
        requires
            old(self).fits(),
        ensures
            final(self).location == old(self).location,
            final(self).width == old(self).width,
            final(self).height == old(self).height,
            exists|roll: nat|
                roll < 10 && final(self).room_type == #[trigger] room_type_for(
                    old(self).entrances(grid_of(tiles@)).len(),
                    roll,
                ),
    {
        let entrances: Vec<Point> = self.find_room_entrances(tiles);
        let num_entrances: usize = entrances.len();
        let roll: usize = uniform_inclusive(0, 9);
        self.room_type = classify(num_entrances, roll);
        assert(self.room_type == room_type_for(num_entrances as nat, roll as nat));
    }

    /// The room is built on the grid: every cell of its footprint that lies
    /// in the grid holds a tile that the generator lays.
    pub open spec fn built(self, grid: Grid) -> bool {
        forall|x: int, y: int|
            self.covers(x, y) && in_grid(grid, x, y) ==> generated(#[trigger] tile_at(grid, x, y))
    }

    /// The room stands whole on the grid: its walls are unbroken, and if it
    /// is an obelisk room, its obelisk stands in the middle.
    pub open spec fn stands(self, grid: Grid) -> bool {
        &&& self.walled_up(grid)
        &&& self.room_type == RoomType::Obelisk && in_grid(
            grid,
            self.middle().x as int,
            self.middle().y as int,
        ) ==> tile_at(grid, self.middle().x as int, self.middle().y as int) == room_obelisk()
    }

    /// The footprints of the two rooms share no cell.
    pub open spec fn clear_of(self, other: Room) -> bool {
        ||| self.right() < other.left()
        ||| other.right() < self.left()
        ||| self.bottom() < other.top()
        ||| other.bottom() < self.top()
    }

    /// A room that is built stays built when tiles are laid over it.
    pub proof fn lemma_built_kept(self, before: Grid, after: Grid)
        requires
            self.built(before),
            refreshed(before, after),
        ensures
            self.built(after),
    {
        assert forall|x: int, y: int| self.covers(x, y) && in_grid(after, x, y) implies generated(
            #[trigger] tile_at(after, x, y),
        ) by {
            assert(before[y].len() == after[y].len());
            assert(generated(tile_at(before, x, y)));
        }
    }

    /// A room that stands whole is left whole by what is done inside the
    /// footprint of a room clear of it.
    pub proof fn lemma_stands_kept(self, before: Grid, after: Grid, other: Room)
        requires
            self.stands(before),
            self.fits(),
            furnished(before, after, other),
            self.clear_of(other),
        ensures
            self.stands(after),
    {
        assert forall|x: int, y: int| self.on_edge(x, y) && in_grid(after, x, y) implies #[trigger] tile_at(
            after,
            x,
            y,
        ) == fresh_wall() by {
            assert(before[y].len() == after[y].len());
            assert(tile_at(before, x, y) == fresh_wall());
        }
        let mx = self.middle().x as int;
        let my = self.middle().y as int;
        assert(self.covers(mx, my));
        if 0 <= my < before.len() {
            assert(before[my].len() == after[my].len());
        }
        let t = tile_at(after, mx, my);
    }

    /// Every cell of the room's walls that lies in the grid holds a wall.
    pub open spec fn walled_up(self, grid: Grid) -> bool {
        forall|x: int, y: int|
            self.on_edge(x, y) && in_grid(grid, x, y) ==> #[trigger] tile_at(grid, x, y)
                == fresh_wall()
    }

    /// Builds the room on the grid: floor, walls, perhaps columns, then the
    /// furniture of the kind of room that the die picks, then doors.
    ///
    /// Chance decides most of it. Whatever it decides, the shape of the grid
    /// stays, the room keeps its place and size, and every cell of the
    /// room's footprint ends with a tile that the generator lays. Unless the
    /// room is less than two cells wide or high, no cell outside the
    /// footprint changes. In a room at least three cells wide and high the
    /// walls stand unbroken, and an obelisk room has its obelisk in the
    /// middle.
    pub fn populate(&mut self, tiles: &mut GameMapTiles)
        requires
            old(self).fits(),
        ensures
            final(self).location == old(self).location,
            final(self).width == old(self).width,
            final(self).height == old(self).height,
            refreshed(grid_of(old(tiles)@), grid_of(final(tiles)@)),
            forall|x: int, y: int|
                old(self).covers(x, y) && in_grid(grid_of(final(tiles)@), x, y) ==> generated(
                    #[trigger] tile_at(grid_of(final(tiles)@), x, y),
                ),
            old(self).width >= 2 && old(self).height >= 2 ==> furnished(
                grid_of(old(tiles)@),
                grid_of(final(tiles)@),
                *old(self),
            ),
            old(self).width >= 3 && old(self).height >= 3 ==> old(self).walled_up(
                grid_of(final(tiles)@),
            ),
            old(self).width >= 3 && old(self).height >= 3 && final(self).room_type
                == RoomType::Obelisk && in_grid(
                grid_of(old(tiles)@),
                old(self).middle().x as int,
                old(self).middle().y as int,
            ) ==> tile_at(
                grid_of(final(tiles)@),
                old(self).middle().x as int,
                old(self).middle().y as int,
            ) == room_obelisk(),
    {
        let ghost start = grid_of(tiles@);
        let ghost plan = *self;
        let ghost sound = plan.width >= 3 && plan.height >= 3;
        self.fill_with_floor(tiles);
        self.surround_with_walls(tiles);
        let ghost built = grid_of(tiles@);
        proof {
            assert(refreshed(start, built));
            assert(furnished(start, built, plan));
            assert forall|x: int, y: int| plan.covers(x, y) && in_grid(built, x, y) implies generated(
                #[trigger] tile_at(built, x, y),
            ) by {}
            assert(plan.walled_up(built));
        }
        self.place_columns(tiles);
        let ghost pillared = grid_of(tiles@);
        proof {
            assert(refreshed(built, pillared));
            if plan.width >= 2 && plan.height >= 2 {
                assert(furnished(built, pillared, plan));
            }
            if sound {
                assert(plan.walled_up(pillared));
            }
        }
        self.determine_room_type(tiles);
        let ghost room = *self;
        proof {
            assert(forall|x: int, y: int| room.covers(x, y) == plan.covers(x, y));
            assert(forall|x: int, y: int| room.on_edge(x, y) == plan.on_edge(x, y));
            assert(forall|x: int, y: int| room.interior(x, y) == plan.interior(x, y));
            assert(room.middle() == plan.middle());
        }
        let ghost mx = plan.middle().x as int;
        let ghost my = plan.middle().y as int;
        match self.room_type {
            RoomType::Obelisk => {
                self.place_obelisk(tiles);
                proof {
                    lemma_with_tile(pillared, mx, my, room_obelisk());
                }
            },
            RoomType::Secret => {
                self.place_secret(tiles, true);
                let ghost hidden = grid_of(tiles@);
                proof {
                    lemma_secret_furnished(room, pillared, hidden, true);
                    lemma_secret_inside(room, pillared, hidden, true);
                }
                if chance(1, 2) {
                    self.place_mobs(tiles);
                    let ghost crowded = grid_of(tiles@);
                    self.place_brute(tiles);
                    proof {
                        lemma_mob_steps_stocked(hidden, crowded, room, 3);
                        let guarded = grid_of(tiles@);
                        if guarded != crowded {
                            lemma_mob_step_stocked(crowded, guarded, room, guard_brute());
                        }
                        assert(furnished(hidden, crowded, room));
                        assert(furnished(crowded, guarded, room));
                        assert(kept_outside(hidden, crowded, room));
                        assert(kept_outside(crowded, guarded, room));
                    }
                }
            },
            RoomType::Normal => {
                if chance(1, 4) {
                    self.place_obelisk(tiles);
                    proof {
                        lemma_with_tile(pillared, mx, my, room_obelisk());
                    }
                }
                let ghost one = grid_of(tiles@);
                assert(furnished(pillared, one, room));
                if chance(1, 2) {
                    self.place_secret(tiles, false);
                    proof {
                        lemma_secret_furnished(room, one, grid_of(tiles@), false);
                        lemma_secret_inside(room, one, grid_of(tiles@), false);
                    }
                }
                let ghost two = grid_of(tiles@);
                assert(furnished(one, two, room));
                assert(kept_outside(one, two, room));
                if chance(19, 20) {
                    self.place_mobs(tiles);
                    proof {
                        lemma_mob_steps_stocked(two, grid_of(tiles@), room, 3);
                    }
                }
                assert(furnished(two, grid_of(tiles@), room));
                assert(kept_outside(two, grid_of(tiles@), room));
            },
        }
        let ghost decorated = grid_of(tiles@);
        assert(furnished(pillared, decorated, room));
        proof {
            if sound {
                assert(plan.walled_up(decorated));
            }
        }
        self.place_doors(tiles);
        proof {
            let done = grid_of(tiles@);
            assert(furnished(decorated, done, room));
            assert(furnished(pillared, done, room));
            assert(furnished(pillared, done, plan));
            assert(refreshed(pillared, done));
            assert(refreshed(built, done));
            assert(refreshed(start, done));
            if sound {
                assert forall|x: int, y: int| tile_at(done, x, y) == tile_at(decorated, x, y) by {
                    if tile_at(done, x, y) != tile_at(decorated, x, y) {
                        assert(room.on_edge(x, y) && tile_at(decorated, x, y) is Floor);
                        assert(in_grid(decorated, x, y));
                        assert(tile_at(decorated, x, y) == fresh_wall());
                    }
                }
                assert(plan.walled_up(done)) by {
                    assert forall|x: int, y: int|
                        plan.on_edge(x, y) && in_grid(done, x, y) implies #[trigger] tile_at(
                        done,
                        x,
                        y,
                    ) == fresh_wall() by {
                        assert(decorated[y].len() == done[y].len());
                        assert(tile_at(decorated, x, y) == fresh_wall());
                    }
                }
            }
        }
    }
}

/// A list of the point if the condition holds, and of nothing otherwise.
pub open spec fn listed_if(condition: bool, p: Point) -> Seq<Point> {
    if condition {
        seq![p]
    } else {
        Seq::empty()
    }
}

/// The grid after doors were hung in some entrances of the room: every cell
/// either keeps its tile, or was floor on the walls of the room and now
/// holds a closed door.
pub open spec fn doors_hung(before: Grid, after: Grid, room: Room) -> bool {
    &&& same_shape(before, after)
    &&& forall|x: int, y: int|
        #![trigger tile_at(after, x, y)]
        tile_at(after, x, y) == tile_at(before, x, y) || (tile_at(after, x, y) == fresh_door()
            && room.entrance(before, x, y) && room.on_edge(x, y) && tile_at(before, x, y)
            is Floor)
}

/// The grid after doors were hung in floor cells: every cell either keeps
/// its tile, or was floor and holds a closed door.
pub open spec fn doors_added(before: Grid, after: Grid) -> bool {
    &&& same_shape(before, after)
    &&& forall|x: int, y: int|
        #![trigger tile_at(after, x, y)]
        tile_at(after, x, y) == tile_at(before, x, y) || (tile_at(before, x, y) is Floor
            && tile_at(after, x, y) == fresh_door())
}

/// An entrance that is left after doors were hung was an entrance before:
/// hanging doors opens no wall and lays no floor.
pub proof fn lemma_entrance_before_doors(before: Grid, after: Grid, room: Room, x: int, y: int)
    requires
        doors_added(before, after),
        room.entrance(after, x, y),
    ensures
        room.entrance(before, x, y),
        tile_at(before, x, y) is Floor,
{
    assert forall|i: int, j: int| walled(after, i, j) implies walled(before, i, j) by {
        if 0 <= j < before.len() {
            assert(before[j].len() == after[j].len());
        }
        let t = tile_at(after, i, j);
    }
    assert forall|i: int, j: int| tile_at(after, i, j) is Floor implies tile_at(before, i, j)
        is Floor by {
        let t = tile_at(after, i, j);
    }
    assert(walled(after, x - 1, y) ==> walled(before, x - 1, y));
    assert(walled(after, x + 1, y) ==> walled(before, x + 1, y));
    assert(walled(after, x, y - 1) ==> walled(before, x, y - 1));
    assert(walled(after, x, y + 1) ==> walled(before, x, y + 1));
    assert(tile_at(after, x, y) is Floor ==> tile_at(before, x, y) is Floor);
}

/// Out of ten, how often a room with that many entrances becomes an obelisk
/// room.
pub open spec fn obelisk_weight(entrances: nat) -> nat {
    if entrances == 1 {
        7
    } else {
        3
    }
}

/// Out of ten, how often a room with that many entrances becomes a secret
/// room.
pub open spec fn secret_weight(entrances: nat) -> nat {
    if entrances == 1 {
        2
    } else {
        4
    }
}

/// Out of ten, how often a room with that many entrances stays a normal room.
pub open spec fn normal_weight(entrances: nat) -> nat {
    if entrances == 1 {
        1
    } else {
        3
    }
}

/// The three weights of a room add up to ten: every roll of the ten-sided die
/// falls to one kind of room, and to one only.
pub proof fn lemma_weights_add_up(entrances: nat)
    ensures
        obelisk_weight(entrances) + secret_weight(entrances) + normal_weight(entrances) == 10,
{
}

/// The kind of room that a roll of the ten-sided die (`0` to `9`) stands for:
/// the low rolls an obelisk room, the next a secret room, the rest normal.
pub open spec fn room_type_for(entrances: nat, roll: nat) -> RoomType {
    if roll < obelisk_weight(entrances) {
        RoomType::Obelisk
    } else if roll < obelisk_weight(entrances) + secret_weight(entrances) {
        RoomType::Secret
    } else {
        RoomType::Normal
    }
}

/// The kind of room for a number of entrances and a roll of the die.
pub fn classify(num_entrances: usize, roll: usize) -> (room_type: RoomType)
    ensures
        room_type == room_type_for(num_entrances as nat, roll as nat),
{
    let obelisk_chance: usize = if num_entrances == 1 {
        7
    } else {
        3
    };
    let secret_chance: usize = if num_entrances == 1 {
        2
    } else {
        4
    };
    if roll < obelisk_chance {
        RoomType::Obelisk
    } else if roll < obelisk_chance + secret_chance {
        RoomType::Secret
    } else {
        RoomType::Normal
    }
}

/// Whether `(x, y)` is floor with a wall, or the edge of the grid, on its
/// left and on its right.
fn is_opening_across(tiles: &GameMapTiles, x: usize, y: usize) -> (open: bool)
    ensures
        open == opening_across(grid_of(tiles@), x as int, y as int),
{
    if y < tiles.len() && x < tiles[y].len() {
        if let Tile::Floor { .. } = tiles[y][x] {
            let left_wall: bool = x == 0 || is_walled(tiles, x - 1, y);
            let right_wall: bool = is_walled(tiles, x + 1, y);
            left_wall && right_wall
        } else {
            false
        }
    } else {
        false
    }
}

/// Whether `(x, y)` is floor with a wall, or the edge of the grid, above and
/// below.
fn is_opening_along(tiles: &GameMapTiles, x: usize, y: usize) -> (open: bool)
    ensures
        open == opening_along(grid_of(tiles@), x as int, y as int),
{
    if y < tiles.len() && x < tiles[y].len() {
        if let Tile::Floor { .. } = tiles[y][x] {
            let top_wall: bool = y == 0 || is_walled(tiles, x, y - 1);
            let bottom_wall: bool = is_walled(tiles, x, y + 1);
            top_wall && bottom_wall
        } else {
            false
        }
    } else {
        false
    }
}

/// Whether `(x, y)` lies outside the grid or holds a wall.
fn is_walled(tiles: &GameMapTiles, x: usize, y: usize) -> (closed: bool)
    ensures
        closed == walled(grid_of(tiles@), x as int, y as int),
{
    if y < tiles.len() && x < tiles[y].len() {
        matches!(tiles[y][x], Tile::Wall { .. })
    } else {
        true
    }
}

/// The grid after some changes: every cell either keeps its tile or holds a
/// tile that the generator lays.
pub open spec fn refreshed(before: Grid, after: Grid) -> bool {
    &&& same_shape(before, after)
    &&& forall|x: int, y: int|
        #![trigger tile_at(after, x, y)]
        tile_at(after, x, y) == tile_at(before, x, y) || generated(tile_at(after, x, y))
}

/// Hangs a closed door at `entrance` if the coin has fallen that way.
pub fn hang_door(tiles: &mut GameMapTiles, entrance: Point, coin: bool)
    ensures
        grid_of(final(tiles)@) == if coin {
            with_tile(grid_of(old(tiles)@), entrance.x as int, entrance.y as int, fresh_door())
        } else {
            grid_of(old(tiles)@)
        },
{
    if coin {
        put_tile(tiles, entrance, Tile::Door { visible: false, open: false });
    }
}

} // verus!
