//! The furniture of rooms: secrets hidden beside columns, and the creatures
//! that stand about.

use crate::generator::room::{furnished, generated, Room};
use crate::map::grid::{
    cell, grid_of, in_grid, lemma_with_tile, put_tile, same_shape, tile_at, tile_or_empty,
    with_tile, Grid,
};
use crate::map::types::{GameMapTiles, Point};
use crate::random::{chance, pick, uniform_inclusive};
use crate::tile::Tile;
use vstd::prelude::*;

verus! {

/// The kinds of creature that a room may hold.
#[derive(Clone, Copy, Debug, PartialEq, Eq, Structural)]
pub enum MobType {
    Wither,
    Bat,
    Brute,
}

/// A secret of the given rarity, still hidden.
pub open spec fn fresh_secret(rarity: u32) -> Tile {
    Tile::Secret { visible: false, rarity }
}

/// The creature of the given kind with the values it has in a room.
pub open spec fn room_mob(kind: MobType) -> Tile {
    match kind {
        MobType::Wither => Tile::Wither { visible: false, hp: 50, damage: 10, fov: 6 },
        MobType::Bat => Tile::Bat { visible: false, hp: 20, damage: 5, fov: 8 },
        MobType::Brute => Tile::Brute { visible: false, hp: 80, damage: 15, fov: 4 },
    }
}

/// The brute that guards a secret room.
pub open spec fn guard_brute() -> Tile {
    Tile::Brute { visible: false, hp: 20, damage: 10, fov: 4 }
}

/// The rarities that a secret may have in a room of the given kind.
pub open spec fn secret_rarity(is_secret_room: bool, rarity: u32) -> bool {
    if is_secret_room {
        rarity == 100 || rarity == 1000
    } else {
        rarity == 1 || rarity == 10 || rarity == 100
    }
}

/// One creature was set: `mob` stands on a cell of the room's interior that
/// was floor, and nothing else changed.
pub open spec fn mob_step(before: Grid, after: Grid, room: Room, mob: Tile) -> bool {
    exists|x: int, y: int|
        #![trigger with_tile(before, x, y, mob)]
        room.interior(x, y) && tile_at(before, x, y) is Floor && after == with_tile(
            before,
            x,
            y,
            mob,
        )
}

/// At most `n` creatures of the room's kinds were set, one after another,
/// each on a cell of the interior that was floor when it came.
pub open spec fn mob_steps(before: Grid, after: Grid, room: Room, n: nat) -> bool
    decreases n,
{
    before == after || (n > 0 && exists|mid: Grid, kind: MobType|
        #![trigger mob_step(mid, after, room, room_mob(kind))]
        mob_steps(before, mid, room, (n - 1) as nat) && mob_step(
            mid,
            after,
            room,
            room_mob(kind),
        ))
}

/// The grid after creatures were set in a room: every cell either keeps its
/// tile, or was floor in the interior of the room and now holds a creature.
pub open spec fn stocked(before: Grid, after: Grid, room: Room) -> bool {
    &&& same_shape(before, after)
    &&& forall|x: int, y: int|
        #![trigger tile_at(after, x, y)]
        tile_at(after, x, y) == tile_at(before, x, y) || (room.interior(x, y) && in_grid(
            before,
            x,
            y,
        ) && tile_at(before, x, y) is Floor && tile_at(after, x, y).is_mob() && generated(
            tile_at(after, x, y),
        ))
}

/// The grid after changes to the interior of a room: every cell outside the
/// interior keeps its tile.
pub open spec fn kept_outside(before: Grid, after: Grid, room: Room) -> bool {
    &&& same_shape(before, after)
    &&& forall|x: int, y: int|
        #![trigger tile_at(after, x, y)]
        room.interior(x, y) || tile_at(after, x, y) == tile_at(before, x, y)
}

impl Room {
    /// The column cell `(cx, cy)` of the room's interior has the floor cell
    /// `(x, y)` of the interior beside it.
    pub open spec fn beside_column(self, grid: Grid, cx: int, cy: int, x: int, y: int) -> bool {
        &&& self.interior(cx, cy)
        &&& tile_at(grid, cx, cy) is Column
        &&& self.interior(x, y)
        &&& tile_at(grid, x, y) is Floor
        &&& ((y == cy && (x == cx - 1 || x == cx + 1)) || (x == cx && (y == cy - 1 || y == cy
            + 1)))
    }

    /// The cell is a place for a secret: floor in the interior of the room
    /// with a column of the interior beside it.
    pub open spec fn secret_spot(self, grid: Grid, x: int, y: int) -> bool {
        exists|cx: int, cy: int| #[trigger] self.beside_column(grid, cx, cy, x, y)
    }

    /// The room has a place for a secret.
    pub open spec fn has_secret_spot(self, grid: Grid) -> bool {
        exists|x: int, y: int| #[trigger] self.secret_spot(grid, x, y)
    }

    /// The interior of the room has a cell.
    pub open spec fn has_interior(self) -> bool {
        self.width >= 3 && self.height >= 3
    }

    /// The cell is a place for a secret beside a column that comes before
    /// `(tx, ty)` in reading order.
    pub open spec fn secret_spot_before(self, grid: Grid, tx: int, ty: int, x: int, y: int) -> bool {
        exists|cx: int, cy: int|
            (cy < ty || (cy == ty && cx < tx)) && #[trigger] self.beside_column(grid, cx, cy, x, y)
    }

    /// Lists the places for a secret, once for every column that they stand
    /// beside.
    pub fn secret_spots(&self, tiles: &GameMapTiles) -> (spots: Vec<Point>)
        requires
            self.fits(),
        ensures
            forall|p: Point|
                spots@.contains(p) <==> self.secret_spot(grid_of(tiles@), p.x as int, p.y as int),
    {
        let ghost grid = grid_of(tiles@);
        let mut spots: Vec<Point> = Vec::new();
        if self.width < 3 || self.height < 3 {
            return spots;
        }
        let x_start: usize = self.location.x + 1;
        let x_end: usize = self.location.x + self.width - 1;
        let y_start: usize = self.location.y + 1;
        let y_end: usize = self.location.y + self.height - 1;
        let mut y: usize = y_start;
        while y < y_end
            invariant
                grid == grid_of(tiles@),
                self.fits(),
                self.has_interior(),
                x_start == self.left() + 1,
                x_end == self.right() - 1,
                y_start == self.top() + 1,
                y_end == self.bottom() - 1,
                y_start <= y,
                forall|p: Point|
                    spots@.contains(p) <==> self.secret_spot_before(
                        grid,
                        x_start as int,
                        y as int,
                        p.x as int,
                        p.y as int,
                    ),
            decreases y_end - y,
        {
            let mut x: usize = x_start;
            while x < x_end
                invariant
                    grid == grid_of(tiles@),
                    self.fits(),
                    self.has_interior(),
                    x_start == self.left() + 1,
                    x_end == self.right() - 1,
                    y_start == self.top() + 1,
                    y_end == self.bottom() - 1,
                    y_start <= y,
                    y < y_end,
                    x_start <= x,
                    forall|p: Point|
                        spots@.contains(p) <==> self.secret_spot_before(
                            grid,
                            x as int,
                            y as int,
                            p.x as int,
                            p.y as int,
                        ),
                decreases x_end - x,
            {
                let ghost listed = spots@;
                if let Tile::Column { .. } = tile_or_empty(tiles, Point { x, y }) {
                    self.push_if_floor(tiles, x - 1, y, &mut spots);
                    self.push_if_floor(tiles, x + 1, y, &mut spots);
                    self.push_if_floor(tiles, x, y - 1, &mut spots);
                    self.push_if_floor(tiles, x, y + 1, &mut spots);
                }
                proof {
                    assert forall|p: Point|
                        spots@.contains(p) <==> self.secret_spot_before(
                            grid,
                            x + 1,
                            y as int,
                            p.x as int,
                            p.y as int,
                        ) by {
                        let here = self.beside_column(
                            grid,
                            x as int,
                            y as int,
                            p.x as int,
                            p.y as int,
                        );
                        assert(spots@.contains(p) <==> (listed.contains(p) || here));
                        if listed.contains(p) {
                            let (cx, cy) = choose|cx: int, cy: int|
                                (cy < y || (cy == y && cx < x)) && #[trigger] self.beside_column(
                                    grid,
                                    cx,
                                    cy,
                                    p.x as int,
                                    p.y as int,
                                );
                            assert(cy < y || (cy == y && cx < x + 1));
                        }
                        if self.secret_spot_before(grid, x + 1, y as int, p.x as int, p.y as int) {
                            let (cx, cy) = choose|cx: int, cy: int|
                                (cy < y || (cy == y && cx < x + 1))
                                    && #[trigger] self.beside_column(
                                    grid,
                                    cx,
                                    cy,
                                    p.x as int,
                                    p.y as int,
                                );
                            if cx == x && cy == y {
                            } else {
                                assert(cy < y || (cy == y && cx < x));
                            }
                        }
                    }
                }
                x = x + 1;
            }
            proof {
                assert forall|p: Point|
                    spots@.contains(p) <==> self.secret_spot_before(
                        grid,
                        x_start as int,
                        y + 1,
                        p.x as int,
                        p.y as int,
                    ) by {
                    if self.secret_spot_before(grid, x as int, y as int, p.x as int, p.y as int) {
                        let (cx, cy) = choose|cx: int, cy: int|
                            (cy < y || (cy == y && cx < x)) && #[trigger] self.beside_column(
                                grid,
                                cx,
                                cy,
                                p.x as int,
                                p.y as int,
                            );
                        assert(cy < y + 1 || (cy == y + 1 && cx < x_start));
                    }
                    if self.secret_spot_before(grid, x_start as int, y + 1, p.x as int, p.y as int) {
                        let (cx, cy) = choose|cx: int, cy: int|
                            (cy < y + 1 || (cy == y + 1 && cx < x_start))
                                && #[trigger] self.beside_column(
                                grid,
                                cx,
                                cy,
                                p.x as int,
                                p.y as int,
                            );
                        assert(cy < y || (cy == y && cx < x));
                    }
                }
            }
            y = y + 1;
        }
        proof {
            assert forall|p: Point|
                spots@.contains(p) <==> self.secret_spot(grid, p.x as int, p.y as int) by {
                if self.secret_spot(grid, p.x as int, p.y as int) {
                    let (cx, cy) = choose|cx: int, cy: int| #[trigger]
                        self.beside_column(grid, cx, cy, p.x as int, p.y as int);
                    assert(cy < y || (cy == y && cx < x_start));
                }
            }
        }
        spots
    }

    /// Adds the cell to the list if it lies in the interior and holds floor.
    fn push_if_floor(&self, tiles: &GameMapTiles, x: usize, y: usize, spots: &mut Vec<Point>)
        requires
            self.fits(),
        ensures
            forall|p: Point| #[trigger]
                final(spots)@.contains(p) <==> (old(spots)@.contains(p) || (p == (Point { x, y })
                    && self.interior(x as int, y as int) && tile_at(
                    grid_of(tiles@),
                    x as int,
                    y as int,
                ) is Floor)),
    {
        if self.width >= 3 && self.height >= 3 {
            let x_start: usize = self.location.x + 1;
            let x_end: usize = self.location.x + self.width - 1;
            let y_start: usize = self.location.y + 1;
            let y_end: usize = self.location.y + self.height - 1;
            let ghost listed = spots@;
            if x >= x_start && x < x_end && y >= y_start && y < y_end {
                if let Tile::Floor { .. } = tile_or_empty(tiles, Point { x, y }) {
                    spots.push(Point { x, y });
                    proof {
                        assert forall|p: Point| #[trigger]
                            spots@.contains(p) <==> (listed.contains(p) || p == (Point { x, y })) by {
                            vstd::seq_lib::lemma_seq_contains_after_push(listed, Point { x, y }, p);
                        }
                    }
                }
            }
        }
    }

    /// The cell is floor in the interior of the room.
    pub open spec fn floor_inside(self, grid: Grid, x: int, y: int) -> bool {
        self.interior(x, y) && tile_at(grid, x, y) is Floor
    }

    /// The interior of the room has floor.
    pub open spec fn has_floor_inside(self, grid: Grid) -> bool {
        exists|x: int, y: int| #[trigger] self.floor_inside(grid, x, y)
    }

    /// A secret was hidden in the room: on a floor cell of the interior, one
    /// beside a column if the room has such a place, and with a rarity that
    /// befits the kind of room.
    pub open spec fn secret_hidden(
        self,
        before: Grid,
        after: Grid,
        is_secret_room: bool,
    ) -> bool {
        exists|x: int, y: int, rarity: u32|
            #![trigger with_tile(before, x, y, fresh_secret(rarity))]
            {
                &&& after == with_tile(before, x, y, fresh_secret(rarity))
                &&& self.floor_inside(before, x, y)
                &&& secret_rarity(is_secret_room, rarity)
                &&& self.has_secret_spot(before) ==> self.secret_spot(before, x, y)
            }
    }

    /// Lists the floor cells of the interior, row by row and each cell once.
    pub fn floor_spots(&self, tiles: &GameMapTiles) -> (spots: Vec<Point>)
        requires
            self.fits(),
        ensures
            forall|p: Point|
                spots@.contains(p) <==> self.floor_inside(grid_of(tiles@), p.x as int, p.y as int),
    {
        let ghost grid = grid_of(tiles@);
        let mut spots: Vec<Point> = Vec::new();
        if self.width < 3 || self.height < 3 {
            return spots;
        }
        let x_start: usize = self.location.x + 1;
        let x_end: usize = self.location.x + self.width - 1;
        let y_start: usize = self.location.y + 1;
        let y_end: usize = self.location.y + self.height - 1;
        let mut y: usize = y_start;
        while y < y_end
            invariant
                grid == grid_of(tiles@),
                self.fits(),
                self.has_interior(),
                x_start == self.left() + 1,
                x_end == self.right() - 1,
                y_start == self.top() + 1,
                y_end == self.bottom() - 1,
                y_start <= y,
                forall|p: Point|
                    spots@.contains(p) <==> p.y < y && self.floor_inside(
                        grid,
                        p.x as int,
                        p.y as int,
                    ),
            decreases y_end - y,
        {
            let mut x: usize = x_start;
            while x < x_end
                invariant
                    grid == grid_of(tiles@),
                    self.fits(),
                    self.has_interior(),
                    x_start == self.left() + 1,
                    x_end == self.right() - 1,
                    y_start == self.top() + 1,
                    y_end == self.bottom() - 1,
                    y_start <= y < y_end,
                    x_start <= x,
                    forall|p: Point|
                        spots@.contains(p) <==> (p.y < y || (p.y == y && p.x < x))
                            && self.floor_inside(grid, p.x as int, p.y as int),
                decreases x_end - x,
            {
                let ghost listed = spots@;
                self.push_if_floor(tiles, x, y, &mut spots);
                proof {
                    assert forall|p: Point|
                        spots@.contains(p) <==> (p.y < y || (p.y == y && p.x < x + 1))
                            && self.floor_inside(grid, p.x as int, p.y as int) by {
                        if p.x == x && p.y == y {
                            assert(p == (Point { x, y }));
                        }
                    }
                }
                x = x + 1;
            }
            y = y + 1;
        }
        spots
    }

    /// Hides a secret in the room: on a floor cell beside a column if the
    /// room has such a place, on any floor cell of the interior otherwise. In
    /// a secret room the secret is of rarity 100, now and then 1000;
    /// elsewhere of 1, 10 or 100. A room without floor in its interior gets
    /// none.
    pub fn place_secret(&self, tiles: &mut GameMapTiles, is_secret_room: bool)
        requires
            self.fits(),
        ensures
            self.has_floor_inside(grid_of(old(tiles)@)) ==> self.secret_hidden(
                grid_of(old(tiles)@),
                grid_of(final(tiles)@),
                is_secret_room,
            ),
            !self.has_floor_inside(grid_of(old(tiles)@)) ==> grid_of(final(tiles)@) == grid_of(
                old(tiles)@,
            ),
    {
        let ghost start = grid_of(tiles@);
        let potential_positions: Vec<Point> = self.secret_spots(tiles);
        let rarity: u32 = if is_secret_room {
            if chance(9, 10) {
                100
            } else {
                1000
            }
        } else {
            let rarity_values: Vec<u32> = vec![1, 10, 100];
            proof {
                assert forall|value: u32| rarity_values@.contains(value) implies value == 1
                    || value == 10 || value == 100 by {
                    let i = choose|i: int| 0 <= i < rarity_values@.len() && rarity_values@[i]
                        == value;
                    assert(rarity_values@[i] == value);
                }
            }
            match pick(&rarity_values) {
                Some(value) => value,
                None => 1,
            }
        };
        assert(secret_rarity(is_secret_room, rarity));
        let secret: Tile = Tile::Secret { visible: false, rarity };
        let chosen: Option<Point> = match pick(&potential_positions) {
            Some(spot) => {
                proof {
                    assert(potential_positions@.contains(spot));
                    assert(self.secret_spot(start, spot.x as int, spot.y as int));
                    let (cx, cy) = choose|cx: int, cy: int| #[trigger]
                        self.beside_column(start, cx, cy, spot.x as int, spot.y as int);
                    assert(self.floor_inside(start, spot.x as int, spot.y as int));
                }
                Some(spot)
            },
            None => {
                proof {
                    assert(!self.has_secret_spot(start)) by {
                        if self.has_secret_spot(start) {
                            let (x, y) = choose|x: int, y: int| #[trigger]
                                self.secret_spot(start, x, y);
                            let (cx, cy) = choose|cx: int, cy: int| #[trigger]
                                self.beside_column(start, cx, cy, x, y);
                            let p = cell(x, y);
                            assert(p.x == x && p.y == y);
                            assert(self.secret_spot(start, p.x as int, p.y as int));
                            assert(potential_positions@.contains(p));
                        }
                    }
                }
                let floor: Vec<Point> = self.floor_spots(tiles);
                let spot: Option<Point> = pick(&floor);
                proof {
                    match spot {
                        Some(p) => {
                            assert(floor@.contains(p));
                        },
                        None => {
                            if self.has_floor_inside(start) {
                                let (x, y) = choose|x: int, y: int| #[trigger]
                                    self.floor_inside(start, x, y);
                                let p = cell(x, y);
                                assert(p.x == x && p.y == y);
                                assert(floor@.contains(p));
                            }
                        },
                    }
                }
                spot
            },
        };
        if let Some(spot) = chosen {
            put_tile(tiles, spot, secret);
            assert(grid_of(tiles@) == with_tile(
                start,
                spot.x as int,
                spot.y as int,
                fresh_secret(rarity),
            ));
            assert(self.floor_inside(start, spot.x as int, spot.y as int));
        }
    }

    /// Sets `mob` on a floor cell of the interior, drawn at random, and says
    /// whether it did: a room without floor in its interior has no place for
    /// it.
    pub fn place_mob(&self, tiles: &mut GameMapTiles, mob: Tile) -> (placed: bool)
        requires
            self.fits(),
        ensures
            placed == self.has_floor_inside(grid_of(old(tiles)@)),
            placed ==> mob_step(grid_of(old(tiles)@), grid_of(final(tiles)@), *self, mob),
            !placed ==> grid_of(final(tiles)@) == grid_of(old(tiles)@),
    {
        let ghost start = grid_of(tiles@);
        let floor: Vec<Point> = self.floor_spots(tiles);
        match pick(&floor) {
            Some(spot) => {
                assert(floor@.contains(spot));
                assert(self.floor_inside(start, spot.x as int, spot.y as int));
                put_tile(tiles, spot, mob);
                assert(self.interior(spot.x as int, spot.y as int) && tile_at(
                    start,
                    spot.x as int,
                    spot.y as int,
                ) is Floor && grid_of(tiles@) == with_tile(
                    start,
                    spot.x as int,
                    spot.y as int,
                    mob,
                ));
                true
            },
            None => {
                proof {
                    if self.has_floor_inside(start) {
                        let (x, y) = choose|x: int, y: int| #[trigger]
                            self.floor_inside(start, x, y);
                        let p = cell(x, y);
                        assert(p.x == x && p.y == y);
                        assert(floor@.contains(p));
                    }
                }
                false
            },
        }
    }

    /// Sets one to three creatures, of kinds drawn at random, on floor cells
    /// of the interior. A creature that finds no floor left is left out.
    pub fn place_mobs(&self, tiles: &mut GameMapTiles)
        requires
            self.fits(),
        ensures
            mob_steps(grid_of(old(tiles)@), grid_of(final(tiles)@), *self, 3),
            self.has_floor_inside(grid_of(old(tiles)@)) ==> grid_of(final(tiles)@) != grid_of(
                old(tiles)@,
            ),
    {
        let ghost start = grid_of(tiles@);
        let ghost mut first: (int, int) = (0, 0);
        let num_mobs: usize = uniform_inclusive(1, 3);
        let mut i: usize = 0;
        while i < num_mobs
            invariant
                self.fits(),
                i <= num_mobs <= 3,
                1 <= num_mobs,
                mob_steps(start, grid_of(tiles@), *self, i as nat),
                i >= 1 && self.has_floor_inside(start) ==> tile_at(start, first.0, first.1)
                    is Floor && !(tile_at(grid_of(tiles@), first.0, first.1) is Floor),
            decreases num_mobs - i,
        {
            let kind: MobType = mob_type_for(uniform_inclusive(0, 2));
            let ghost before = grid_of(tiles@);
            let placed: bool = self.place_mob(tiles, mob_tile(kind));
            proof {
                if placed {
                    let after = grid_of(tiles@);
                    assert(mob_step(before, after, *self, room_mob(kind)));
                    let (x, y) = choose|x: int, y: int|
                        #![trigger with_tile(before, x, y, room_mob(kind))]
                        self.interior(x, y) && tile_at(before, x, y) is Floor && after
                            == with_tile(before, x, y, room_mob(kind));
                    lemma_with_tile(before, x, y, room_mob(kind));
                    if i == 0 {
                        first = (x, y);
                    }
                } else {
                    lemma_mob_steps_more(start, before, *self, i as nat);
                }
            }
            i = i + 1;
        }
        proof {
            if i < 3 {
                lemma_mob_steps_more(start, grid_of(tiles@), *self, i as nat);
                if i < 2 {
                    lemma_mob_steps_more(start, grid_of(tiles@), *self, (i + 1) as nat);
                }
            }
        }
    }

    /// Sets the brute that guards a secret room on a floor cell of the
    /// interior, if there is one.
    pub fn place_brute(&self, tiles: &mut GameMapTiles)
        requires
            self.fits(),
        ensures
            self.has_floor_inside(grid_of(old(tiles)@)) ==> mob_step(
                grid_of(old(tiles)@),
                grid_of(final(tiles)@),
                *self,
                guard_brute(),
            ),
            !self.has_floor_inside(grid_of(old(tiles)@)) ==> grid_of(final(tiles)@) == grid_of(
                old(tiles)@,
            ),
    {
        let placed: bool = self.place_mob(
            tiles,
            Tile::Brute { visible: false, hp: 20, damage: 10, fov: 4 },
        );
    }
}

/// What sets at most `n` creatures sets at most `n + 1`.
pub proof fn lemma_mob_steps_more(before: Grid, after: Grid, room: Room, n: nat)
    requires
        mob_steps(before, after, room, n),
    ensures
        mob_steps(before, after, room, n + 1),
    decreases n,
{
    if before == after {
    } else {
        let (mid, kind) = choose|mid: Grid, kind: MobType|
            #![trigger mob_step(mid, after, room, room_mob(kind))]
            mob_steps(before, mid, room, (n - 1) as nat) && mob_step(
                mid,
                after,
                room,
                room_mob(kind),
            );
        lemma_mob_steps_more(before, mid, room, (n - 1) as nat);
        assert(mob_step(mid, after, room, room_mob(kind)));
    }
}

/// Setting one creature changes one floor cell of the interior.
pub proof fn lemma_mob_step_stocked(before: Grid, after: Grid, room: Room, mob: Tile)
    requires
        mob_step(before, after, room, mob),
        mob.is_mob(),
        generated(mob),
    ensures
        stocked(before, after, room),
{
    let (x, y) = choose|x: int, y: int|
        #![trigger with_tile(before, x, y, mob)]
        room.interior(x, y) && tile_at(before, x, y) is Floor && after == with_tile(
            before,
            x,
            y,
            mob,
        );
    lemma_with_tile(before, x, y, mob);
}

/// Setting creatures changes floor cells of the interior only.
pub proof fn lemma_mob_steps_stocked(before: Grid, after: Grid, room: Room, n: nat)
    requires
        mob_steps(before, after, room, n),
    ensures
        stocked(before, after, room),
    decreases n,
{
    if before == after {
    } else {
        let (mid, kind) = choose|mid: Grid, kind: MobType|
            #![trigger mob_step(mid, after, room, room_mob(kind))]
            mob_steps(before, mid, room, (n - 1) as nat) && mob_step(
                mid,
                after,
                room,
                room_mob(kind),
            );
        lemma_mob_steps_stocked(before, mid, room, (n - 1) as nat);
        lemma_mob_step_stocked(mid, after, room, room_mob(kind));
        assert forall|x: int, y: int|
            #![trigger tile_at(after, x, y)]
            tile_at(after, x, y) == tile_at(before, x, y) || (room.interior(x, y) && in_grid(
                before,
                x,
                y,
            ) && tile_at(before, x, y) is Floor && tile_at(after, x, y).is_mob() && generated(
                tile_at(after, x, y),
            )) by {
            let t = tile_at(mid, x, y);
            if 0 <= y < before.len() {
                assert(before[y].len() == mid[y].len());
            }
        }
    }
}

/// Hiding a secret changes nothing outside the interior.
pub proof fn lemma_secret_inside(room: Room, before: Grid, after: Grid, is_secret_room: bool)
    requires
        after == before || room.secret_hidden(before, after, is_secret_room),
    ensures
        kept_outside(before, after, room),
{
    if after != before {
        let (x, y, rarity) = choose|x: int, y: int, rarity: u32|
            #![trigger with_tile(before, x, y, fresh_secret(rarity))]
            {
                &&& after == with_tile(before, x, y, fresh_secret(rarity))
                &&& room.floor_inside(before, x, y)
                &&& secret_rarity(is_secret_room, rarity)
                &&& room.has_secret_spot(before) ==> room.secret_spot(before, x, y)
            };
        lemma_with_tile(before, x, y, fresh_secret(rarity));
    }
}

/// Hiding a secret changes one cell of the interior.
pub proof fn lemma_secret_furnished(room: Room, before: Grid, after: Grid, is_secret_room: bool)
    requires
        after == before || room.secret_hidden(before, after, is_secret_room),
    ensures
        furnished(before, after, room),
{
    if after != before {
        let (x, y, rarity) = choose|x: int, y: int, rarity: u32|
            #![trigger with_tile(before, x, y, fresh_secret(rarity))]
            {
                &&& after == with_tile(before, x, y, fresh_secret(rarity))
                &&& room.floor_inside(before, x, y)
                &&& secret_rarity(is_secret_room, rarity)
                &&& room.has_secret_spot(before) ==> room.secret_spot(before, x, y)
            };
        lemma_with_tile(before, x, y, fresh_secret(rarity));
    }
}

/// The kind of creature that a roll of the three-sided die stands for.
pub fn mob_type_for(roll: usize) -> (kind: MobType)
    ensures
        kind == if roll == 0 {
            MobType::Wither
        } else if roll == 1 {
            MobType::Bat
        } else {
            MobType::Brute
        },
{
    if roll == 0 {
        MobType::Wither
    } else if roll == 1 {
        MobType::Bat
    } else {
        MobType::Brute
    }
}

/// The creature of the given kind with the values it has in a room.
pub fn mob_tile(kind: MobType) -> (tile: Tile)
    ensures
        tile == room_mob(kind),
{
    match kind {
        MobType::Wither => Tile::Wither { visible: false, hp: 50, damage: 10, fov: 6 },
        MobType::Bat => Tile::Bat { visible: false, hp: 20, damage: 5, fov: 8 },
        MobType::Brute => Tile::Brute { visible: false, hp: 80, damage: 15, fov: 4 },
    }
}

} // verus!
