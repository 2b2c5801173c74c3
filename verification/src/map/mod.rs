//! The map: a grid of tiles together with the set of cells that the last
//! field-of-view computation found visible.

pub mod curse;
pub mod fov;
pub mod grid;
pub mod sight;
pub mod types;

use crate::map::curse::{after_curses, apply_curses, comes_before};
use crate::map::fov::{
    cells_in_reach, field_of_view, lemma_shown_in, lemma_shown_in_reach, relit, set_visibility,
    shown_in,
};
use crate::map::grid::{
    columns, grid_of, in_grid, put_tile, rows, tile_at, tile_or_empty, with_tile, Grid,
};
use crate::map::sight::{lemma_sees_itself, line, line_of_sight, sees, Line};
use crate::map::types::{GameMapTiles, Point};
use crate::tile::{rarity_of, Tile};
use vstd::prelude::*;

verus! {

/// A grid of tiles and the cells of it that are in view.
pub struct GameMap {
    tiles: GameMapTiles,
    /// The cells that the last field-of-view computation found, each once.
    visible_tiles: Vec<Point>,
}

/// The first player tile of the grid in reading order stands at `(x, y)`.
pub open spec fn first_player_at(grid: Grid, x: int, y: int) -> bool {
    &&& in_grid(grid, x, y)
    &&& grid[y][x] is Player
    &&& forall|i: int, j: int|
        in_grid(grid, i, j) && comes_before(i, j, x, y) ==> !(#[trigger] tile_at(grid, i, j)
            is Player)
}

/// The obelisk at `(x, y)` curses and has a line of sight to `pov` under
/// the obelisk's rule.
pub open spec fn obelisk_sees(grid: Grid, x: int, y: int, pov: Point) -> bool {
    &&& in_grid(grid, x, y)
    &&& tile_at(grid, x, y) matches Tile::Obelisk { curse, .. } && curse
    &&& sees(
        grid,
        Line { x0: x, y0: y, x1: pov.x as int, y1: pov.y as int },
        true,
        false,
    )
}

/// The first obelisk of the grid in reading order that curses and sees `pov`
/// stands at `(x, y)`.
pub open spec fn first_obelisk_seeing(grid: Grid, x: int, y: int, pov: Point) -> bool {
    &&& obelisk_sees(grid, x, y, pov)
    &&& forall|i: int, j: int| comes_before(i, j, x, y) ==> !#[trigger] obelisk_sees(grid, i, j, pov)
}

/// The tile is a reading of the character: the tile that the character
/// stands for, with one of the four rarities if it is a secret.
pub open spec fn tile_reads_as(c: char, tile: Tile) -> bool {
    exists|magnitude: nat|
        magnitude <= 3 && tile == #[trigger] Tile::parse(c, rarity_of(magnitude))
}

/// The row of tiles is a reading of the line, character by character.
pub open spec fn row_reads_as(line: Seq<char>, row: Seq<Tile>) -> bool {
    &&& row.len() == line.len()
    &&& forall|x: int| 0 <= x < line.len() ==> tile_reads_as(line[x], #[trigger] row[x])
}

/// The grid is a reading of the lines of a map text, line by line.
pub open spec fn reads_as(lines: Seq<String>, grid: Grid) -> bool {
    &&& grid.len() == lines.len()
    &&& forall|y: int| 0 <= y < lines.len() ==> row_reads_as(lines[y]@, #[trigger] grid[y])
}

/// The obelisk that curses an observer at `pov`: the tile of the first
/// obelisk in reading order that curses and has a line of sight to `pov`, if
/// there is one. It need not be the nearest.
pub open spec fn cursing_obelisk(grid: Grid, pov: Point) -> Option<Tile> {
    if exists|x: int, y: int| first_obelisk_seeing(grid, x, y, pov) {
        let (x, y) = choose|x: int, y: int| first_obelisk_seeing(grid, x, y, pov);
        Some(tile_at(grid, x, y))
    } else {
        None
    }
}

/// The first obelisk that curses and sees `pov` is the one at `(x, y)`.
pub proof fn lemma_cursing_obelisk(grid: Grid, x: int, y: int, pov: Point)
    requires
        first_obelisk_seeing(grid, x, y, pov),
    ensures
        cursing_obelisk(grid, pov) == Some(tile_at(grid, x, y)),
{
    let (cx, cy) = choose|cx: int, cy: int| first_obelisk_seeing(grid, cx, cy, pov);
    if cx != x || cy != y {
        if comes_before(cx, cy, x, y) {
            assert(!obelisk_sees(grid, cx, cy, pov));
        } else {
            assert(comes_before(x, y, cx, cy));
            assert(!obelisk_sees(grid, x, y, pov));
        }
    }
}

impl GameMap {
    /// No cell is listed twice among the cells in view.
    pub closed spec fn wf(&self) -> bool {
        self.visible_tiles@.no_duplicates()
    }

    /// The grid of the map.
    pub closed spec fn grid(&self) -> Grid {
        grid_of(self.tiles@)
    }

    /// The cells that the map holds to be in view.
    pub closed spec fn visible(&self) -> Set<Point> {
        self.visible_tiles@.to_set()
    }

    /// The tile of the map at `position`; `Empty` outside the grid.
    pub open spec fn tile(&self, position: Point) -> Tile {
        tile_at(self.grid(), position.x as int, position.y as int)
    }

    /// The position of the first player tile in reading order, if the map
    /// shows the player.
    pub open spec fn first_player(&self) -> Option<Point> {
        if exists|x: int, y: int| first_player_at(self.grid(), x, y) {
            let (x, y) = choose|x: int, y: int| first_player_at(self.grid(), x, y);
            Some(Point { x: x as usize, y: y as usize })
        } else {
            None
        }
    }

    /// The observer at `pov` is a player who carries the curse.
    pub open spec fn cursed_observer(&self, pov: Point) -> bool {
        self.tile(pov) matches Tile::Player { is_cursed, .. } && is_cursed
    }

    /// Reads a map from the lines of a map text, one row of tiles from each
    /// line and one tile from each character. Nothing is in view.
    ///
    /// Every character has one reading but the secret, whose rarity is drawn
    /// at random for each secret.
    pub fn load(lines: &Vec<String>) -> (map: GameMap)
        ensures
            map.wf(),
            map.visible() == Set::<Point>::empty(),
            reads_as(lines@, map.grid()),
    {
        let mut tiles: GameMapTiles = Vec::new();
        let mut y: usize = 0;
        while y < lines.len()
            invariant
                y <= lines.len(),
                tiles@.len() == y,
                forall|j: int| 0 <= j < y ==> row_reads_as((#[trigger] lines@[j])@, tiles@[j]@),
            decreases lines.len() - y,
        {
            let line: &str = lines[y].as_str();
            let mut row: Vec<Tile> = Vec::new();
            for c in chars: line.chars()
                invariant
                    row@.len() == chars.index(),
                    chars.seq() == line@,
                    forall|i: int| 0 <= i < row@.len() ==> tile_reads_as(line@[i], #[trigger] row@[i]),
            {
                let tile: Tile = Tile::from_char(c);
                row.push(tile);
            }
            tiles.push(row);
            y = y + 1;
        }
        let map = GameMap { tiles, visible_tiles: Vec::new() };
        assert(map.visible_tiles@.to_set() =~= Set::<Point>::empty());
        map
    }

    /// A map of the given tiles, with nothing in view.
    pub fn from_tiles(tiles: GameMapTiles) -> (map: GameMap)
        ensures
            map.wf(),
            map.grid() == grid_of(tiles@),
            map.visible() == Set::<Point>::empty(),
    {
        let map = GameMap { tiles, visible_tiles: Vec::new() };
        assert(map.visible_tiles@.to_set() =~= Set::<Point>::empty());
        map
    }

    /// The length of the first row; zero for a map without rows.
    pub fn width(&self) -> (width: usize)
        ensures
            width == columns(self.grid()),
    {
        if self.tiles.len() == 0 {
            0
        } else {
            self.tiles[0].len()
        }
    }

    pub fn height(&self) -> (height: usize)
        ensures
            height == rows(self.grid()),
    {
        self.tiles.len()
    }

    pub fn get_tiles(&self) -> (tiles: &GameMapTiles)
        ensures
            grid_of(tiles@) == self.grid(),
    {
        &self.tiles
    }

    /// The cells in view, in the order in which they were found.
    pub fn get_visible_tiles(&self) -> (cells: &Vec<Point>)
        ensures
            cells@.to_set() == self.visible(),
            self.wf() ==> cells@.no_duplicates(),
    {
        &self.visible_tiles
    }

    pub fn get_tile(&self, position: Point) -> (tile: Tile)
        ensures
            tile == self.tile(position),
    {
        tile_or_empty(&self.tiles, position)
    }

    pub fn set_tile(&mut self, position: Point, tile: Tile)
        ensures
            final(self).grid() == with_tile(
                old(self).grid(),
                position.x as int,
                position.y as int,
                tile,
            ),
            final(self).visible() == old(self).visible(),
            old(self).wf() ==> final(self).wf(),
    {
        put_tile(&mut self.tiles, position, tile);
    }

    pub fn is_walkable(&self, position: Point) -> (walkable: bool)
        ensures
            walkable == self.tile(position).walkable(),
    {
        self.get_tile(position).is_walkable()
    }

    pub fn is_deadly(&self, point: Point) -> (deadly: bool)
        ensures
            deadly == (self.tile(point) is Pit),
    {
        matches!(self.get_tile(point), Tile::Pit { .. })
    }

    /// The position of the player: the first player tile in reading order.
    pub fn find_player(&self) -> (found: Option<Point>)
        ensures
            found == self.first_player(),
            match found {
                Some(p) => first_player_at(self.grid(), p.x as int, p.y as int),
                None => forall|x: int, y: int|
                    in_grid(self.grid(), x, y) ==> !(#[trigger] tile_at(self.grid(), x, y)
                        is Player),
            },
    {
        let ghost grid = self.grid();
        let mut y: usize = 0;
        while y < self.tiles.len()
            invariant
                grid == grid_of(self.tiles@),
                forall|i: int, j: int|
                    in_grid(grid, i, j) && j < y ==> !(#[trigger] tile_at(grid, i, j) is Player),
            decreases self.tiles.len() - y,
        {
            let mut x: usize = 0;
            while x < self.tiles[y].len()
                invariant
                    y < self.tiles.len(),
                    grid == grid_of(self.tiles@),
                    forall|i: int, j: int|
                        in_grid(grid, i, j) && (j < y || (j == y && i < x)) ==> !(
                        #[trigger] tile_at(grid, i, j) is Player),
                decreases self.tiles[y as int].len() - x,
            {
                if let Tile::Player { .. } = self.tiles[y][x] {
                    proof {
                        assert(tile_at(grid, x as int, y as int) is Player);
                        assert(first_player_at(grid, x as int, y as int));
                        let (cx, cy) = choose|cx: int, cy: int| first_player_at(grid, cx, cy);
                        if cx != x || cy != y {
                            if comes_before(cx, cy, x as int, y as int) {
                                assert(!(tile_at(grid, cx, cy) is Player));
                            } else {
                                assert(comes_before(x as int, y as int, cx, cy));
                                assert(!(tile_at(grid, x as int, y as int) is Player));
                            }
                        }
                    }
                    return Some(Point { x, y });
                }
                x = x + 1;
            }
            y = y + 1;
        }
        proof {
            assert forall|x: int, y: int| !first_player_at(grid, x, y) by {
                if in_grid(grid, x, y) {
                    assert(!(tile_at(grid, x, y) is Player));
                }
            }
        }
        None
    }

    pub fn is_interactable(&self, point: Point) -> (interactable: bool)
        ensures
            interactable == (self.tile(point) is Door || (self.tile(point) matches Tile::Secret {
                visible,
                ..
            } && visible)),
    {
        matches!(self.get_tile(point), Tile::Door { .. } | Tile::Secret { visible: true, .. })
    }

    /// Opens a closed door and closes an open one; anything else is left
    /// alone.
    pub fn interact_tile(&mut self, point: Point)
        ensures
            final(self).visible() == old(self).visible(),
            old(self).wf() ==> final(self).wf(),
            final(self).grid() == match old(self).tile(point) {
                Tile::Door { open, visible } => with_tile(
                    old(self).grid(),
                    point.x as int,
                    point.y as int,
                    Tile::Door { open: !open, visible },
                ),
                _ => old(self).grid(),
            },
    {
        if let Tile::Door { open, visible } = self.get_tile(point) {
            put_tile(&mut self.tiles, point, Tile::Door { open: !open, visible });
        }
    }

    /// Takes every cell out of view.
    pub fn clear_visible_tiles(&mut self)
        ensures
            final(self).wf(),
            final(self).visible() == Set::<Point>::empty(),
            final(self).grid() == shown_in(old(self).grid(), old(self).visible(), false),
    {
        set_visibility(&mut self.tiles, &self.visible_tiles, false);
        self.visible_tiles.clear();
        assert(self.visible_tiles@.to_set() =~= Set::<Point>::empty());
    }

    /// Computes the field of view of an observer at `pov` afresh.
    ///
    /// The cells that were in view lose their `visible` flag. Then every cell
    /// of the grid within `fov_radius` of `pov` that the observer has a line
    /// of sight to comes into view and gains the flag. The observer looks
    /// with the rule of a cursed player if the tile at `pov` is a cursed
    /// player, and with the common rule otherwise.
    pub fn update_fov(&mut self, pov: Point, fov_radius: u32)
        ensures
            final(self).wf(),
            final(self).visible() == field_of_view(
                old(self).grid(),
                pov,
                fov_radius,
                old(self).cursed_observer(pov),
            ),
            final(self).grid() == relit(old(self).grid(), old(self).visible(), final(self).visible()),
            in_grid(old(self).grid(), pov.x as int, pov.y as int) ==> final(self).visible().contains(
                pov,
            ),
    {
        proof {
            lemma_sees_itself(
                old(self).grid(),
                pov.x as int,
                pov.y as int,
                false,
                old(self).cursed_observer(pov),
            );
        }
        self.clear_visible_tiles();
        let is_player_cursed: bool = matches!(
            self.get_tile(pov),
            Tile::Player { is_cursed: true, .. }
        );
        proof {
            lemma_shown_in(old(self).grid(), old(self).visible(), false);
            lemma_shown_in_reach(
                old(self).grid(),
                old(self).visible(),
                false,
                pov,
                fov_radius,
                false,
                is_player_cursed,
            );
        }
        let cells: Vec<Point> = cells_in_reach(&self.tiles, pov, fov_radius, false, is_player_cursed);
        set_visibility(&mut self.tiles, &cells, true);
        self.visible_tiles = cells;
    }

    /// Whether `(x1, y1)` can be seen from `(x0, y0)` under the rule that the
    /// two flags select.
    pub fn has_line_of_sight(
        &self,
        x0: usize,
        y0: usize,
        x1: usize,
        y1: usize,
        by_obelisk: bool,
        is_player_cursed: bool,
    ) -> (visible: bool)
        ensures
            visible == sees(
                self.grid(),
                line(Point { x: x0, y: y0 }, Point { x: x1, y: y1 }),
                by_obelisk,
                is_player_cursed,
            ),
    {
        line_of_sight(&self.tiles, x0, y0, x1, y1, by_obelisk, is_player_cursed)
    }

    /// Whether the tile at `point` stops a line of sight.
    pub fn is_opaque(&self, point: Point, by_obelisk: bool, is_player_cursed: bool) -> (opaque: bool)
        ensures
            opaque == self.tile(point).blocks_sight(by_obelisk, is_player_cursed),
    {
        self.get_tile(point).is_opaque(by_obelisk, is_player_cursed)
    }

    /// Sets the `visible` flag of the tile at `point`, if it has one.
    pub fn update_tile_visibility(&mut self, point: Point, visible: bool)
        ensures
            final(self).visible() == old(self).visible(),
            old(self).wf() ==> final(self).wf(),
            final(self).grid() == with_tile(
                old(self).grid(),
                point.x as int,
                point.y as int,
                old(self).tile(point).shown_as(visible),
            ),
    {
        let tile: Tile = self.get_tile(point).with_visibility(visible);
        put_tile(&mut self.tiles, point, tile);
    }

    /// The curses of one turn: clears the curse from every floor and from the
    /// player, then curses the floor and the player wherever a cursing
    /// obelisk reaches them.
    pub fn apply_obelisk_curses(&mut self)
        ensures
            final(self).grid() == after_curses(old(self).grid()),
            final(self).visible() == old(self).visible(),
            old(self).wf() ==> final(self).wf(),
    {
        apply_curses(&mut self.tiles);
    }

    /// The obelisk that curses an observer at `pov`: the first obelisk in
    /// reading order that curses and has a line of sight to `pov`. How far
    /// away it stands is not taken into account.
    pub fn get_obelisk_cursing_tile(&self, pov: Point) -> (found: Option<Tile>)
        ensures
            found == cursing_obelisk(self.grid(), pov),
    {
        let ghost grid = self.grid();
        let mut y: usize = 0;
        while y < self.tiles.len()
            invariant
                grid == grid_of(self.tiles@),
                forall|i: int, j: int| j < y ==> !#[trigger] obelisk_sees(grid, i, j, pov),
            decreases self.tiles.len() - y,
        {
            let mut x: usize = 0;
            while x < self.tiles[y].len()
                invariant
                    y < self.tiles.len(),
                    grid == grid_of(self.tiles@),
                    forall|i: int, j: int|
                        (j < y || (j == y && i < x)) ==> !#[trigger] obelisk_sees(grid, i, j, pov),
                decreases self.tiles[y as int].len() - x,
            {
                let tile: Tile = self.tiles[y][x];
                if let Tile::Obelisk { curse: true, .. } = tile {
                    if line_of_sight(&self.tiles, x, y, pov.x, pov.y, true, false) {
                        proof {
                            assert(first_obelisk_seeing(grid, x as int, y as int, pov));
                            lemma_cursing_obelisk(grid, x as int, y as int, pov);
                        }
                        return Some(tile);
                    }
                }
                x = x + 1;
            }
            y = y + 1;
        }
        None
    }
}

} // verus!
