//! The dungeon generator: cuts the grid into a partition, gives the leaves
//! rooms, builds the rooms, joins them with corridors and hangs doors.

use crate::generator::bsp::{
    apart, collect_rooms_in_node, lemma_most_leaves_grows, most_leaves, same_place, split_node,
    BSPNode, MAX_DEPTH, PADDING,
};
use crate::generator::corridor::{connect_rooms_bsp, joined, keeps_passages, lemma_carved_shape};
use crate::generator::room::{
    doors_added, fresh_door, furnished, generated, lemma_entrance_before_doors, refreshed, Room,
};
use crate::map::grid::{
    columns, fill_block, filled, grid_of, in_grid, lemma_grid_ext, rectangular, rows, same_shape,
    tile_at, Grid,
};
use crate::map::types::{Coordinate, GameMapTiles, GameTileRow};
use crate::tile::Tile;
use vstd::prelude::*;

verus! {

/// A generator of dungeons of a fixed width and height.
pub struct MapGenerator {
    width: Coordinate,
    height: Coordinate,
    tiles: GameMapTiles,
    rooms: Vec<Room>,
    /// The partition that the last dungeon was laid out by.
    bsp_root: Option<BSPNode>,
}

/// The grid has `height` rows of `width` cells each.
pub open spec fn measures(grid: Grid, width: int, height: int) -> bool {
    &&& grid.len() == height
    &&& forall|y: int| 0 <= y < grid.len() ==> (#[trigger] grid[y]).len() == width
}

/// Every tile of the grid is empty or one that the generator lays.
pub open spec fn all_generated(grid: Grid) -> bool {
    forall|x: int, y: int|
        #![trigger tile_at(grid, x, y)]
        in_grid(grid, x, y) ==> tile_at(grid, x, y) is Empty || generated(tile_at(grid, x, y))
}

/// The room lies in a grid of the given width and height with the padding
/// to spare on every side.
pub open spec fn room_inside(room: Room, width: int, height: int) -> bool {
    &&& PADDING <= room.left()
    &&& room.right() + PADDING <= width
    &&& PADDING <= room.top()
    &&& room.bottom() + PADDING <= height
}

/// The rooms are laid out in a grid of the given width and height: each lies
/// inside with the padding to spare, and any two lie apart.
pub open spec fn laid_out(rooms: Seq<Room>, width: int, height: int) -> bool {
    &&& forall|i: int| 0 <= i < rooms.len() ==> room_inside(#[trigger] rooms[i], width, height)
    &&& forall|i: int, j: int|
        0 <= i < rooms.len() && 0 <= j < rooms.len() && i != j ==> apart(
            #[trigger] rooms[i],
            #[trigger] rooms[j],
        )
}

/// A path joins the middle of the first room with the middle of every room.
pub open spec fn all_joined(grid: Grid, rooms: Seq<Room>) -> bool {
    forall|i: int|
        0 <= i < rooms.len() ==> joined(grid, rooms[0].middle(), (#[trigger] rooms[i]).middle())
}

/// Every room is between `min` and `max` cells wide and high.
pub open spec fn all_sized(rooms: Seq<Room>, min: int, max: int) -> bool {
    forall|i: int|
        0 <= i < rooms.len() ==> min <= (#[trigger] rooms[i]).width <= max && min
            <= rooms[i].height <= max
}

/// The two lists hold rooms of the same places and sizes.
pub open spec fn same_places(a: Seq<Room>, b: Seq<Room>) -> bool {
    &&& a.len() == b.len()
    &&& forall|i: int| 0 <= i < a.len() ==> same_place(#[trigger] a[i], b[i])
}

/// The dungeon follows the partition `tree`.
///
/// The partition covers the whole grid; every one of its cuts leaves at
/// least `min_room_size` on both sides, and it is at most `MAX_DEPTH` cuts
/// deep. Every leaf that can hold a room of the asked size holds one, with
/// the padding to spare, and no other node holds any; these are the rooms of
/// the dungeon, in the order of the leaves. And wherever a node has two
/// halves that both hold rooms, a path of floor and doors joins the middle
/// of the first room of the one half with the middle of the first room of
/// the other.
pub open spec fn follows(
    tree: BSPNode,
    width: int,
    height: int,
    min_room_size: int,
    max_room_size: int,
    rooms: Seq<Room>,
    grid: Grid,
) -> bool {
    &&& tree.x == 0 && tree.y == 0 && tree.width == width && tree.height == height
    &&& tree.partitioned()
    &&& tree.cut_with_room(min_room_size)
    &&& tree.levels() <= MAX_DEPTH + 1
    &&& tree.housed()
    &&& same_places(rooms, tree.rooms())
    &&& rooms.len() == tree.housing(min_room_size, max_room_size)
    &&& tree.linked(grid)
}

/// Every room is built on the grid.
pub open spec fn all_built(grid: Grid, rooms: Seq<Room>) -> bool {
    forall|i: int| 0 <= i < rooms.len() ==> (#[trigger] rooms[i]).built(grid)
}

/// Every room stands whole on the grid.
pub open spec fn all_stand(grid: Grid, rooms: Seq<Room>) -> bool {
    forall|i: int| 0 <= i < rooms.len() ==> (#[trigger] rooms[i]).stands(grid)
}

/// Every room is at least `size` cells wide and high.
pub open spec fn all_at_least(rooms: Seq<Room>, size: int) -> bool {
    forall|i: int|
        0 <= i < rooms.len() ==> (#[trigger] rooms[i]).width >= size && rooms[i].height >= size
}

/// No two rooms share a cell of their footprints.
pub open spec fn all_clear(rooms: Seq<Room>) -> bool {
    forall|i: int, j: int|
        0 <= i < rooms.len() && 0 <= j < rooms.len() && i != j ==> (#[trigger] rooms[i]).clear_of(
            #[trigger] rooms[j],
        )
}

/// The cell lies in the footprint of one of the first `upto` rooms.
pub open spec fn covered_among(rooms: Seq<Room>, upto: int, x: int, y: int) -> bool {
    exists|i: int| 0 <= i < upto && i < rooms.len() && (#[trigger] rooms[i]).covers(x, y)
}

/// The grid after the first `upto` rooms were built on it: every cell either
/// keeps its tile, or lies in the footprint of one of those rooms and holds a
/// tile that the generator lays.
pub open spec fn built_over(before: Grid, after: Grid, rooms: Seq<Room>, upto: int) -> bool {
    &&& same_shape(before, after)
    &&& forall|x: int, y: int|
        #![trigger tile_at(after, x, y)]
        tile_at(after, x, y) == tile_at(before, x, y) || (covered_among(rooms, upto, x, y)
            && generated(tile_at(after, x, y)))
}

/// The cell is an entrance of one of the rooms.
pub open spec fn entrance_among(rooms: Seq<Room>, grid: Grid, x: int, y: int) -> bool {
    exists|i: int|
        0 <= i < rooms.len() && (#[trigger] rooms[i]).entrance(grid, x, y) && rooms[i].on_edge(
            x,
            y,
        )
}

/// The grid after doors were hung in the rooms: every cell either keeps its
/// tile, or was floor in an entrance of one of the rooms and holds a closed
/// door.
pub open spec fn doors_hung_in(before: Grid, after: Grid, rooms: Seq<Room>) -> bool {
    &&& same_shape(before, after)
    &&& forall|x: int, y: int|
        #![trigger tile_at(after, x, y)]
        tile_at(after, x, y) == tile_at(before, x, y) || (tile_at(before, x, y) is Floor
            && tile_at(after, x, y) == fresh_door() && entrance_among(rooms, before, x, y))
}

/// The text of a row of tiles: the characters that draw the tiles, between
/// two bars if the dungeon is drawn with a border.
pub open spec fn row_text(row: Seq<Tile>, with_border: bool) -> Seq<char> {
    let glyphs = Seq::new(row.len(), |x: int| row[x].glyph());
    if with_border {
        seq!['|'] + glyphs + seq!['|']
    } else {
        glyphs
    }
}

/// A line of `n` dashes.
pub open spec fn dashes(n: nat) -> Seq<char> {
    Seq::new(n, |i: int| '-')
}

/// The text of a dungeon: the text of each row, between two lines of dashes
/// if the dungeon is drawn with a border.
pub open spec fn dungeon_text(grid: Grid, width: nat, with_border: bool) -> Seq<Seq<char>> {
    let body = Seq::new(grid.len(), |y: int| row_text(grid[y], with_border));
    if with_border {
        seq![dashes(width)] + body + seq![dashes(width)]
    } else {
        body
    }
}

/// The lines that a list of lines of characters holds.
pub open spec fn text_of(lines: Seq<Vec<char>>) -> Seq<Seq<char>> {
    Seq::new(lines.len(), |i: int| lines[i]@)
}

/// A line of `n` dashes.
pub fn dash_line(n: usize) -> (line: Vec<char>)
    ensures
        line@ == dashes(n as nat),
{
    let mut line: Vec<char> = Vec::new();
    let mut i: usize = 0;
    while i < n
        invariant
            i <= n,
            line@.len() == i,
            forall|k: int| 0 <= k < i ==> #[trigger] line@[k] == '-',
        decreases n - i,
    {
        line.push('-');
        i = i + 1;
    }
    assert(line@ =~= dashes(n as nat));
    line
}

/// The text of a row of tiles.
pub fn row_line(row: &Vec<Tile>, with_border: bool) -> (line: Vec<char>)
    ensures
        line@ == row_text(row@, with_border),
{
    let mut line: Vec<char> = Vec::new();
    if with_border {
        line.push('|');
    }
    let ghost lead = line@;
    let mut x: usize = 0;
    while x < row.len()
        invariant
            x <= row.len(),
            lead == if with_border {
                seq!['|']
            } else {
                Seq::<char>::empty()
            },
            line@ == lead + Seq::new(x as nat, |i: int| row@[i].glyph()),
        decreases row.len() - x,
    {
        line.push(row[x].as_char());
        assert(line@ =~= lead + Seq::new((x + 1) as nat, |i: int| row@[i].glyph()));
        x = x + 1;
    }
    if with_border {
        line.push('|');
    }
    assert(line@ =~= row_text(row@, with_border));
    line
}

impl MapGenerator {
    /// The grid is as wide and as high as the generator says.
    pub closed spec fn wf(&self) -> bool {
        measures(grid_of(self.tiles@), self.width as int, self.height as int)
    }

    /// The grid of the dungeon.
    pub closed spec fn grid(&self) -> Grid {
        grid_of(self.tiles@)
    }

    /// The rooms of the dungeon.
    pub closed spec fn rooms(&self) -> Seq<Room> {
        self.rooms@
    }

    /// The partition that the last dungeon was laid out by, if one was
    /// generated.
    pub closed spec fn tree(&self) -> Option<BSPNode> {
        self.bsp_root
    }

    /// The width of the dungeon.
    pub closed spec fn spec_width(&self) -> int {
        self.width as int
    }

    /// The height of the dungeon.
    pub closed spec fn spec_height(&self) -> int {
        self.height as int
    }

    /// A generator for dungeons of the given size. Its grid is empty and it
    /// has no rooms yet.
    pub fn new(width: Coordinate, height: Coordinate) -> (generator: MapGenerator)
        ensures
            generator.wf(),
            generator.spec_width() == width,
            generator.spec_height() == height,
            generator.grid() == filled(width as nat, height as nat, Tile::Empty),
            generator.rooms().len() == 0,
            generator.tree() is None,
    {
        let mut tiles: GameMapTiles = Vec::new();
        let mut y: usize = 0;
        while y < height
            invariant
                y <= height,
                tiles@.len() == y,
                forall|j: int| 0 <= j < y ==> (#[trigger] tiles@[j])@ == Seq::new(
                    width as nat,
                    |x: int| Tile::Empty,
                ),
            decreases height - y,
        {
            let mut row: GameTileRow = Vec::new();
            let mut x: usize = 0;
            while x < width
                invariant
                    x <= width,
                    row@.len() == x,
                    forall|i: int| 0 <= i < x ==> #[trigger] row@[i] == Tile::Empty,
                decreases width - x,
            {
                row.push(Tile::Empty);
                x = x + 1;
            }
            assert(row@ =~= Seq::new(width as nat, |x: int| Tile::Empty));
            tiles.push(row);
            y = y + 1;
        }
        proof {
            assert(grid_of(tiles@) =~= filled(width as nat, height as nat, Tile::Empty));
        }
        MapGenerator { width, height, tiles, rooms: Vec::new(), bsp_root: None }
    }

    /// Generates a dungeon, in place of whatever the grid held.
    ///
    /// The grid is emptied and cut into a partition. Every leaf that is
    /// large enough gets a room between `min_room_size` and `max_room_size`
    /// cells wide and high; a leaf that is too small gets none. The rooms are
    /// built, joined by corridors, and given doors.
    ///
    /// Chance decides where the rooms lie and what they hold. Whatever it
    /// decides, the dungeon follows the partition that is kept with it: the
    /// rooms lie inside the grid and apart from each other, a path of floor
    /// and doors leads from the middle of the first room to the middle of
    /// every other (the last cell of the path, the middle of that room, may
    /// hold a piece of furniture), and every tile is hidden and free of the
    /// curse.
    pub fn generate(&mut self, min_room_size: Coordinate, max_room_size: Coordinate) -> (generator:
        &mut Self)
        requires
            old(self).wf(),
        ensures
            *final(self) == *final(generator),
            generator.wf(),
            generator.spec_width() == old(self).spec_width(),
            generator.spec_height() == old(self).spec_height(),
            laid_out(generator.rooms(), generator.spec_width(), generator.spec_height()),
            all_sized(generator.rooms(), min_room_size as int, max_room_size as int),
            all_joined(generator.grid(), generator.rooms()),
            all_generated(generator.grid()),
            generator.rooms().len() <= 32,
            generator.tree() matches Some(tree) && follows(
                tree,
                generator.spec_width(),
                generator.spec_height(),
                min_room_size as int,
                max_room_size as int,
                generator.rooms(),
                generator.grid(),
            ),
    {
        self.fill_with_empty();
        let mut root: BSPNode = self.build_bsp_tree(min_room_size);
        let ghost cuts = root;
        self.create_rooms_in_bsp(&mut root, min_room_size, max_room_size);
        proof {
            root.lemma_same_cuts(
                cuts,
                min_room_size as int,
                min_room_size as int,
                max_room_size as int,
            );
            root.lemma_rooms_apart();
            cuts.lemma_housing_bound(min_room_size as int, max_room_size as int);
            lemma_most_leaves_grows(cuts.levels(), MAX_DEPTH as nat + 1);
            assert(most_leaves(MAX_DEPTH as nat + 1) == 32) by {
                reveal_with_fuel(most_leaves, 7);
            }
        }
        let ghost planned = self.rooms@;
        let ghost blank = grid_of(self.tiles@);
        self.populate_all_rooms();
        let ghost built = grid_of(self.tiles@);
        proof {
            assert(rectangular(built) && columns(built) == columns(blank) && rows(built) == rows(
                blank,
            )) by {
                if blank.len() > 0 {
                    assert(blank[0].len() == built[0].len());
                }
                assert forall|y: int| 0 <= y < built.len() implies (#[trigger] built[y]).len()
                    == columns(built) by {
                    assert(blank[y].len() == built[y].len());
                }
            }
            assert(root.inside(built)) by {
                assert forall|y: int| 0 <= y < built.len() implies root.x + root.width <= (
                #[trigger] built[y]).len() by {
                    assert(blank[y].len() == built[y].len());
                }
            }
        }
        connect_rooms_bsp(&mut self.tiles, &root);
        let ghost joined_up = grid_of(self.tiles@);
        proof {
            lemma_carved_shape(built, joined_up);
        }
        self.place_all_room_doors();
        proof {
            let done = grid_of(self.tiles@);
            assert(keeps_passages(joined_up, done));
            root.lemma_linked_kept(joined_up, done);
            root.lemma_linked_joins_all(done);
            assert forall|i: int| 0 <= i < self.rooms@.len() implies joined(
                done,
                self.rooms@[0].middle(),
                (#[trigger] self.rooms@[i]).middle(),
            ) by {
                assert(same_place(self.rooms@[i], planned[i]));
                assert(same_place(self.rooms@[0], planned[0]));
                assert(joined(done, root.rooms()[0].middle(), root.rooms()[i].middle()));
            }
            assert forall|i: int| 0 <= i < self.rooms@.len() implies room_inside(
                #[trigger] self.rooms@[i],
                self.width as int,
                self.height as int,
            ) by {
                assert(same_place(self.rooms@[i], planned[i]));
                assert(root.houses(root.rooms()[i]));
            }
            assert forall|i: int, j: int|
                0 <= i < self.rooms@.len() && 0 <= j < self.rooms@.len() && i != j implies apart(
                #[trigger] self.rooms@[i],
                #[trigger] self.rooms@[j],
            ) by {
                assert(same_place(self.rooms@[i], planned[i]));
                assert(same_place(self.rooms@[j], planned[j]));
                assert(apart(root.rooms()[i], root.rooms()[j]));
            }
            assert forall|i: int| 0 <= i < self.rooms@.len() implies min_room_size <= (
            #[trigger] self.rooms@[i]).width <= max_room_size && min_room_size
                <= self.rooms@[i].height <= max_room_size by {
                assert(same_place(self.rooms@[i], planned[i]));
                assert(min_room_size <= root.rooms()[i].width <= max_room_size);
            }
            assert forall|x: int, y: int|
                #![trigger tile_at(done, x, y)]
                in_grid(done, x, y) implies tile_at(done, x, y) is Empty || generated(
                tile_at(done, x, y),
            ) by {
                let a = tile_at(blank, x, y);
                let b = tile_at(built, x, y);
                let c = tile_at(joined_up, x, y);
                assert(blank[y].len() == built[y].len());
                assert(built[y].len() == joined_up[y].len());
                assert(joined_up[y].len() == done[y].len());
            }
            assert(measures(done, self.width as int, self.height as int)) by {
                assert forall|y: int| 0 <= y < done.len() implies (#[trigger] done[y]).len()
                    == self.width by {
                    assert(blank[y].len() == built[y].len());
                    assert(built[y].len() == joined_up[y].len());
                    assert(joined_up[y].len() == done[y].len());
                }
            }
            assert(same_places(self.rooms@, root.rooms()));
        }
        self.bsp_root = Some(root);
        self
    }

    /// The dungeon as lines of text, one for each row, with a border of
    /// dashes and bars around it if asked for.
    pub fn render(&self, with_border: bool) -> (lines: Vec<Vec<char>>)
        ensures
            text_of(lines@) == dungeon_text(self.grid(), self.spec_width() as nat, with_border),
    {
        let mut lines: Vec<Vec<char>> = Vec::new();
        if with_border {
            lines.push(dash_line(self.width));
        }
        let ghost lead = text_of(lines@);
        let ghost grid = grid_of(self.tiles@);
        let mut y: usize = 0;
        while y < self.tiles.len()
            invariant
                y <= self.tiles.len(),
                grid == grid_of(self.tiles@),
                lead == if with_border {
                    seq![dashes(self.width as nat)]
                } else {
                    Seq::<Seq<char>>::empty()
                },
                text_of(lines@) == lead + Seq::new(y as nat, |j: int| row_text(grid[j], with_border)),
            decreases self.tiles.len() - y,
        {
            let ghost before = lines@;
            lines.push(row_line(&self.tiles[y], with_border));
            proof {
                let goal = lead + Seq::new((y + 1) as nat, |j: int| row_text(grid[j], with_border));
                let so_far = lead + Seq::new(y as nat, |j: int| row_text(grid[j], with_border));
                assert(text_of(before) == so_far);
                assert(so_far.len() == lead.len() + y);
                assert(text_of(before).len() == before.len());
                assert(lines@.len() == before.len() + 1);
                assert(text_of(lines@).len() == goal.len());
                assert forall|k: int| 0 <= k < goal.len() implies text_of(lines@)[k] == goal[k] by {
                    if k < before.len() {
                        assert(lines@[k] == before[k]);
                        assert(text_of(before)[k] == before[k]@);
                        assert(so_far[k] == goal[k]);
                    } else {
                        assert(grid[y as int] == self.tiles@[y as int]@);
                    }
                }
                assert(text_of(lines@) =~= goal);
            }
            y = y + 1;
        }
        let ghost body = lines@;
        if with_border {
            lines.push(dash_line(self.width));
        }
        proof {
            let goal = dungeon_text(grid, self.width as nat, with_border);
            assert(text_of(lines@).len() == goal.len());
            assert forall|k: int| 0 <= k < goal.len() implies text_of(lines@)[k] == goal[k] by {
                if k < body.len() {
                    assert(lines@[k] == body[k]);
                    assert(text_of(body)[k] == body[k]@);
                }
            }
            assert(text_of(lines@) =~= goal);
        }
        lines
    }

    pub fn get_dungeon(&self) -> (tiles: &GameMapTiles)
        ensures
            grid_of(tiles@) == self.grid(),
    {
        &self.tiles
    }

    /// The partition that the last dungeon was laid out by.
    pub fn get_bsp_root(&self) -> (root: &Option<BSPNode>)
        ensures
            *root == self.tree(),
    {
        &self.bsp_root
    }

    pub fn get_rooms(&self) -> (rooms: &Vec<Room>)
        ensures
            rooms@ == self.rooms(),
    {
        &self.rooms
    }

    /// Empties every cell of the grid.
    pub fn fill_with_empty(&mut self)
        requires
            old(self).wf(),
        ensures
            final(self).wf(),
            final(self).spec_width() == old(self).spec_width(),
            final(self).spec_height() == old(self).spec_height(),
            final(self).rooms() == old(self).rooms(),
            final(self).grid() == filled(
                old(self).spec_width() as nat,
                old(self).spec_height() as nat,
                Tile::Empty,
            ),
    {
        let ghost before = grid_of(self.tiles@);
        fill_block(&mut self.tiles, 0, 0, self.width, self.height, Tile::Empty);
        proof {
            let after = grid_of(self.tiles@);
            let blank = filled(self.width as nat, self.height as nat, Tile::Empty);
            assert(same_shape(after, blank)) by {
                assert forall|y: int| 0 <= y < after.len() implies (#[trigger] after[y]).len()
                    == blank[y].len() by {
                    assert(before[y].len() == self.width);
                }
            }
            assert forall|x: int, y: int| in_grid(after, x, y) implies tile_at(after, x, y)
                == tile_at(blank, x, y) by {
                assert(before[y].len() == self.width);
            }
            lemma_grid_ext(after, blank);
        }
    }

    /// Cuts the area of the dungeon into a partition, at most `MAX_DEPTH`
    /// cuts deep, of rectangles at least `min_size` wide and high.
    pub fn build_bsp_tree(&self, min_size: Coordinate) -> (root: BSPNode)
        ensures
            root.x == 0,
            root.y == 0,
            root.width == self.spec_width(),
            root.height == self.spec_height(),
            root.partitioned(),
            root.vacant(),
            root.cut_with_room(min_size as int),
            root.levels() <= MAX_DEPTH + 1,
    {
        let mut root: BSPNode = BSPNode::new(0, 0, self.width, self.height);
        split_node(&mut root, min_size, MAX_DEPTH, 0);
        root
    }

    /// Gives the leaves of the partition their rooms and takes the list of
    /// them for the rooms of the dungeon.
    pub fn create_rooms_in_bsp(
        &mut self,
        root: &mut BSPNode,
        min_room_size: Coordinate,
        max_room_size: Coordinate,
    )
        requires
            old(root).partitioned(),
            old(root).vacant(),
            old(root).fits(),
        ensures
            final(root).same_cuts(*old(root)),
            final(root).partitioned(),
            final(root).housed(),
            final(root).sized(min_room_size as int, max_room_size as int),
            final(root).rooms().len() == old(root).housing(
                min_room_size as int,
                max_room_size as int,
            ),
            final(self).rooms() == final(root).rooms(),
            final(self).grid() == old(self).grid(),
            final(self).tree() == old(self).tree(),
            final(self).spec_width() == old(self).spec_width(),
            final(self).spec_height() == old(self).spec_height(),
            old(self).wf() ==> final(self).wf(),
    {
        let mut rooms: Vec<Room> = Vec::new();
        collect_rooms_in_node(root, &mut rooms, min_room_size, max_room_size);
        assert(rooms@ =~= root.rooms());
        self.rooms = rooms;
    }

    /// Builds every room on the grid, one after another.
    ///
    /// Chance decides how each room is furnished. Whatever it decides, the
    /// rooms keep their places and sizes, and every room ends up built: no
    /// cell of its footprint is left empty. If no room is less than two
    /// cells wide or high, nothing changes outside the footprints. If no
    /// room is less than three cells wide or high and no two footprints share
    /// a cell, every room stands whole in the end, with its walls unbroken
    /// and, in an obelisk room, the obelisk in the middle.
    pub fn populate_all_rooms(&mut self)
        requires
            forall|i: int| 0 <= i < old(self).rooms().len() ==> (#[trigger] old(self).rooms()[i]).fits(),
        ensures
            old(self).wf() ==> final(self).wf(),
            same_places(final(self).rooms(), old(self).rooms()),
            refreshed(old(self).grid(), final(self).grid()),
            final(self).spec_width() == old(self).spec_width(),
            final(self).spec_height() == old(self).spec_height(),
            final(self).tree() == old(self).tree(),
            all_built(final(self).grid(), final(self).rooms()),
            all_at_least(old(self).rooms(), 2) ==> built_over(
                old(self).grid(),
                final(self).grid(),
                old(self).rooms(),
                old(self).rooms().len() as int,
            ),
            all_at_least(old(self).rooms(), 3) && all_clear(old(self).rooms()) ==> all_stand(
                final(self).grid(),
                final(self).rooms(),
            ),
    {
        let ghost planned = self.rooms@;
        let ghost blank = grid_of(self.tiles@);
        let ghost roomy = all_at_least(planned, 2);
        let ghost sound = all_at_least(planned, 3) && all_clear(planned);
        let mut i: usize = 0;
        proof {
            assert forall|k: int| 0 <= k < planned.len() implies (#[trigger] planned[k]).fits() by {
                assert(old(self).rooms()[k].fits());
            }
        }
        while i < self.rooms.len()
            invariant
                self.width == old(self).width,
                self.height == old(self).height,
                self.bsp_root == old(self).bsp_root,
                planned == old(self).rooms@,
                blank == grid_of(old(self).tiles@),
                roomy == all_at_least(planned, 2),
                sound == (all_at_least(planned, 3) && all_clear(planned)),
                i <= self.rooms.len(),
                same_places(self.rooms@, planned),
                forall|k: int| 0 <= k < planned.len() ==> (#[trigger] planned[k]).fits(),
                refreshed(blank, grid_of(self.tiles@)),
                forall|k: int| 0 <= k < i ==> (#[trigger] self.rooms@[k]).built(grid_of(self.tiles@)),
                roomy ==> built_over(blank, grid_of(self.tiles@), planned, i as int),
                sound ==> forall|k: int|
                    0 <= k < i ==> (#[trigger] self.rooms@[k]).stands(grid_of(self.tiles@)),
            decreases self.rooms.len() - i,
        {
            let mut room: Room = self.rooms[i];
            let ghost plan = room;
            let ghost before = grid_of(self.tiles@);
            assert(same_place(room, planned[i as int]));
            assert(planned[i as int].fits());
            room.populate(&mut self.tiles);
            let ghost listed = self.rooms@;
            self.rooms[i] = room;
            proof {
                let after = grid_of(self.tiles@);
                assert forall|k: int| 0 <= k < self.rooms@.len() implies same_place(
                    #[trigger] self.rooms@[k],
                    planned[k],
                ) by {
                    if k != i {
                        assert(self.rooms@[k] == listed[k]);
                    }
                }
                lemma_refreshed_onward(blank, before, after);
                assert forall|x: int, y: int| room.covers(x, y) == plan.covers(x, y) by {}
                assert forall|x: int, y: int| room.on_edge(x, y) == plan.on_edge(x, y) by {}
                assert(room.middle() == plan.middle());
                assert forall|k: int| 0 <= k < i + 1 implies (#[trigger] self.rooms@[k]).built(
                    after,
                ) by {
                    if k < i {
                        assert(self.rooms@[k] == listed[k]);
                        listed[k].lemma_built_kept(before, after);
                    } else {
                        assert(self.rooms@[k] == room);
                    }
                }
                if roomy {
                    assert(planned[i as int].width >= 2 && planned[i as int].height >= 2);
                    assert(furnished(before, after, plan));
                    assert forall|x: int, y: int|
                        #![trigger tile_at(after, x, y)]
                        tile_at(after, x, y) == tile_at(blank, x, y) || (covered_among(
                            planned,
                            i + 1,
                            x,
                            y,
                        ) && generated(tile_at(after, x, y))) by {
                        if tile_at(after, x, y) != tile_at(before, x, y) {
                            assert(plan.covers(x, y));
                            assert(planned[i as int].covers(x, y));
                        } else if tile_at(before, x, y) != tile_at(blank, x, y) {
                            let k = choose|k: int|
                                0 <= k < i && k < planned.len() && (#[trigger] planned[k]).covers(
                                    x,
                                    y,
                                );
                            assert(planned[k].covers(x, y));
                        }
                    }
                    assert forall|y: int| 0 <= y < blank.len() implies (#[trigger] blank[y]).len()
                        == after[y].len() by {
                        assert(blank[y].len() == before[y].len());
                        assert(before[y].len() == after[y].len());
                    }
                }
                if sound {
                    assert(planned[i as int].width >= 3 && planned[i as int].height >= 3);
                    assert(furnished(before, after, plan));
                    assert forall|k: int| 0 <= k < i + 1 implies (#[trigger] self.rooms@[k]).stands(
                        after,
                    ) by {
                        if k < i {
                            assert(self.rooms@[k] == listed[k]);
                            assert(same_place(listed[k], planned[k]));
                            assert(planned[k].clear_of(planned[i as int]));
                            assert(planned[k].fits());
                            listed[k].lemma_stands_kept(before, after, plan);
                        } else {
                            assert(self.rooms@[k] == room);
                            assert(plan.walled_up(after));
                            let my = plan.middle().y as int;
                            if 0 <= my < before.len() {
                                assert(before[my].len() == after[my].len());
                            }
                        }
                    }
                }
            }
            i = i + 1;
        }
        proof {
            let done = grid_of(self.tiles@);
            if old(self).wf() {
                assert forall|y: int| 0 <= y < done.len() implies (#[trigger] done[y]).len()
                    == self.width by {
                    assert(blank[y].len() == done[y].len());
                }
            }
        }
    }

    /// Hangs doors in the entrances of every room, one room after another.
    ///
    /// A coin decides on each door. Whatever it decides, the rooms stay as
    /// they are, and a cell that changes was floor in an entrance of one of
    /// the rooms and holds a closed door.
    pub fn place_all_room_doors(&mut self)
        requires
            forall|i: int| 0 <= i < old(self).rooms().len() ==> (#[trigger] old(self).rooms()[i]).fits(),
        ensures
            old(self).wf() ==> final(self).wf(),
            final(self).rooms() == old(self).rooms(),
            final(self).tree() == old(self).tree(),
            doors_hung_in(old(self).grid(), final(self).grid(), old(self).rooms()),
            doors_added(old(self).grid(), final(self).grid()),
            final(self).spec_width() == old(self).spec_width(),
            final(self).spec_height() == old(self).spec_height(),
    {
        let ghost start = grid_of(self.tiles@);
        let ghost rooms = self.rooms@;
        let mut i: usize = 0;
        proof {
            assert forall|k: int| 0 <= k < self.rooms@.len() implies (
            #[trigger] self.rooms@[k]).fits() by {
                assert(old(self).rooms()[k].fits());
            }
        }
        while i < self.rooms.len()
            invariant
                self.width == old(self).width,
                self.height == old(self).height,
                self.bsp_root == old(self).bsp_root,
                self.rooms@ == old(self).rooms@,
                rooms == self.rooms@,
                start == grid_of(old(self).tiles@),
                forall|k: int| 0 <= k < self.rooms@.len() ==> (#[trigger] self.rooms@[k]).fits(),
                doors_hung_in(start, grid_of(self.tiles@), rooms),
            decreases self.rooms.len() - i,
        {
            let room: Room = self.rooms[i];
            let ghost before = grid_of(self.tiles@);
            assert(self.rooms@[i as int].fits());
            room.place_doors(&mut self.tiles);
            proof {
                let after = grid_of(self.tiles@);
                assert(doors_added(start, before));
                assert forall|x: int, y: int|
                    #![trigger tile_at(after, x, y)]
                    tile_at(after, x, y) == tile_at(start, x, y) || (tile_at(start, x, y) is Floor
                        && tile_at(after, x, y) == fresh_door() && entrance_among(
                        rooms,
                        start,
                        x,
                        y,
                    )) by {
                    let t = tile_at(before, x, y);
                    if tile_at(after, x, y) != tile_at(before, x, y) {
                        assert(room.entrance(before, x, y) && room.on_edge(x, y));
                        lemma_entrance_before_doors(start, before, room, x, y);
                        assert(rooms[i as int].entrance(start, x, y) && rooms[i as int].on_edge(
                            x,
                            y,
                        ));
                    }
                }
                assert forall|y: int| 0 <= y < start.len() implies (#[trigger] start[y]).len()
                    == after[y].len() by {
                    assert(start[y].len() == before[y].len());
                    assert(before[y].len() == after[y].len());
                }
            }
            i = i + 1;
        }
        proof {
            let done = grid_of(self.tiles@);
            if old(self).wf() {
                assert forall|y: int| 0 <= y < done.len() implies (#[trigger] done[y]).len()
                    == self.width by {
                    assert(start[y].len() == done[y].len());
                }
            }
        }
    }
}

/// Changes that lay generated tiles, one after another, lay generated tiles.
pub proof fn lemma_refreshed_onward(a: Grid, b: Grid, c: Grid)
    requires
        refreshed(a, b),
        refreshed(b, c),
    ensures
        refreshed(a, c),
{
    assert forall|x: int, y: int|
        #![trigger tile_at(c, x, y)]
        tile_at(c, x, y) == tile_at(a, x, y) || generated(tile_at(c, x, y)) by {
        let t = tile_at(b, x, y);
    }
    assert forall|y: int| 0 <= y < a.len() implies (#[trigger] a[y]).len() == c[y].len() by {
        assert(a[y].len() == b[y].len());
        assert(b[y].len() == c[y].len());
    }
}

} // verus!
