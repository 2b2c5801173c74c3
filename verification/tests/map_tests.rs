use rustyrogue::map::sight::line_of_sight;
use rustyrogue::map::types::{GameMapTiles, Point};
use rustyrogue::map::GameMap;
use rustyrogue::tile::Tile;

const FLOOR: Tile = Tile::Floor { visible: false, cursed: false };
const WALL: Tile = Tile::Wall { visible: false };

fn grid_of(width: usize, height: usize, tile: Tile) -> GameMapTiles {
    vec![vec![tile; width]; height]
}

fn obelisk(fov: u32) -> Tile {
    Tile::Obelisk { visible: false, curse: true, fov, damage_hp: 1, reduce_fov_radius: 3 }
}

fn visible_points(map: &GameMap) -> Vec<Point> {
    let mut points = map.get_visible_tiles().clone();
    points.sort_by_key(|p| (p.y, p.x));
    points
}

/// The line walk of the engine, written out again to check it against.
fn walk_sees(
    tiles: &GameMapTiles,
    from: (usize, usize),
    to: (usize, usize),
    by_obelisk: bool,
    cursed: bool,
) -> bool {
    let (mut x0, mut y0) = (from.0 as i64, from.1 as i64);
    let (x1, y1) = (to.0 as i64, to.1 as i64);
    let (dx, dy) = ((x1 - x0).abs(), -(y1 - y0).abs());
    let (sx, sy) = (if x0 < x1 { 1 } else { -1 }, if y0 < y1 { 1 } else { -1 });
    let mut err = dx + dy;
    loop {
        if x0 == x1 && y0 == y1 {
            return true;
        }
        let tile = tiles
            .get(y0 as usize)
            .and_then(|row| row.get(x0 as usize))
            .copied()
            .unwrap_or(Tile::Empty);
        if tile.is_opaque(by_obelisk, cursed) {
            return false;
        }
        let e2 = 2 * err;
        if e2 >= dy {
            err += dy;
            x0 += sx;
        }
        if e2 <= dx {
            err += dx;
            y0 += sy;
        }
    }
}

fn expected_view(tiles: &GameMapTiles, pov: Point, radius: u32, cursed: bool) -> Vec<Point> {
    let mut points = Vec::new();
    let r = radius as i64;
    for (y, row) in tiles.iter().enumerate() {
        for x in 0..row.len() {
            let dx = x as i64 - pov.x as i64;
            let dy = y as i64 - pov.y as i64;
            if dx * dx + dy * dy <= r * r && walk_sees(tiles, (pov.x, pov.y), (x, y), false, cursed)
            {
                points.push(Point::new(x, y));
            }
        }
    }
    points
}

fn sample_dungeon() -> GameMapTiles {
    let rows = [
        "####################",
        "#......#...........#",
        "#......#.....O.....#",
        "#......+.....#.....#",
        "#..W...#.....#..V..#",
        "#......#.....#.....#",
        "#####/##.....|.....#",
        "#..........?.......#",
        "#..................#",
        "####################",
    ];
    rows.iter()
        .map(|row| {
            row.chars()
                .map(|c| {
                    if c == 'O' {
                        Tile::Column { visible: false }
                    } else {
                        Tile::from_char_with_rarity(c, 10)
                    }
                })
                .collect()
        })
        .collect()
}

#[test]
fn reading_outside_the_grid_gives_empty() {
    let map = GameMap::from_tiles(grid_of(4, 3, FLOOR));
    assert_eq!(map.get_tile(Point::new(0, 0)), FLOOR);
    assert_eq!(map.get_tile(Point::new(3, 2)), FLOOR);
    assert_eq!(map.get_tile(Point::new(4, 0)), Tile::Empty);
    assert_eq!(map.get_tile(Point::new(0, 3)), Tile::Empty);
    assert_eq!(map.get_tile(Point::new(usize::MAX, usize::MAX)), Tile::Empty);
}

#[test]
fn writing_outside_the_grid_changes_nothing() {
    let mut map = GameMap::from_tiles(grid_of(4, 3, FLOOR));
    map.set_tile(Point::new(4, 1), WALL);
    map.set_tile(Point::new(1, 3), WALL);
    map.set_tile(Point::new(usize::MAX, 0), WALL);
    assert_eq!(*map.get_tiles(), grid_of(4, 3, FLOOR));
    map.set_tile(Point::new(3, 2), WALL);
    assert_eq!(map.get_tile(Point::new(3, 2)), WALL);
    assert_eq!(map.get_tile(Point::new(2, 2)), FLOOR);
}

#[test]
fn an_empty_map_has_no_width() {
    let map = GameMap::from_tiles(Vec::new());
    assert_eq!(map.width(), 0);
    assert_eq!(map.height(), 0);
    assert_eq!(map.get_tile(Point::new(0, 0)), Tile::Empty);
    assert_eq!(map.find_player(), None);
}

#[test]
fn width_and_height_of_a_map() {
    let map = GameMap::from_tiles(grid_of(7, 5, Tile::Empty));
    assert_eq!(map.width(), 7);
    assert_eq!(map.height(), 5);
    assert!(map.get_visible_tiles().is_empty());
}

#[test]
fn walkable_deadly_and_interactable_cells() {
    let mut tiles = grid_of(5, 1, FLOOR);
    tiles[0][1] = WALL;
    tiles[0][2] = Tile::Pit { visible: false };
    tiles[0][3] = Tile::Secret { visible: true, rarity: 10 };
    tiles[0][4] = Tile::Secret { visible: false, rarity: 10 };
    let map = GameMap::from_tiles(tiles);
    assert!(map.is_walkable(Point::new(0, 0)));
    assert!(!map.is_walkable(Point::new(1, 0)));
    assert!(map.is_walkable(Point::new(2, 0)));
    assert!(map.is_walkable(Point::new(9, 9)));
    assert!(map.is_deadly(Point::new(2, 0)));
    assert!(!map.is_deadly(Point::new(0, 0)));
    assert!(!map.is_deadly(Point::new(9, 9)));
    assert!(map.is_interactable(Point::new(3, 0)));
    assert!(!map.is_interactable(Point::new(4, 0)));
    assert!(!map.is_interactable(Point::new(0, 0)));
    assert!(!map.is_interactable(Point::new(9, 9)));
}

#[test]
fn find_player_gives_the_first_in_reading_order() {
    let mut tiles = grid_of(5, 4, FLOOR);
    assert_eq!(GameMap::from_tiles(tiles.clone()).find_player(), None);
    tiles[2][1] = Tile::Player { is_dead: false, is_cursed: false };
    tiles[2][3] = Tile::Player { is_dead: false, is_cursed: false };
    tiles[3][0] = Tile::Player { is_dead: false, is_cursed: false };
    assert_eq!(GameMap::from_tiles(tiles.clone()).find_player(), Some(Point::new(1, 2)));
    tiles[1][4] = Tile::Player { is_dead: true, is_cursed: true };
    assert_eq!(GameMap::from_tiles(tiles).find_player(), Some(Point::new(4, 1)));
}

#[test]
fn interacting_with_a_door_opens_and_closes_it() {
    let door = Point::new(2, 1);
    let mut tiles = grid_of(4, 3, FLOOR);
    tiles[1][2] = Tile::Door { visible: true, open: false };
    let mut map = GameMap::from_tiles(tiles);
    assert!(!map.is_walkable(door));
    map.interact_tile(door);
    assert_eq!(map.get_tile(door), Tile::Door { visible: true, open: true });
    assert!(map.is_walkable(door));
    map.interact_tile(door);
    assert_eq!(map.get_tile(door), Tile::Door { visible: true, open: false });
    assert!(!map.is_walkable(door));
}

#[test]
fn interacting_with_anything_else_changes_nothing() {
    let mut tiles = grid_of(4, 3, FLOOR);
    tiles[0][0] = Tile::Secret { visible: true, rarity: 100 };
    let before = tiles.clone();
    let mut map = GameMap::from_tiles(tiles);
    map.interact_tile(Point::new(0, 0));
    map.interact_tile(Point::new(1, 1));
    map.interact_tile(Point::new(40, 40));
    assert_eq!(*map.get_tiles(), before);
}

#[test]
fn a_cell_sees_itself_and_its_neighbours() {
    let tiles = grid_of(5, 5, WALL);
    // The walk looks at no cell when both ends are the same cell.
    assert!(line_of_sight(&tiles, 2, 2, 2, 2, false, false));
    // The first cell of the walk counts: from inside a wall nothing is seen.
    assert!(!line_of_sight(&tiles, 2, 2, 3, 2, false, false));
    let open = grid_of(5, 5, FLOOR);
    assert!(line_of_sight(&open, 2, 2, 3, 2, false, false));
    assert!(line_of_sight(&open, 0, 0, 4, 4, false, false));
    assert!(line_of_sight(&open, 4, 0, 0, 3, true, false));
}

#[test]
fn a_wall_between_blocks_the_view_and_floor_restores_it() {
    let observer = Point::new(1, 2);
    let target = Point::new(7, 2);
    let between = Point::new(4, 2);
    let mut map = GameMap::from_tiles(grid_of(9, 5, FLOOR));
    map.update_fov(observer, 8);
    assert!(map.get_visible_tiles().contains(&target));
    assert!(map.has_line_of_sight(observer.x, observer.y, target.x, target.y, false, false));

    map.set_tile(between, WALL);
    map.update_fov(observer, 8);
    assert!(!map.get_visible_tiles().contains(&target));
    assert!(!map.has_line_of_sight(observer.x, observer.y, target.x, target.y, false, false));
    assert_eq!(map.get_tile(target), FLOOR);
    // The wall itself is the last cell of its own line of sight.
    assert!(map.get_visible_tiles().contains(&between));

    map.set_tile(between, FLOOR);
    map.update_fov(observer, 8);
    assert!(map.get_visible_tiles().contains(&target));
    assert_eq!(map.get_tile(target), Tile::Floor { visible: true, cursed: false });
}

#[test]
fn the_last_cell_of_a_line_may_be_opaque() {
    let mut tiles = grid_of(5, 1, FLOOR);
    tiles[0][3] = WALL;
    assert!(line_of_sight(&tiles, 0, 0, 3, 0, false, false));
    assert!(!line_of_sight(&tiles, 0, 0, 4, 0, false, false));
}

#[test]
fn line_of_sight_agrees_with_the_line_walk() {
    let tiles = sample_dungeon();
    for y0 in 0..tiles.len() {
        for x0 in 0..tiles[0].len() {
            for y1 in 0..tiles.len() {
                for x1 in 0..tiles[0].len() {
                    for (by_obelisk, cursed) in [(false, false), (false, true), (true, false)] {
                        assert_eq!(
                            line_of_sight(&tiles, x0, y0, x1, y1, by_obelisk, cursed),
                            walk_sees(&tiles, (x0, y0), (x1, y1), by_obelisk, cursed),
                            "from ({}, {}) to ({}, {})",
                            x0,
                            y0,
                            x1,
                            y1
                        );
                    }
                }
            }
        }
    }
}

#[test]
fn line_of_sight_from_and_to_cells_outside_the_grid() {
    let tiles = grid_of(3, 3, FLOOR);
    // Cells outside the grid are empty and stop no view.
    assert!(line_of_sight(&tiles, 5, 5, 1, 1, false, false));
    assert!(line_of_sight(&tiles, 1, 1, 6, 1, false, false));
}

#[test]
fn field_of_view_in_the_open_is_a_disc() {
    let pov = Point::new(5, 5);
    let mut map = GameMap::from_tiles(grid_of(11, 11, FLOOR));
    map.update_fov(pov, 2);
    let expected = vec![
        Point::new(5, 3),
        Point::new(4, 4),
        Point::new(5, 4),
        Point::new(6, 4),
        Point::new(3, 5),
        Point::new(4, 5),
        Point::new(5, 5),
        Point::new(6, 5),
        Point::new(7, 5),
        Point::new(4, 6),
        Point::new(5, 6),
        Point::new(6, 6),
        Point::new(5, 7),
    ];
    assert_eq!(visible_points(&map), expected);
    for y in 0..11 {
        for x in 0..11 {
            let p = Point::new(x, y);
            let visible = expected.contains(&p);
            assert_eq!(map.get_tile(p), Tile::Floor { visible, cursed: false });
        }
    }
}

#[test]
fn field_of_view_of_radius_zero_is_the_cell_itself() {
    let mut map = GameMap::from_tiles(grid_of(3, 3, FLOOR));
    map.update_fov(Point::new(1, 1), 0);
    assert_eq!(visible_points(&map), vec![Point::new(1, 1)]);
}

#[test]
fn field_of_view_is_cut_off_at_the_edge_of_the_grid() {
    let mut map = GameMap::from_tiles(grid_of(3, 2, FLOOR));
    map.update_fov(Point::new(0, 0), 1000);
    assert_eq!(map.get_visible_tiles().len(), 6);
    let mut far = GameMap::from_tiles(grid_of(3, 2, FLOOR));
    far.update_fov(Point::new(4, 0), u32::MAX);
    assert_eq!(far.get_visible_tiles().len(), 6);
    let mut away = GameMap::from_tiles(grid_of(3, 2, FLOOR));
    away.update_fov(Point::new(40, 40), 3);
    assert!(away.get_visible_tiles().is_empty());
}

#[test]
fn a_second_field_of_view_leaves_no_stale_flags() {
    let mut map = GameMap::from_tiles(sample_dungeon());
    map.update_fov(Point::new(3, 3), 4);
    assert!(!map.get_visible_tiles().is_empty());
    map.update_fov(Point::new(16, 7), 3);
    let plain = GameMap::from_tiles(sample_dungeon());
    let expected = expected_view(plain.get_tiles(), Point::new(16, 7), 3, false);
    assert_eq!(visible_points(&map), expected);
    for (y, row) in map.get_tiles().iter().enumerate() {
        for (x, tile) in row.iter().enumerate() {
            let in_view = expected.contains(&Point::new(x, y));
            assert_eq!(*tile, sample_dungeon()[y][x].with_visibility(in_view));
        }
    }
}

#[test]
fn field_of_view_agrees_with_the_line_walk_everywhere() {
    let tiles = sample_dungeon();
    for radius in [0u32, 1, 3, 6] {
        for y in 0..tiles.len() {
            for x in 0..tiles[0].len() {
                let pov = Point::new(x, y);
                let mut map = GameMap::from_tiles(tiles.clone());
                map.update_fov(pov, radius);
                assert_eq!(visible_points(&map), expected_view(&tiles, pov, radius, false));
            }
        }
    }
}

#[test]
fn no_cell_is_in_view_twice() {
    let mut map = GameMap::from_tiles(sample_dungeon());
    map.update_fov(Point::new(10, 4), 7);
    let points = visible_points(&map);
    for pair in points.windows(2) {
        assert_ne!(pair[0], pair[1]);
    }
}

#[test]
fn cursed_floor_stops_a_common_observer_but_not_a_cursed_player() {
    let mut tiles = grid_of(7, 1, FLOOR);
    tiles[0][3] = Tile::Floor { visible: false, cursed: true };
    let mut common = GameMap::from_tiles(tiles.clone());
    common.update_fov(Point::new(0, 0), 10);
    assert_eq!(
        visible_points(&common),
        vec![Point::new(0, 0), Point::new(1, 0), Point::new(2, 0), Point::new(3, 0)]
    );
    tiles[0][0] = Tile::Player { is_dead: false, is_cursed: true };
    let mut cursed = GameMap::from_tiles(tiles.clone());
    cursed.update_fov(Point::new(0, 0), 10);
    assert_eq!(cursed.get_visible_tiles().len(), 7);
    // The field of view leaves the curse on the player alone.
    assert_eq!(cursed.get_tile(Point::new(0, 0)), Tile::Player { is_dead: false, is_cursed: true });
    tiles[0][0] = Tile::Player { is_dead: false, is_cursed: false };
    let mut free = GameMap::from_tiles(tiles);
    free.update_fov(Point::new(0, 0), 10);
    assert_eq!(free.get_visible_tiles().len(), 4);
}

#[test]
fn clearing_the_view_clears_the_flags() {
    let mut map = GameMap::from_tiles(grid_of(5, 5, FLOOR));
    map.update_fov(Point::new(2, 2), 2);
    map.clear_visible_tiles();
    assert!(map.get_visible_tiles().is_empty());
    assert_eq!(*map.get_tiles(), grid_of(5, 5, FLOOR));
}

#[test]
fn update_tile_visibility_sets_one_flag() {
    let mut map = GameMap::from_tiles(grid_of(3, 3, WALL));
    map.update_tile_visibility(Point::new(1, 2), true);
    map.update_tile_visibility(Point::new(7, 7), true);
    for y in 0..3 {
        for x in 0..3 {
            assert_eq!(map.get_tile(Point::new(x, y)), Tile::Wall { visible: x == 1 && y == 2 });
        }
    }
    assert!(map.is_opaque(Point::new(1, 2), false, false));
    assert!(!map.is_opaque(Point::new(7, 7), false, false));
}

#[test]
fn an_obelisk_curses_the_floor_within_its_radius() {
    let mut tiles = grid_of(20, 10, FLOOR);
    tiles[5][10] = obelisk(3);
    let mut map = GameMap::from_tiles(tiles);
    map.apply_obelisk_curses();
    for y in 0..10usize {
        for x in 0..20usize {
            if (x, y) == (10, 5) {
                assert_eq!(map.get_tile(Point::new(x, y)), obelisk(3));
                continue;
            }
            let dx = x as i64 - 10;
            let dy = y as i64 - 5;
            let cursed = dx * dx + dy * dy <= 9;
            assert_eq!(
                map.get_tile(Point::new(x, y)),
                Tile::Floor { visible: false, cursed },
                "at ({}, {})",
                x,
                y
            );
        }
    }
    // Squared distance sixteen lies outside a radius of three.
    assert_eq!(map.get_tile(Point::new(14, 5)), Tile::Floor { visible: false, cursed: false });
    assert_eq!(map.get_tile(Point::new(13, 5)), Tile::Floor { visible: false, cursed: true });
}

#[test]
fn laying_the_curses_twice_gives_the_same_grid() {
    let mut tiles = sample_dungeon();
    tiles[8][3] = Tile::Player { is_dead: false, is_cursed: false };
    tiles[1][1] = Tile::Floor { visible: true, cursed: true };
    let mut map = GameMap::from_tiles(tiles);
    map.apply_obelisk_curses();
    let once = map.get_tiles().clone();
    map.apply_obelisk_curses();
    assert_eq!(*map.get_tiles(), once);
    assert!(once.iter().flatten().any(|t| matches!(t, Tile::Floor { cursed: true, .. })));
}

fn expected_curses(tiles: &GameMapTiles) -> GameMapTiles {
    let mut obelisks = Vec::new();
    for (y, row) in tiles.iter().enumerate() {
        for (x, tile) in row.iter().enumerate() {
            if let Tile::Obelisk { curse: true, fov, .. } = tile {
                obelisks.push((x, y, *fov as i64));
            }
        }
    }
    let mut cursed = tiles.clone();
    for (y, row) in tiles.iter().enumerate() {
        for (x, tile) in row.iter().enumerate() {
            let reached = obelisks.iter().any(|&(ox, oy, fov)| {
                let dx = x as i64 - ox as i64;
                let dy = y as i64 - oy as i64;
                dx * dx + dy * dy <= fov * fov && walk_sees(tiles, (x, y), (ox, oy), true, false)
            });
            cursed[y][x] = tile.with_curse(reached);
        }
    }
    cursed
}

#[test]
fn the_curses_agree_with_the_line_walk() {
    let mut tiles = sample_dungeon();
    tiles[8][3] = Tile::Player { is_dead: false, is_cursed: false };
    tiles[1][17] = Tile::Obelisk { visible: true, curse: true, fov: 2, damage_hp: 1, reduce_fov_radius: 1 };
    tiles[4][1] = Tile::Obelisk { visible: false, curse: true, fov: 9, damage_hp: 1, reduce_fov_radius: 1 };
    tiles[8][10] = Tile::Obelisk { visible: false, curse: false, fov: 9, damage_hp: 1, reduce_fov_radius: 1 };
    tiles[2][3] = Tile::Floor { visible: true, cursed: true };
    let expected = expected_curses(&tiles);
    let mut map = GameMap::from_tiles(tiles);
    map.apply_obelisk_curses();
    assert_eq!(*map.get_tiles(), expected);
    // The walls of the room shelter the player from the obelisk inside it.
    assert_eq!(
        map.get_tile(Point::new(3, 8)),
        Tile::Player { is_dead: false, is_cursed: false }
    );
    assert_eq!(map.get_tile(Point::new(3, 2)), Tile::Floor { visible: true, cursed: true });
    assert_eq!(map.get_tile(Point::new(16, 1)), Tile::Floor { visible: false, cursed: true });
    assert_eq!(map.get_tile(Point::new(1, 8)), Tile::Floor { visible: false, cursed: false });
}

#[test]
fn the_curse_is_cleared_where_no_obelisk_reaches() {
    let mut tiles = grid_of(6, 2, Tile::Floor { visible: true, cursed: true });
    tiles[1][5] = Tile::Player { is_dead: false, is_cursed: true };
    let mut map = GameMap::from_tiles(tiles);
    map.apply_obelisk_curses();
    assert_eq!(map.get_tile(Point::new(0, 0)), Tile::Floor { visible: true, cursed: false });
    assert_eq!(map.get_tile(Point::new(5, 1)), Tile::Player { is_dead: false, is_cursed: false });
}

#[test]
fn walls_shelter_from_the_curse_and_creatures_do_not() {
    let mut tiles = grid_of(9, 1, FLOOR);
    tiles[0][4] = obelisk(4);
    tiles[0][2] = WALL;
    tiles[0][6] = Tile::Bat { visible: false, hp: 1, damage: 1, fov: 1 };
    tiles[0][8] = Tile::Player { is_dead: false, is_cursed: false };
    let mut map = GameMap::from_tiles(tiles);
    map.apply_obelisk_curses();
    assert_eq!(map.get_tile(Point::new(3, 0)), Tile::Floor { visible: false, cursed: true });
    assert_eq!(map.get_tile(Point::new(2, 0)), WALL);
    assert_eq!(map.get_tile(Point::new(1, 0)), FLOOR);
    assert_eq!(map.get_tile(Point::new(0, 0)), FLOOR);
    assert_eq!(map.get_tile(Point::new(5, 0)), Tile::Floor { visible: false, cursed: true });
    assert_eq!(map.get_tile(Point::new(7, 0)), Tile::Floor { visible: false, cursed: true });
    assert_eq!(map.get_tile(Point::new(8, 0)), Tile::Player { is_dead: false, is_cursed: true });
}

#[test]
fn an_obelisk_that_does_not_curse_curses_nothing() {
    let mut tiles = grid_of(5, 5, FLOOR);
    tiles[2][2] = Tile::Obelisk { visible: false, curse: false, fov: 5, damage_hp: 1, reduce_fov_radius: 1 };
    let before = tiles.clone();
    let mut map = GameMap::from_tiles(tiles);
    map.apply_obelisk_curses();
    assert_eq!(*map.get_tiles(), before);
}

#[test]
fn the_cursing_obelisk_is_the_first_in_reading_order_not_the_nearest() {
    let mut tiles = grid_of(9, 3, FLOOR);
    let far = Tile::Obelisk { visible: false, curse: true, fov: 2, damage_hp: 7, reduce_fov_radius: 1 };
    let near = Tile::Obelisk { visible: false, curse: true, fov: 2, damage_hp: 9, reduce_fov_radius: 2 };
    tiles[0][0] = far;
    tiles[2][7] = near;
    let map = GameMap::from_tiles(tiles.clone());
    assert_eq!(map.get_obelisk_cursing_tile(Point::new(8, 2)), Some(far));
    // With the view of the first blocked, the next one is found.
    tiles[0][1] = WALL;
    tiles[1][0] = WALL;
    tiles[1][1] = WALL;
    let map = GameMap::from_tiles(tiles);
    assert_eq!(map.get_obelisk_cursing_tile(Point::new(8, 2)), Some(near));
}

#[test]
fn without_a_cursing_obelisk_in_sight_none_is_found() {
    let mut tiles = grid_of(5, 1, FLOOR);
    assert_eq!(GameMap::from_tiles(tiles.clone()).get_obelisk_cursing_tile(Point::new(0, 0)), None);
    tiles[0][4] = obelisk(3);
    tiles[0][2] = WALL;
    assert_eq!(GameMap::from_tiles(tiles.clone()).get_obelisk_cursing_tile(Point::new(0, 0)), None);
    tiles[0][2] = FLOOR;
    assert_eq!(
        GameMap::from_tiles(tiles).get_obelisk_cursing_tile(Point::new(0, 0)),
        Some(obelisk(3))
    );
}

#[test]
fn load_reads_one_row_from_each_line() {
    let lines = vec!["#.@".to_string(), String::new(), "/+V_|WBU∩<>x".to_string()];
    let map = GameMap::load(&lines);
    assert_eq!(map.height(), 3);
    assert_eq!(map.width(), 3);
    let tiles = map.get_tiles();
    assert_eq!(tiles[0], vec![WALL, FLOOR, Tile::Player { is_dead: false, is_cursed: false }]);
    assert!(tiles[1].is_empty());
    assert_eq!(tiles[2].len(), 12);
    assert_eq!(tiles[2][0], Tile::Door { visible: false, open: false });
    assert_eq!(tiles[2][8], Tile::Archway { locked: true });
    assert_eq!(tiles[2][11], Tile::Empty);
    assert!(map.get_visible_tiles().is_empty());
    assert_eq!(map.find_player(), Some(Point::new(2, 0)));
}

#[test]
fn load_draws_a_rarity_for_every_secret() {
    let lines = vec!["?".repeat(200)];
    let map = GameMap::load(&lines);
    let mut seen = std::collections::BTreeSet::new();
    for tile in &map.get_tiles()[0] {
        match tile {
            Tile::Secret { visible: false, rarity } => {
                assert!(matches!(rarity, 1 | 10 | 100 | 1000));
                seen.insert(*rarity);
            }
            other => panic!("not a hidden secret: {:?}", other),
        }
    }
    assert!(seen.len() > 1);
}

#[test]
fn rows_of_different_lengths_are_read_safely() {
    let mut map = GameMap::from_tiles(vec![vec![FLOOR; 2], vec![FLOOR; 5], vec![]]);
    assert_eq!(map.width(), 2);
    assert_eq!(map.get_tile(Point::new(4, 1)), FLOOR);
    assert_eq!(map.get_tile(Point::new(4, 0)), Tile::Empty);
    map.update_fov(Point::new(1, 1), 10);
    assert_eq!(map.get_visible_tiles().len(), 7);
    map.apply_obelisk_curses();
    assert_eq!(map.get_tile(Point::new(4, 1)), Tile::Floor { visible: true, cursed: false });
}
