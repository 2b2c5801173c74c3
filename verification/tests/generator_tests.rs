use rustyrogue::generator::bsp::{collect_rooms_in_node, split_node, BSPNode};
use rustyrogue::generator::corridor::{
    carve_corridor, connect_rooms_bsp, drunken_walk_corridor, is_level_with, step,
};
use rustyrogue::generator::map::{dash_line, row_line, MapGenerator};
use rustyrogue::generator::furniture::{mob_tile, mob_type_for, MobType};
use rustyrogue::generator::room::{classify, hang_door, Room, RoomType};
use rustyrogue::map::types::{GameMapTiles, Point};
use rustyrogue::tile::Tile;

const FLOOR: Tile = Tile::Floor { visible: false, cursed: false };
const WALL: Tile = Tile::Wall { visible: false };
const COLUMN: Tile = Tile::Column { visible: false };
const DOOR: Tile = Tile::Door { visible: false, open: false };
const OBELISK: Tile =
    Tile::Obelisk { visible: false, curse: true, fov: 8, damage_hp: 1, reduce_fov_radius: 3 };

fn grid_of(width: usize, height: usize, tile: Tile) -> GameMapTiles {
    vec![vec![tile; width]; height]
}

fn built_room(tiles: &mut GameMapTiles, x: usize, y: usize, width: usize, height: usize) -> Room {
    let room = Room::new(Point::new(x, y), width, height);
    room.fill_with_floor(tiles);
    room.surround_with_walls(tiles);
    room
}

fn covers(room: &Room, x: usize, y: usize) -> bool {
    room.location.x <= x
        && x <= room.location.x + room.width
        && room.location.y <= y
        && y <= room.location.y + room.height
}

fn interior(room: &Room, x: usize, y: usize) -> bool {
    room.location.x + 1 <= x
        && x + 1 < room.location.x + room.width
        && room.location.y + 1 <= y
        && y + 1 < room.location.y + room.height
}

fn is_generated(tile: &Tile) -> bool {
    tile.with_visibility(false) == *tile
        && tile.with_curse(false) == *tile
        && !matches!(tile, Tile::Empty | Tile::Player { .. })
}

fn is_room_mob(tile: &Tile) -> bool {
    *tile == mob_tile(MobType::Wither)
        || *tile == mob_tile(MobType::Bat)
        || *tile == mob_tile(MobType::Brute)
}

/// The cells that can be reached from `start` over cells that `passable`
/// lets through.
fn flood(tiles: &GameMapTiles, start: Point, passable: fn(&Tile) -> bool) -> Vec<Vec<bool>> {
    let mut seen: Vec<Vec<bool>> = tiles.iter().map(|row| vec![false; row.len()]).collect();
    if start.y >= tiles.len() || start.x >= tiles[start.y].len() || !passable(&tiles[start.y][start.x]) {
        return seen;
    }
    let mut stack = vec![start];
    seen[start.y][start.x] = true;
    while let Some(p) = stack.pop() {
        let mut next = Vec::new();
        if p.x > 0 {
            next.push(Point::new(p.x - 1, p.y));
        }
        if p.y > 0 {
            next.push(Point::new(p.x, p.y - 1));
        }
        next.push(Point::new(p.x + 1, p.y));
        next.push(Point::new(p.x, p.y + 1));
        for n in next {
            if n.y < tiles.len() && n.x < tiles[n.y].len() && !seen[n.y][n.x] && passable(&tiles[n.y][n.x]) {
                seen[n.y][n.x] = true;
                stack.push(n);
            }
        }
    }
    seen
}

fn floor_or_door(tile: &Tile) -> bool {
    matches!(tile, Tile::Floor { .. } | Tile::Door { .. })
}

fn walkable(tile: &Tile) -> bool {
    tile.is_walkable() && !matches!(tile, Tile::Empty)
}

/// A path of passable cells leads from `start` to `end` or to a cell beside
/// it.
fn joined(tiles: &GameMapTiles, start: Point, end: Point) -> bool {
    if start == end {
        return true;
    }
    let seen = flood(tiles, start, floor_or_door);
    let at = |x: usize, y: usize| y < seen.len() && x < seen[y].len() && seen[y][x];
    at(end.x, end.y)
        || at(end.x + 1, end.y)
        || at(end.x, end.y + 1)
        || (end.x > 0 && at(end.x - 1, end.y))
        || (end.y > 0 && at(end.x, end.y - 1))
}

#[test]
fn a_new_room_is_normal() {
    let room = Room::new(Point::new(3, 4), 5, 6);
    assert_eq!(room.location, Point::new(3, 4));
    assert_eq!(room.width, 5);
    assert_eq!(room.height, 6);
    assert_eq!(room.room_type, RoomType::Normal);
}

#[test]
fn the_center_of_a_room() {
    assert_eq!(Room::new(Point::new(3, 4), 5, 6).center(), Point::new(5, 7));
    assert_eq!(Room::new(Point::new(0, 0), 0, 1).center(), Point::new(0, 0));
    assert_eq!(Room::new(Point::new(10, 20), 8, 3).center(), Point::new(14, 21));
}

#[test]
fn floor_fills_the_room_up_to_the_far_walls() {
    let mut tiles = grid_of(8, 7, Tile::Empty);
    let room = Room::new(Point::new(2, 1), 3, 4);
    room.fill_with_floor(&mut tiles);
    for y in 0..7 {
        for x in 0..8 {
            let inside = (2..5).contains(&x) && (1..5).contains(&y);
            assert_eq!(tiles[y][x], if inside { FLOOR } else { Tile::Empty });
        }
    }
}

#[test]
fn walls_run_along_all_four_sides() {
    let mut tiles = grid_of(8, 7, Tile::Empty);
    let room = built_room(&mut tiles, 2, 1, 3, 4);
    for y in 0..7usize {
        for x in 0..8usize {
            let expected = if !covers(&room, x, y) {
                Tile::Empty
            } else if x == 2 || x == 5 || y == 1 || y == 5 {
                WALL
            } else {
                FLOOR
            };
            assert_eq!(tiles[y][x], expected, "at ({}, {})", x, y);
        }
    }
}

#[test]
fn a_room_that_juts_out_of_the_grid_is_built_as_far_as_the_grid_goes() {
    let mut tiles = grid_of(6, 4, Tile::Empty);
    let room = built_room(&mut tiles, 3, 2, 10, 10);
    assert_eq!(tiles[2], vec![Tile::Empty, Tile::Empty, Tile::Empty, WALL, WALL, WALL]);
    assert_eq!(tiles[3], vec![Tile::Empty, Tile::Empty, Tile::Empty, WALL, FLOOR, FLOOR]);
    room.reset(&mut tiles);
    assert_eq!(tiles[3], vec![Tile::Empty, Tile::Empty, Tile::Empty, WALL, FLOOR, FLOOR]);
    let away = Room::new(Point::new(50, 50), 4, 4);
    let before = tiles.clone();
    away.fill_with_floor(&mut tiles);
    away.surround_with_walls(&mut tiles);
    away.stamp_columns(&mut tiles);
    away.place_obelisk(&mut tiles);
    assert_eq!(tiles, before);
}

#[test]
fn reset_lays_floor_inside_the_near_walls() {
    let mut tiles = grid_of(9, 9, WALL);
    let room = Room::new(Point::new(1, 2), 4, 3);
    room.reset(&mut tiles);
    for y in 0..9 {
        for x in 0..9 {
            let inside = (2..5).contains(&x) && (3..5).contains(&y);
            assert_eq!(tiles[y][x], if inside { FLOOR } else { WALL });
        }
    }
}

#[test]
fn columns_stand_two_cells_in_from_each_corner() {
    let mut tiles = grid_of(14, 12, Tile::Empty);
    let room = built_room(&mut tiles, 1, 1, 9, 8);
    let before = tiles.clone();
    room.stamp_columns(&mut tiles);
    for y in 0..12usize {
        for x in 0..14usize {
            let spot = (x == 3 || x == 8) && (y == 3 || y == 7);
            assert_eq!(tiles[y][x], if spot { COLUMN } else { before[y][x] });
        }
    }
}

#[test]
fn a_coin_decides_on_the_columns() {
    let mut with = 0;
    let mut without = 0;
    for _ in 0..200 {
        let mut tiles = grid_of(14, 12, Tile::Empty);
        let room = built_room(&mut tiles, 1, 1, 9, 8);
        let plain = tiles.clone();
        let mut pillared = tiles.clone();
        room.stamp_columns(&mut pillared);
        room.place_columns(&mut tiles);
        if tiles == pillared {
            with += 1;
        } else {
            assert_eq!(tiles, plain);
            without += 1;
        }
    }
    assert!(with > 0 && without > 0);
}

#[test]
fn the_obelisk_stands_in_the_middle() {
    let mut tiles = grid_of(14, 12, Tile::Empty);
    let room = built_room(&mut tiles, 1, 1, 9, 8);
    let before = tiles.clone();
    room.place_obelisk(&mut tiles);
    for y in 0..12usize {
        for x in 0..14usize {
            assert_eq!(tiles[y][x], if (x, y) == (5, 5) { OBELISK } else { before[y][x] });
        }
    }
}

#[test]
fn entrances_are_floor_cells_in_the_walls() {
    let mut tiles = grid_of(12, 10, Tile::Empty);
    let room = built_room(&mut tiles, 2, 2, 5, 4);
    assert!(room.find_room_entrances(&tiles).is_empty());
    tiles[2][4] = FLOOR;
    tiles[6][3] = FLOOR;
    tiles[6][4] = FLOOR;
    tiles[4][2] = FLOOR;
    tiles[3][7] = FLOOR;
    tiles[5][7] = Tile::Door { visible: false, open: true };
    // The two openings side by side in the bottom wall have no wall between
    // them and are no entrances.
    assert_eq!(
        room.find_room_entrances(&tiles),
        vec![Point::new(4, 2), Point::new(7, 3), Point::new(2, 4)]
    );
}

#[test]
fn the_edge_of_the_grid_counts_as_a_wall_beside_an_entrance() {
    let mut tiles = grid_of(4, 4, FLOOR);
    let room = Room::new(Point::new(0, 0), 3, 3);
    tiles[0][1] = WALL;
    tiles[1][0] = WALL;
    // The corner is open both ways and is listed for both.
    assert_eq!(room.find_room_entrances(&tiles)[..2], [Point::new(0, 0), Point::new(0, 0)]);
}

#[test]
fn doors_hang_in_entrances_only() {
    let mut hung = 0;
    let mut left_open = 0;
    for _ in 0..100 {
        let mut tiles = grid_of(12, 10, Tile::Empty);
        let room = built_room(&mut tiles, 2, 2, 5, 4);
        tiles[2][4] = FLOOR;
        tiles[4][2] = FLOOR;
        let before = tiles.clone();
        room.place_doors(&mut tiles);
        for y in 0..10usize {
            for x in 0..12usize {
                if tiles[y][x] != before[y][x] {
                    assert!((x, y) == (4, 2) || (x, y) == (2, 4));
                    assert_eq!(tiles[y][x], DOOR);
                    hung += 1;
                } else if (x, y) == (4, 2) || (x, y) == (2, 4) {
                    left_open += 1;
                }
            }
        }
    }
    assert!(hung > 0 && left_open > 0);
}

#[test]
fn the_die_decides_the_kind_of_room() {
    let kinds = |entrances: usize| -> Vec<RoomType> { (0..10).map(|roll| classify(entrances, roll)).collect() };
    let (normal, obelisk, secret) = (RoomType::Normal, RoomType::Obelisk, RoomType::Secret);
    assert_eq!(
        kinds(1),
        vec![obelisk, obelisk, obelisk, obelisk, obelisk, obelisk, obelisk, secret, secret, normal]
    );
    for entrances in [0, 2, 3, 17] {
        assert_eq!(
            kinds(entrances),
            vec![obelisk, obelisk, obelisk, secret, secret, secret, secret, normal, normal, normal]
        );
    }
}

#[test]
fn a_room_is_given_every_kind_in_time() {
    let mut tiles = grid_of(12, 10, Tile::Empty);
    let mut room = built_room(&mut tiles, 2, 2, 5, 4);
    let before = tiles.clone();
    let mut seen = Vec::new();
    for _ in 0..300 {
        room.determine_room_type(&tiles);
        if !seen.contains(&room.room_type) {
            seen.push(room.room_type);
        }
        assert_eq!(room.location, Point::new(2, 2));
        assert_eq!((room.width, room.height), (5, 4));
    }
    assert_eq!(seen.len(), 3);
    assert_eq!(tiles, before);
}

#[test]
fn places_for_a_secret_lie_beside_columns() {
    let mut tiles = grid_of(14, 12, Tile::Empty);
    let room = built_room(&mut tiles, 1, 1, 9, 8);
    assert!(room.secret_spots(&tiles).is_empty());
    tiles[4][4] = COLUMN;
    let mut spots = room.secret_spots(&tiles);
    spots.sort_by_key(|p| (p.y, p.x));
    assert_eq!(
        spots,
        vec![Point::new(4, 3), Point::new(3, 4), Point::new(5, 4), Point::new(4, 5)]
    );
    // A column in the corner of the interior has two floor cells of the
    // interior beside it.
    let mut tiles = grid_of(14, 12, Tile::Empty);
    let room = built_room(&mut tiles, 1, 1, 9, 8);
    tiles[2][2] = COLUMN;
    let mut spots = room.secret_spots(&tiles);
    spots.sort_by_key(|p| (p.y, p.x));
    assert_eq!(spots, vec![Point::new(3, 2), Point::new(2, 3)]);
}

#[test]
fn a_secret_hides_beside_a_column_if_there_is_one() {
    let mut rarities = Vec::new();
    for _ in 0..100 {
        let mut tiles = grid_of(14, 12, Tile::Empty);
        let room = built_room(&mut tiles, 1, 1, 9, 8);
        room.stamp_columns(&mut tiles);
        let before = tiles.clone();
        let spots = room.secret_spots(&tiles);
        room.place_secret(&mut tiles, true);
        let mut changed = Vec::new();
        for y in 0..12usize {
            for x in 0..14usize {
                if tiles[y][x] != before[y][x] {
                    changed.push(Point::new(x, y));
                }
            }
        }
        assert_eq!(changed.len(), 1);
        let at = changed[0];
        assert!(spots.contains(&at));
        match tiles[at.y][at.x] {
            Tile::Secret { visible: false, rarity } => {
                assert!(rarity == 100 || rarity == 1000);
                if !rarities.contains(&rarity) {
                    rarities.push(rarity);
                }
            }
            other => panic!("not a hidden secret: {:?}", other),
        }
    }
    assert!(rarities.contains(&100));
}

#[test]
fn a_secret_hides_anywhere_inside_a_room_without_columns() {
    let mut rarities = std::collections::BTreeSet::new();
    let mut places = std::collections::BTreeSet::new();
    for _ in 0..200 {
        let mut tiles = grid_of(14, 12, Tile::Empty);
        let room = built_room(&mut tiles, 1, 1, 9, 8);
        let before = tiles.clone();
        room.place_secret(&mut tiles, false);
        let mut changed = Vec::new();
        for y in 0..12usize {
            for x in 0..14usize {
                if tiles[y][x] != before[y][x] {
                    changed.push((x, y));
                }
            }
        }
        assert_eq!(changed.len(), 1);
        let (x, y) = changed[0];
        assert!(interior(&room, x, y));
        places.insert((x, y));
        match tiles[y][x] {
            Tile::Secret { visible: false, rarity } => {
                assert!(matches!(rarity, 1 | 10 | 100));
                rarities.insert(rarity);
            }
            other => panic!("not a hidden secret: {:?}", other),
        }
    }
    assert_eq!(rarities.len(), 3);
    assert!(places.len() > 1);
}

#[test]
fn a_secret_and_creatures_take_floor_cells_only() {
    for _ in 0..50 {
        let mut tiles = grid_of(14, 12, WALL);
        let room = Room::new(Point::new(1, 1), 9, 8);
        tiles[4][5] = FLOOR;
        tiles[6][3] = FLOOR;
        assert_eq!(room.floor_spots(&tiles), vec![Point::new(5, 4), Point::new(3, 6)]);
        let mut expected = tiles.clone();
        room.place_mobs(&mut tiles);
        let mut taken = 0;
        for (x, y) in [(5, 4), (3, 6)] {
            if tiles[y][x] != FLOOR {
                assert!(is_room_mob(&tiles[y][x]));
                expected[y][x] = tiles[y][x];
                taken += 1;
            }
        }
        assert!(taken >= 1);
        assert_eq!(tiles, expected);
        room.place_secret(&mut tiles, true);
        room.place_brute(&mut tiles);
        room.place_mobs(&mut tiles);
        // By now both floor cells are taken, whatever was drawn.
        assert!(room.floor_spots(&tiles).is_empty());
        let full = tiles.clone();
        room.place_secret(&mut tiles, false);
        room.place_brute(&mut tiles);
        assert_eq!(tiles, full);
        for y in 0..12usize {
            for x in 0..14usize {
                if (x, y) != (5, 4) && (x, y) != (3, 6) {
                    assert_eq!(tiles[y][x], WALL);
                }
            }
        }
    }
}

#[test]
fn a_room_without_an_interior_gets_no_secret_and_no_creatures() {
    for (width, height) in [(0, 0), (1, 5), (2, 2), (5, 2)] {
        let mut tiles = grid_of(12, 12, Tile::Empty);
        let room = built_room(&mut tiles, 2, 2, width, height);
        let before = tiles.clone();
        room.place_secret(&mut tiles, false);
        room.place_secret(&mut tiles, true);
        room.place_mobs(&mut tiles);
        room.place_brute(&mut tiles);
        assert!(!room.place_mob(&mut tiles, mob_tile(MobType::Bat)));
        assert_eq!(tiles, before);
    }
}

#[test]
fn creatures_of_a_room() {
    assert_eq!(mob_type_for(0), MobType::Wither);
    assert_eq!(mob_type_for(1), MobType::Bat);
    assert_eq!(mob_type_for(2), MobType::Brute);
    assert_eq!(mob_tile(MobType::Wither), Tile::Wither { visible: false, hp: 50, damage: 10, fov: 6 });
    assert_eq!(mob_tile(MobType::Bat), Tile::Bat { visible: false, hp: 20, damage: 5, fov: 8 });
    assert_eq!(mob_tile(MobType::Brute), Tile::Brute { visible: false, hp: 80, damage: 15, fov: 4 });
}

#[test]
fn one_to_three_creatures_stand_on_floor_inside_the_room() {
    let mut counts = std::collections::BTreeSet::new();
    let mut kinds = std::collections::BTreeSet::new();
    for _ in 0..200 {
        let mut tiles = grid_of(14, 12, Tile::Empty);
        let room = built_room(&mut tiles, 1, 1, 9, 8);
        let before = tiles.clone();
        room.place_mobs(&mut tiles);
        let mut count = 0;
        for y in 0..12usize {
            for x in 0..14usize {
                if tiles[y][x] != before[y][x] {
                    assert!(interior(&room, x, y));
                    assert_eq!(before[y][x], FLOOR);
                    assert!(is_room_mob(&tiles[y][x]));
                    kinds.insert(tiles[y][x].with_visibility(true).as_char());
                    count += 1;
                }
            }
        }
        assert!((1..=3).contains(&count));
        counts.insert(count);
    }
    assert_eq!(counts.len(), 3);
    assert_eq!(kinds.len(), 3);
}

#[test]
fn a_creature_that_finds_no_floor_is_left_out() {
    let mut tiles = grid_of(14, 12, WALL);
    let room = Room::new(Point::new(1, 1), 9, 8);
    let before = tiles.clone();
    room.place_mobs(&mut tiles);
    room.place_brute(&mut tiles);
    assert_eq!(tiles, before);
}

#[test]
fn the_guard_of_a_secret_room() {
    let mut tiles = grid_of(14, 12, Tile::Empty);
    let room = built_room(&mut tiles, 1, 1, 9, 8);
    let before = tiles.clone();
    room.place_brute(&mut tiles);
    let mut count = 0;
    for y in 0..12usize {
        for x in 0..14usize {
            if tiles[y][x] != before[y][x] {
                assert!(interior(&room, x, y));
                assert_eq!(tiles[y][x], Tile::Brute { visible: false, hp: 20, damage: 10, fov: 4 });
                count += 1;
            }
        }
    }
    assert_eq!(count, 1);
}

#[test]
fn a_room_builds_itself_inside_its_footprint() {
    let mut kinds = Vec::new();
    for _ in 0..200 {
        let mut tiles = grid_of(16, 14, Tile::Empty);
        tiles[0][0] = Tile::Pit { visible: true };
        let mut room = Room::new(Point::new(2, 3), 9, 7);
        room.populate(&mut tiles);
        assert_eq!(room.location, Point::new(2, 3));
        assert_eq!((room.width, room.height), (9, 7));
        if !kinds.contains(&room.room_type) {
            kinds.push(room.room_type);
        }
        for y in 0..14usize {
            for x in 0..16usize {
                if covers(&room, x, y) {
                    assert!(is_generated(&tiles[y][x]), "{:?} at ({}, {})", tiles[y][x], x, y);
                    let on_wall = x == 2 || x == 11 || y == 3 || y == 10;
                    if on_wall {
                        assert_eq!(tiles[y][x], WALL);
                    }
                } else if (x, y) == (0, 0) {
                    assert_eq!(tiles[y][x], Tile::Pit { visible: true });
                } else {
                    assert_eq!(tiles[y][x], Tile::Empty);
                }
            }
        }
        if room.room_type == RoomType::Obelisk {
            assert_eq!(tiles[6][6], OBELISK);
        }
    }
    assert_eq!(kinds.len(), 3);
}

#[test]
fn a_tree_at_its_depth_or_too_small_stays_a_leaf() {
    let mut node = BSPNode::new(0, 0, 100, 100);
    split_node(&mut node, 5, 3, 3);
    assert!(node.is_leaf());
    let mut small = BSPNode::new(0, 0, 9, 9);
    split_node(&mut small, 5, 5, 0);
    assert!(small.is_leaf());
    assert!(small.room.is_none());
}

fn check_partition(node: &BSPNode, min_size: usize, depth_left: usize) -> usize {
    match (&node.left, &node.right) {
        (None, None) => 1,
        (Some(first), Some(second)) => {
            assert!(depth_left > 0);
            assert_eq!((first.x, first.y), (node.x, node.y));
            let side_by_side = first.height == node.height
                && second.height == node.height
                && second.y == node.y
                && second.x == node.x + first.width
                && first.width + second.width == node.width;
            let stacked = first.width == node.width
                && second.width == node.width
                && second.x == node.x
                && second.y == node.y + first.height
                && first.height + second.height == node.height;
            assert!(side_by_side || stacked);
            if side_by_side {
                assert!(first.width >= min_size && second.width >= min_size);
            } else {
                assert!(first.height >= min_size && second.height >= min_size);
            }
            assert!(node.room.is_none());
            check_partition(first, min_size, depth_left - 1)
                + check_partition(second, min_size, depth_left - 1)
        }
        _ => panic!("a node with one child"),
    }
}

#[test]
fn splitting_cuts_every_rectangle_in_two() {
    let mut most = 0;
    for _ in 0..50 {
        let mut root = BSPNode::new(3, 4, 120, 60);
        split_node(&mut root, 6, 5, 0);
        assert_eq!((root.x, root.y, root.width, root.height), (3, 4, 120, 60));
        let leaves = check_partition(&root, 6, 5);
        assert!(leaves >= 2 && leaves <= 32);
        most = most.max(leaves);
    }
    assert!(most > 2);
}

#[test]
fn a_rectangle_that_can_be_cut_one_way_only_is_cut_that_way() {
    for _ in 0..20 {
        let mut wide = BSPNode::new(0, 0, 40, 7);
        split_node(&mut wide, 5, 1, 0);
        let first = wide.left.as_ref().unwrap();
        assert_eq!(first.height, 7);
        assert!((5..=35).contains(&first.width));
        let mut tall = BSPNode::new(0, 0, 7, 40);
        split_node(&mut tall, 5, 1, 0);
        let first = tall.left.as_ref().unwrap();
        assert_eq!(first.width, 7);
        assert!((5..=35).contains(&first.height));
    }
}

#[test]
fn a_coin_decides_which_way_a_square_is_cut() {
    let mut side_by_side = 0;
    let mut stacked = 0;
    for _ in 0..200 {
        let mut square = BSPNode::new(0, 0, 40, 40);
        split_node(&mut square, 5, 1, 0);
        let first = square.left.as_ref().unwrap();
        if first.height == 40 {
            side_by_side += 1;
        } else {
            assert_eq!(first.width, 40);
            stacked += 1;
        }
    }
    assert!(side_by_side > 0 && stacked > 0);
}

#[test]
fn the_place_of_the_cut_is_drawn() {
    let mut widths = std::collections::BTreeSet::new();
    for _ in 0..100 {
        let mut wide = BSPNode::new(0, 0, 40, 7);
        split_node(&mut wide, 5, 1, 0);
        widths.insert(wide.left.as_ref().unwrap().width);
    }
    assert!(widths.len() > 1);
}

#[test]
fn cutting_a_rectangle_by_hand() {
    let node = BSPNode::new(3, 4, 20, 10);
    let (first, second) = node.cut(true, 8);
    assert_eq!((first.x, first.y, first.width, first.height), (3, 4, 8, 10));
    assert_eq!((second.x, second.y, second.width, second.height), (11, 4, 12, 10));
    let (first, second) = node.cut(false, 10);
    assert_eq!((first.x, first.y, first.width, first.height), (3, 4, 20, 10));
    assert_eq!((second.x, second.y, second.width, second.height), (3, 14, 20, 0));
    assert!(first.is_leaf() && second.is_leaf() && first.room.is_none());
}

#[test]
fn a_leaf_holds_a_room_with_the_padding_to_spare() {
    let mut sizes = std::collections::BTreeSet::new();
    for _ in 0..100 {
        let mut leaf = BSPNode::new(10, 20, 30, 12);
        let mut rooms = Vec::new();
        collect_rooms_in_node(&mut leaf, &mut rooms, 5, 9);
        assert_eq!(rooms.len(), 1);
        let room = rooms[0];
        assert_eq!(leaf.room, Some(room));
        assert!((5..=9).contains(&room.width));
        assert!((5..=8).contains(&room.height));
        assert!(room.location.x >= 12 && room.location.x + room.width + 2 <= 40);
        assert!(room.location.y >= 22 && room.location.y + room.height + 2 <= 32);
        assert_eq!(room.room_type, RoomType::Normal);
        sizes.insert((room.width, room.height, room.location.x));
    }
    assert!(sizes.len() > 1);
}

#[test]
fn a_leaf_that_is_too_small_holds_no_room() {
    for (width, height, min, max) in [(8, 30, 5, 9), (30, 8, 5, 9), (3, 3, 0, 9), (30, 30, 9, 5), (0, 0, 0, 0)] {
        let mut leaf = BSPNode::new(0, 0, width, height);
        let mut rooms = vec![Room::new(Point::new(1, 1), 1, 1)];
        collect_rooms_in_node(&mut leaf, &mut rooms, min, max);
        assert_eq!(rooms.len(), 1);
        assert!(leaf.room.is_none());
    }
}

#[test]
fn the_rooms_of_a_tree_are_listed_leaf_by_leaf() {
    let mut root = BSPNode::new(0, 0, 40, 20);
    let mut first = BSPNode::new(0, 0, 20, 20);
    first.left = Some(Box::new(BSPNode::new(0, 0, 20, 10)));
    first.right = Some(Box::new(BSPNode::new(0, 10, 20, 10)));
    root.left = Some(Box::new(first));
    root.right = Some(Box::new(BSPNode::new(20, 0, 20, 20)));
    assert!(root.get_room_in_subtree().is_none());
    let mut rooms = Vec::new();
    collect_rooms_in_node(&mut root, &mut rooms, 4, 6);
    assert_eq!(rooms.len(), 3);
    assert!(rooms[0].location.y + rooms[0].height + 2 <= 10);
    assert!(rooms[1].location.y >= 12 && rooms[1].location.x + rooms[1].width + 2 <= 20);
    assert!(rooms[2].location.x >= 22);
    assert_eq!(root.get_room_in_subtree(), Some(&rooms[0]));
    assert_eq!(root.right.as_ref().unwrap().get_room_in_subtree(), Some(&rooms[2]));
    assert!(root.room.is_none());
}

#[test]
fn a_corridor_cell_is_floor_with_wall_around_it() {
    let mut tiles = grid_of(5, 5, Tile::Empty);
    tiles[1][1] = Tile::Pit { visible: false };
    tiles[3][2] = FLOOR;
    carve_corridor(&mut tiles, 2, 2);
    let expected = vec![
        vec![Tile::Empty; 5],
        vec![Tile::Empty, Tile::Pit { visible: false }, WALL, WALL, Tile::Empty],
        vec![Tile::Empty, WALL, FLOOR, WALL, Tile::Empty],
        vec![Tile::Empty, WALL, FLOOR, WALL, Tile::Empty],
        vec![Tile::Empty; 5],
    ];
    assert_eq!(tiles, expected);
}

#[test]
fn a_corridor_cell_overwrites_what_it_steps_on() {
    let mut tiles = grid_of(3, 3, WALL);
    tiles[1][1] = OBELISK;
    carve_corridor(&mut tiles, 1, 1);
    let mut expected = grid_of(3, 3, WALL);
    expected[1][1] = FLOOR;
    assert_eq!(tiles, expected);
}

#[test]
fn a_corridor_cell_in_the_corner_of_the_grid() {
    let mut tiles = grid_of(3, 3, Tile::Empty);
    carve_corridor(&mut tiles, 0, 0);
    carve_corridor(&mut tiles, 2, 2);
    let expected = vec![
        vec![FLOOR, WALL, Tile::Empty],
        vec![WALL, WALL, WALL],
        vec![Tile::Empty, WALL, FLOOR],
    ];
    assert_eq!(tiles, expected);
}

#[test]
fn two_rooms_are_joined_by_a_walk() {
    for _ in 0..50 {
        let mut tiles = grid_of(30, 14, Tile::Empty);
        let first = built_room(&mut tiles, 2, 2, 5, 5);
        let second = built_room(&mut tiles, 21, 6, 5, 5);
        let before = tiles.clone();
        drunken_walk_corridor(&mut tiles, first.center(), second.center());
        let seen = flood(&tiles, first.center(), walkable);
        assert!(seen[second.center().y][second.center().x]);
        let seen = flood(&tiles, first.center(), floor_or_door);
        assert!(seen[second.center().y][second.center().x]);
        for y in 0..14usize {
            for x in 0..30usize {
                let carved = tiles[y][x] == before[y][x]
                    || tiles[y][x] == FLOOR
                    || (before[y][x] == Tile::Empty && tiles[y][x] == WALL);
                assert!(carved, "at ({}, {})", x, y);
            }
        }
    }
}

#[test]
fn a_walk_stays_between_its_ends() {
    for _ in 0..50 {
        let mut tiles = grid_of(20, 20, Tile::Empty);
        drunken_walk_corridor(&mut tiles, Point::new(15, 4), Point::new(6, 12));
        let mut floors = 0;
        for y in 0..20usize {
            for x in 0..20usize {
                if tiles[y][x] == FLOOR {
                    assert!((6..=15).contains(&x) && (4..=12).contains(&y));
                    floors += 1;
                }
            }
        }
        // One cell for every step of the nine columns and eight rows; the
        // last cell is left alone.
        assert_eq!(floors, 17);
        assert_eq!(tiles[12][6], WALL);
        assert!(joined(&tiles, Point::new(15, 4), Point::new(6, 12)));
    }
}

#[test]
fn the_steps_of_a_walk() {
    let end = Point::new(5, 5);
    assert_eq!(step(Point::new(2, 7), end, true), Point::new(3, 7));
    assert_eq!(step(Point::new(9, 7), end, true), Point::new(8, 7));
    assert_eq!(step(Point::new(5, 7), end, true), Point::new(5, 7));
    assert_eq!(step(Point::new(2, 7), end, false), Point::new(2, 6));
    assert_eq!(step(Point::new(2, 1), end, false), Point::new(2, 2));
    assert_eq!(step(end, end, false), end);
    assert!(is_level_with(Point::new(5, 7), end, true));
    assert!(!is_level_with(Point::new(5, 7), end, false));
    assert!(is_level_with(Point::new(1, 5), end, false));
}

#[test]
fn a_door_hung_by_hand() {
    let mut tiles = grid_of(3, 1, FLOOR);
    tiles[0][2] = WALL;
    hang_door(&mut tiles, Point::new(0, 0), false);
    assert_eq!(tiles[0][0], FLOOR);
    hang_door(&mut tiles, Point::new(0, 0), true);
    hang_door(&mut tiles, Point::new(9, 9), true);
    assert_eq!(tiles[0], vec![DOOR, FLOOR, WALL]);
}

#[test]
fn a_walk_from_a_cell_to_itself_carves_nothing() {
    let mut tiles = grid_of(5, 5, Tile::Empty);
    drunken_walk_corridor(&mut tiles, Point::new(2, 3), Point::new(2, 3));
    assert_eq!(tiles, grid_of(5, 5, Tile::Empty));
}

#[test]
fn the_corridors_of_a_tree_join_its_rooms() {
    for _ in 0..30 {
        let mut root = BSPNode::new(0, 0, 60, 30);
        split_node(&mut root, 9, 3, 0);
        let mut rooms = Vec::new();
        collect_rooms_in_node(&mut root, &mut rooms, 4, 8);
        let mut tiles = grid_of(60, 30, Tile::Empty);
        for room in rooms.iter_mut() {
            room.fill_with_floor(&mut tiles);
            room.surround_with_walls(&mut tiles);
            room.place_obelisk(&mut tiles);
        }
        connect_rooms_bsp(&mut tiles, &root);
        assert!(rooms.len() >= 2);
        for room in &rooms {
            assert!(joined(&tiles, rooms[0].center(), room.center()));
        }
    }
}

fn check_dungeon(generator: &MapGenerator, width: usize, height: usize, min: usize, max: usize) {
    let tiles = generator.get_dungeon();
    let rooms = generator.get_rooms();
    assert_eq!(tiles.len(), height);
    for row in tiles {
        assert_eq!(row.len(), width);
        for tile in row {
            assert!(*tile == Tile::Empty || is_generated(tile), "{:?}", tile);
        }
    }
    for room in rooms {
        assert!(min <= room.width && room.width <= max);
        assert!(min <= room.height && room.height <= max);
        assert!(room.location.x >= 2 && room.location.x + room.width + 2 <= width);
        assert!(room.location.y >= 2 && room.location.y + room.height + 2 <= height);
        assert!(joined(tiles, rooms[0].center(), room.center()));
    }
    for (i, a) in rooms.iter().enumerate() {
        for (j, b) in rooms.iter().enumerate() {
            if i != j {
                let apart = a.location.x + a.width + 4 <= b.location.x
                    || b.location.x + b.width + 4 <= a.location.x
                    || a.location.y + a.height + 4 <= b.location.y
                    || b.location.y + b.height + 4 <= a.location.y;
                assert!(apart, "{:?} and {:?}", a, b);
            }
        }
    }
}

#[test]
fn a_new_generator_holds_an_empty_grid() {
    let generator = MapGenerator::new(7, 3);
    assert_eq!(*generator.get_dungeon(), grid_of(7, 3, Tile::Empty));
    assert!(generator.get_rooms().is_empty());
    let none = MapGenerator::new(0, 0);
    assert!(none.get_dungeon().is_empty());
    let flat = MapGenerator::new(5, 0);
    assert!(flat.get_dungeon().is_empty());
}

#[test]
fn a_generated_dungeon_has_rooms_apart_and_joined() {
    let mut most = 0;
    for _ in 0..40 {
        let mut generator = MapGenerator::new(80, 40);
        generator.generate(5, 12);
        check_dungeon(&generator, 80, 40, 5, 12);
        most = most.max(generator.get_rooms().len());
    }
    assert!(most >= 2);
}

/// Checks, at every node with two halves that both hold rooms, that the
/// first rooms of the halves are joined; returns the rooms of the tree.
fn check_links(node: &BSPNode, tiles: &GameMapTiles) -> Vec<Room> {
    let mut rooms: Vec<Room> = node.room.iter().copied().collect();
    if let (Some(first), Some(second)) = (&node.left, &node.right) {
        let left = check_links(first, tiles);
        let right = check_links(second, tiles);
        if let (Some(a), Some(b)) = (left.first(), right.first()) {
            assert!(joined(tiles, a.center(), b.center()), "{:?} and {:?}", a, b);
            assert_eq!(first.get_room_in_subtree(), Some(a));
            assert_eq!(second.get_room_in_subtree(), Some(b));
        }
        rooms.extend(left);
        rooms.extend(right);
    }
    rooms
}

#[test]
fn the_rooms_of_the_two_halves_of_every_cut_are_joined() {
    let fresh = MapGenerator::new(70, 40);
    assert!(fresh.get_bsp_root().is_none());
    for _ in 0..30 {
        let mut generator = MapGenerator::new(70, 40);
        generator.generate(4, 10);
        let root = generator.get_bsp_root().as_ref().unwrap();
        assert_eq!((root.x, root.y, root.width, root.height), (0, 0, 70, 40));
        check_partition(root, 4, 5);
        let rooms = check_links(root, generator.get_dungeon());
        assert_eq!(rooms.len(), generator.get_rooms().len());
        for (planned, built) in rooms.iter().zip(generator.get_rooms()) {
            assert_eq!(planned.location, built.location);
            assert_eq!((planned.width, planned.height), (built.width, built.height));
        }
    }
}

fn on_edge(room: &Room, x: usize, y: usize) -> bool {
    covers(room, x, y)
        && (x == room.location.x
            || x == room.location.x + room.width
            || y == room.location.y
            || y == room.location.y + room.height)
}

#[test]
fn building_all_rooms_leaves_every_room_whole() {
    for _ in 0..20 {
        let mut generator = MapGenerator::new(80, 40);
        generator.generate(5, 12);
        let planned = generator.get_rooms().clone();
        generator.fill_with_empty();
        generator.populate_all_rooms();
        let rooms = generator.get_rooms();
        let tiles = generator.get_dungeon();
        assert_eq!(rooms.len(), planned.len());
        for (room, plan) in rooms.iter().zip(&planned) {
            assert_eq!(room.location, plan.location);
            assert_eq!((room.width, room.height), (plan.width, plan.height));
            if room.room_type == RoomType::Obelisk {
                assert_eq!(tiles[room.center().y][room.center().x], OBELISK);
            }
        }
        for y in 0..40usize {
            for x in 0..80usize {
                match rooms.iter().find(|room| covers(room, x, y)) {
                    Some(room) => {
                        assert!(is_generated(&tiles[y][x]));
                        if on_edge(room, x, y) {
                            assert_eq!(tiles[y][x], WALL, "at ({}, {})", x, y);
                        }
                    }
                    None => assert_eq!(tiles[y][x], Tile::Empty),
                }
            }
        }
    }
}

#[test]
fn doors_are_hung_in_the_entrances_of_rooms_only() {
    let mut hung = 0;
    for _ in 0..40 {
        let mut generator = MapGenerator::new(80, 40);
        generator.generate(5, 12);
        let before = generator.get_dungeon().clone();
        let rooms = generator.get_rooms().clone();
        generator.place_all_room_doors();
        assert_eq!(*generator.get_rooms(), rooms);
        let after = generator.get_dungeon();
        let wall_at = |x: usize, y: usize| matches!(before[y][x], Tile::Wall { .. });
        for y in 0..40usize {
            for x in 0..80usize {
                if after[y][x] != before[y][x] {
                    assert_eq!(before[y][x], FLOOR);
                    assert_eq!(after[y][x], DOOR);
                    let room = rooms.iter().find(|room| on_edge(room, x, y)).unwrap();
                    let across = (y == room.location.y || y == room.location.y + room.height)
                        && wall_at(x - 1, y)
                        && wall_at(x + 1, y);
                    let along = (x == room.location.x || x == room.location.x + room.width)
                        && wall_at(x, y - 1)
                        && wall_at(x, y + 1);
                    assert!(across || along, "at ({}, {})", x, y);
                    hung += 1;
                }
            }
        }
    }
    assert!(hung > 0);
}

#[test]
fn a_large_dungeon() {
    let mut generator = MapGenerator::new(300, 120);
    let rooms = generator.generate(5, 20).get_rooms().len();
    assert!(rooms >= 1 && rooms <= 32);
    check_dungeon(&generator, 300, 120, 5, 20);
}

#[test]
fn generating_again_starts_afresh() {
    let mut generator = MapGenerator::new(60, 30);
    generator.generate(4, 8);
    check_dungeon(&generator, 60, 30, 4, 8);
    generator.generate(6, 7);
    check_dungeon(&generator, 60, 30, 6, 7);
    generator.fill_with_empty();
    assert_eq!(*generator.get_dungeon(), grid_of(60, 30, Tile::Empty));
}

#[test]
fn a_grid_that_is_too_small_gets_no_rooms() {
    for (width, height, min, max) in
        [(0, 0, 5, 20), (1, 1, 5, 20), (8, 8, 5, 20), (40, 3, 5, 20), (40, 40, 30, 5), (12, 12, 0, 0)]
    {
        for _ in 0..10 {
            let mut generator = MapGenerator::new(width, height);
            generator.generate(min, max);
            check_dungeon(&generator, width, height, min, max);
            if (min, max) != (0, 0) {
                assert!(generator.get_rooms().is_empty());
                assert_eq!(*generator.get_dungeon(), grid_of(width, height, Tile::Empty));
            }
        }
    }
}

#[test]
fn the_smallest_rooms_do_not_break_the_generator() {
    for _ in 0..40 {
        let mut generator = MapGenerator::new(30, 20);
        generator.generate(0, 3);
        let tiles = generator.get_dungeon();
        assert_eq!(tiles.len(), 20);
        assert!(tiles.iter().all(|row| row.len() == 30));
        for room in generator.get_rooms() {
            assert!(room.width <= 3 && room.height <= 3);
            assert!(joined(tiles, generator.get_rooms()[0].center(), room.center()));
        }
        let mut generator = MapGenerator::new(30, 20);
        generator.generate(1, 2);
        assert_eq!(generator.get_dungeon().len(), 20);
    }
}

#[test]
fn the_text_of_a_dungeon() {
    let generator = MapGenerator::new(3, 2);
    let plain: Vec<String> = generator.render(false).iter().map(|l| l.iter().collect()).collect();
    assert_eq!(plain, vec!["   ", "   "]);
    let framed: Vec<String> = generator.render(true).iter().map(|l| l.iter().collect()).collect();
    assert_eq!(framed, vec!["---", "|   |", "|   |", "---"]);
    let row = vec![WALL, FLOOR, DOOR, Tile::Player { is_dead: false, is_cursed: false }];
    assert_eq!(row_line(&row, false).iter().collect::<String>(), "#·/@");
    assert_eq!(row_line(&row, true).iter().collect::<String>(), "|#·/@|");
    assert_eq!(dash_line(0).len(), 0);
    assert_eq!(dash_line(4).iter().collect::<String>(), "----");
}
