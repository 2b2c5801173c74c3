use rustyrogue::game::{direction_at, step_within, Game, MessageType};
use rustyrogue::map::types::{GameMapTiles, Point};
use rustyrogue::map::GameMap;
use rustyrogue::tile::Tile;

const PLAYER: Tile = Tile::Player { is_dead: false, is_cursed: false };

fn read(rows: &[&str]) -> GameMapTiles {
    rows.iter()
        .map(|row| row.chars().map(|c| Tile::from_char_with_rarity(c, 10)).collect())
        .collect()
}

fn game_on(rows: &[&str]) -> Game {
    Game::new(GameMap::from_tiles(read(rows)))
}

fn messages(game: &Game) -> Vec<(String, MessageType)> {
    game.get_game_log_messages()
        .iter()
        .map(|m| (m.message.clone(), m.message_type))
        .collect()
}

fn glyph_at(game: &Game, x: usize, y: usize) -> char {
    game.get_map()[y][x].as_char()
}

#[test]
fn a_new_game_has_played_its_first_turn() {
    let game = game_on(&["#####", "#.@.#", "#####"]);
    assert_eq!(game.get_player_position(), Point::new(2, 1));
    assert_eq!(game.get_player().exp, 1);
    assert_eq!(game.get_player().level, 1);
    assert!(!game.is_game_over());
    assert!(game.get_game_log_messages().is_empty());
    assert!(game.get_log_messages().is_empty());
    // The walls and floor around the player are in view.
    assert_eq!(game.get_map()[0][2], Tile::Wall { visible: true });
    assert_eq!(game.get_map()[1][1], Tile::Floor { visible: true, cursed: false });
    assert_eq!(game.get_map()[1][2], PLAYER);
}

#[test]
fn without_a_player_on_the_map_the_game_starts_in_the_corner() {
    let game = game_on(&["...", "..."]);
    assert_eq!(game.get_player_position(), Point::new(0, 0));
    assert_eq!(game.get_map()[0][0], Tile::Floor { visible: true, cursed: false });
}

#[test]
fn a_step_moves_the_player_and_puts_the_floor_back() {
    let mut game = game_on(&["#####", "#.@.#", "#####"]);
    game.move_player(1, 0);
    assert_eq!(game.get_player_position(), Point::new(3, 1));
    assert_eq!(game.get_map()[1][3], PLAYER);
    assert_eq!(game.get_map()[1][2], Tile::Floor { visible: true, cursed: false });
    assert_eq!(game.get_player().exp, 2);
    game.move_player(-1, 0);
    game.move_player(-1, 0);
    assert_eq!(game.get_player_position(), Point::new(1, 1));
    assert_eq!(glyph_at(&game, 3, 1), '·');
    assert_eq!(game.get_player().exp, 4);
    assert!(game.get_game_log_messages().is_empty());
}

#[test]
fn a_wall_stops_the_player_and_the_log_says_so() {
    let mut game = game_on(&["#####", "#.@.#", "#####"]);
    game.move_player(0, -1);
    assert_eq!(game.get_player_position(), Point::new(2, 1));
    assert_eq!(game.get_player().exp, 1);
    assert_eq!(messages(&game), vec![("You can't walk there.".to_string(), MessageType::Info)]);
}

#[test]
fn steps_stop_at_the_edge_of_the_map() {
    let mut game = game_on(&["@..", "..."]);
    game.move_player(-1, -1);
    assert_eq!(game.get_player_position(), Point::new(0, 0));
    game.move_player(5, 5);
    assert_eq!(game.get_player_position(), Point::new(2, 1));
    game.move_player(i32::MIN, i32::MAX);
    assert_eq!(game.get_player_position(), Point::new(0, 1));
    assert_eq!(game.get_map()[1][0], PLAYER);
    assert_eq!(glyph_at(&game, 2, 1), '·');
    assert_eq!(glyph_at(&game, 0, 0), '·');
}

#[test]
fn steps_within_a_range() {
    assert_eq!(step_within(4, 1, 10), 5);
    assert_eq!(step_within(4, -1, 10), 3);
    assert_eq!(step_within(0, -1, 10), 0);
    assert_eq!(step_within(9, 1, 10), 9);
    assert_eq!(step_within(30, -1, 10), 9);
    assert_eq!(step_within(3, 1, 0), 0);
    assert_eq!(step_within(usize::MAX, i32::MAX, usize::MAX), usize::MAX - 1);
    assert_eq!(step_within(usize::MAX, i32::MIN, usize::MAX), usize::MAX - 2147483648);
}

#[test]
fn the_eight_directions() {
    let all: Vec<(i32, i32)> = (0..8).map(direction_at).collect();
    assert_eq!(
        all,
        vec![(-1, -1), (0, -1), (1, -1), (-1, 0), (1, 0), (-1, 1), (0, 1), (1, 1)]
    );
}

#[test]
fn a_pit_kills_the_player() {
    let mut game = game_on(&["@V."]);
    game.move_player(1, 0);
    assert_eq!(game.get_player_position(), Point::new(1, 0));
    assert!(game.is_game_over());
    assert_eq!(game.get_player().current_hp, 0);
    assert_eq!(messages(&game), vec![("You died!".to_string(), MessageType::Damage)]);
    game.move_player(1, 0);
    assert_eq!(game.get_map()[0][1], Tile::Pit { visible: true });
}

#[test]
fn the_log_keeps_the_last_five_messages() {
    let mut game = game_on(&["@"]);
    for n in 0..7 {
        game.log_info_message(format!("note {}", n));
    }
    game.log_damage_message("ouch".to_string());
    game.log_message("last".to_string(), MessageType::Info);
    assert_eq!(
        messages(&game),
        vec![
            ("note 4".to_string(), MessageType::Info),
            ("note 5".to_string(), MessageType::Info),
            ("note 6".to_string(), MessageType::Info),
            ("ouch".to_string(), MessageType::Damage),
            ("last".to_string(), MessageType::Info),
        ]
    );
    assert_eq!(game.get_log_messages().len(), 5);
}

#[test]
fn interacting_opens_the_first_door_around_the_player() {
    let mut game = game_on(&["#/#", "/@/", "#+#"]);
    game.interact();
    assert_eq!(game.get_map()[0][1], Tile::Door { visible: true, open: true });
    assert_eq!(game.get_map()[1][0], Tile::Door { visible: true, open: false });
    assert_eq!(game.get_player().exp, 2);
    game.interact();
    assert_eq!(game.get_map()[0][1], Tile::Door { visible: true, open: false });
    assert!(game.get_game_log_messages().is_empty());
}

#[test]
fn interacting_with_a_secret_in_view_costs_a_turn() {
    let mut game = game_on(&["@?"]);
    // The first turn has brought the secret into view.
    assert_eq!(game.get_map()[0][1], Tile::Secret { visible: true, rarity: 10 });
    game.interact();
    assert_eq!(game.get_map()[0][1], Tile::Secret { visible: true, rarity: 10 });
    assert_eq!(game.get_player().exp, 2);
    assert!(game.get_game_log_messages().is_empty());
}

#[test]
fn with_nothing_to_interact_with_the_log_says_so() {
    let mut game = game_on(&["...", ".@.", "..."]);
    game.interact();
    assert_eq!(game.get_player().exp, 1);
    assert_eq!(
        messages(&game),
        vec![("No interactable tiles found nearby.".to_string(), MessageType::Info)]
    );
}

#[test]
fn the_curse_of_an_obelisk_in_view_hurts_the_player() {
    let mut game = game_on(&["@..|"]);
    // The first turn has cursed the player, and the obelisk is in view.
    assert_eq!(game.get_map()[0][0], Tile::Player { is_dead: false, is_cursed: true });
    assert_eq!(
        game.get_map()[0][3],
        Tile::Obelisk { visible: true, curse: true, fov: 6, damage_hp: 1, reduce_fov_radius: 3 }
    );
    assert_eq!(game.get_player().current_hp, 1);
    assert_eq!(game.get_player().exp, 0);
    assert_eq!(
        messages(&game),
        vec![("You take 1 damage from the Obelisk curse".to_string(), MessageType::Damage)]
    );
    game.move_player(1, 0);
    assert!(game.is_game_over());
    assert_eq!(game.get_game_log_messages().len(), 2);
    assert_eq!(game.get_map()[0][0], Tile::Floor { visible: true, cursed: true });
}

#[test]
fn a_cursed_player_sees_as_far_as_the_obelisk_allows() {
    let game = game_on(&["@....|"]);
    // The obelisk reaches the player (radius six) and cuts the view to three
    // cells, so that it is out of view itself and does no damage.
    assert_eq!(game.get_map()[0][0], Tile::Player { is_dead: false, is_cursed: true });
    assert_eq!(game.get_map()[0][3], Tile::Floor { visible: true, cursed: true });
    assert_eq!(game.get_map()[0][4], Tile::Floor { visible: false, cursed: true });
    assert_eq!(
        game.get_map()[0][5],
        Tile::Obelisk { visible: false, curse: true, fov: 6, damage_hp: 1, reduce_fov_radius: 3 }
    );
    assert_eq!(game.get_player().current_hp, 2);
    assert_eq!(game.get_player().exp, 0);
    assert!(game.get_game_log_messages().is_empty());
}

#[test]
fn a_player_rises_a_level_after_a_hundred_turns() {
    let mut game = game_on(&["@."]);
    for turn in 0..99 {
        game.move_player(if turn % 2 == 0 { 1 } else { -1 }, 0);
    }
    assert_eq!(game.get_player().level, 2);
    assert_eq!(game.get_player().exp, 0);
    assert_eq!(game.get_player().current_hp, 25);
    game.show_hint();
    assert_eq!(game.get_player().level, 2);
}
