//! The turn logic: the player walks and interacts, and after each action
//! the map lays its curses, the field of view is computed afresh, and the
//! curse takes its toll.

use crate::map::curse::after_curses;
use crate::map::fov::{field_of_view, relit};
use crate::map::grid::{columns, grid_of, rows, tile_at, with_tile, Grid};
use crate::map::types::{GameMapTiles, Point};
use crate::map::{cursing_obelisk, GameMap};
use crate::player::Player;
use crate::tile::Tile;
use vstd::prelude::*;
use vstd::string::StringExecFns;

verus! {

/// How many messages the game log keeps.
pub const LOG_LENGTH: usize = 5;

#[derive(Clone, Copy, Debug, PartialEq, Eq, Structural)]
pub enum MessageType {
    Info,
    Damage,
}

pub struct GameMessage {
    pub message: String,
    pub message_type: MessageType,
}

pub struct Game {
    map: GameMap,
    player: Player,
    player_position: Point,
    previous_tile: Tile,
    turns: u32,
    /// The last messages, oldest first; at most `LOG_LENGTH` of them.
    log_messages: Vec<GameMessage>,
}

/// The coordinate nearest to `position + step` among `0`, ..., `limit - 1`
/// (`0` when there is no such coordinate).
pub open spec fn stepped(position: int, step: int, limit: int) -> int {
    if position + step >= limit {
        if limit >= 1 {
            limit - 1
        } else {
            0
        }
    } else if position + step < 0 {
        0
    } else {
        position + step
    }
}

/// The eight cells around a cell, row by row, as steps along x and y.
pub open spec fn direction(index: int) -> (int, int) {
    if index == 0 {
        (-1, -1)
    } else if index == 1 {
        (0, -1)
    } else if index == 2 {
        (1, -1)
    } else if index == 3 {
        (-1, 0)
    } else if index == 4 {
        (1, 0)
    } else if index == 5 {
        (-1, 1)
    } else if index == 6 {
        (0, 1)
    } else {
        (1, 1)
    }
}

/// The log after a message has come in: the oldest message makes room when
/// the log is full.
pub open spec fn logged(log: Seq<GameMessage>, entry: GameMessage) -> Seq<GameMessage> {
    if log.len() == LOG_LENGTH {
        log.drop_first().push(entry)
    } else {
        log.push(entry)
    }
}

/// The player at `position` carries the curse.
pub open spec fn player_cursed(grid: Grid, position: Point) -> bool {
    tile_at(grid, position.x as int, position.y as int) matches Tile::Player { is_cursed, .. }
        && is_cursed
}

/// How far a player at `position` sees: as far as the cursing obelisk lets a
/// cursed player see, and as far as the player's own eyes reach otherwise.
pub open spec fn sight_radius(grid: Grid, position: Point, player: Player) -> u32 {
    if player_cursed(grid, position) {
        match cursing_obelisk(grid, position) {
            Some(Tile::Obelisk { reduce_fov_radius, .. }) => reduce_fov_radius,
            _ => player.fov_radius,
        }
    } else {
        player.fov_radius
    }
}

/// The damage that the curse does to a player at `position`: that of the
/// cursing obelisk if the player is cursed and the obelisk is in view.
pub open spec fn curse_damage(grid: Grid, position: Point) -> Option<u32> {
    if player_cursed(grid, position) {
        match cursing_obelisk(grid, position) {
            Some(Tile::Obelisk { visible, damage_hp, .. }) => if visible {
                Some(damage_hp)
            } else {
                None
            },
            _ => None,
        }
    } else {
        None
    }
}

/// The text of the message that tells of `damage` done by the curse.
pub open spec fn curse_message(text: Seq<char>, damage: u32) -> bool {
    exists|digits: String|
        #![trigger vstd::string::to_string_from_display_ensures::<u32>(&damage, digits)]
        vstd::string::to_string_from_display_ensures::<u32>(&damage, digits) && text
            == "You take "@ + digits@ + " damage from the Obelisk curse"@
}

impl Game {
    /// The map of the game.
    pub closed spec fn map(&self) -> GameMap {
        self.map
    }

    /// The player of the game.
    pub closed spec fn player(&self) -> Player {
        self.player
    }

    /// Where the player stands.
    pub closed spec fn position(&self) -> Point {
        self.player_position
    }

    /// The tile that the player stands on in place of.
    pub closed spec fn hidden_tile(&self) -> Tile {
        self.previous_tile
    }

    /// The number of turns played.
    pub closed spec fn turns(&self) -> u32 {
        self.turns
    }

    /// The game log, oldest message first.
    pub closed spec fn log(&self) -> Seq<GameMessage> {
        self.log_messages@
    }

    /// The state of the player fits the number of turns played: the levels
    /// were earned one turn at a time, the values that rise with the level
    /// stand where the level puts them, and the log is no longer than it may
    /// be.
    pub closed spec fn wf(&self) -> bool {
        &&& self.player.level >= 1
        &&& 50 * (self.player.level * (self.player.level - 1)) + self.player.exp <= self.turns
        &&& self.player.exp < 100 * self.player.level
        &&& self.player.max_hp == 15 + 5 * self.player.level
        &&& self.player.strength == 4 + self.player.level
        &&& self.player.defense == 1 + self.player.level
        &&& self.log_messages@.len() <= LOG_LENGTH
    }

    /// What a turn does to the game.
    ///
    /// The map lays its curses. The field of view of the player is computed
    /// afresh, with the radius and the rule that the curse on the player
    /// calls for. Then the curse takes its toll: a cursed player is hurt by
    /// the cursing obelisk if that is in view, which the log records; a
    /// player free of the curse gains one point of experience.
    pub open spec fn ticked(before: Game, after: Game) -> bool {
        let cursed_grid = after_curses(before.map().grid());
        let cursed = player_cursed(cursed_grid, before.position());
        let radius = sight_radius(cursed_grid, before.position(), before.player());
        let view = field_of_view(cursed_grid, before.position(), radius, cursed);
        let lit_grid = relit(cursed_grid, before.map().visible(), view);
        &&& after.turns() == before.turns() + 1
        &&& after.position() == before.position()
        &&& after.hidden_tile() == before.hidden_tile()
        &&& after.map().visible() == view
        &&& after.map().grid() == lit_grid
        &&& after.map().wf()
        &&& if cursed {
            match curse_damage(lit_grid, before.position()) {
                Some(damage) => {
                    &&& after.player() == before.player().hurt(damage)
                    &&& after.log().len() > 0
                    &&& after.log() == logged(before.log(), after.log().last())
                    &&& after.log().last().message_type == MessageType::Damage
                    &&& curse_message(after.log().last().message@, damage)
                },
                None => after.player() == before.player() && after.log() == before.log(),
            }
        } else {
            after.player() == before.player().with_exp(1) && after.log() == before.log()
        }
    }

    /// What a step onto `target` does, before the turn that follows it: the
    /// tile that the player stood on in place of comes back, the player
    /// stands on `target` in place of the tile there, and a player who has
    /// stepped into a pit is dead, which the log records.
    pub open spec fn walked(before: Game, after: Game, target: Point) -> bool {
        let vacated = with_tile(
            before.map().grid(),
            before.position().x as int,
            before.position().y as int,
            before.hidden_tile(),
        );
        let found = tile_at(vacated, target.x as int, target.y as int);
        &&& after.turns() == before.turns()
        &&& after.position() == target
        &&& after.hidden_tile() == found
        &&& after.map().visible() == before.map().visible()
        &&& after.map().grid() == with_tile(
            vacated,
            target.x as int,
            target.y as int,
            Tile::Player { is_dead: false, is_cursed: false },
        )
        &&& if found is Pit {
            &&& after.player() == before.player().hurt(before.player().current_hp)
            &&& after.log().len() > 0
            &&& after.log() == logged(before.log(), after.log().last())
            &&& after.log().last().message_type == MessageType::Damage
            &&& after.log().last().message@ == "You died!"@
        } else {
            after.player() == before.player() && after.log() == before.log()
        }
    }

    /// Only the log differs between the two games, and by one message of
    /// the given kind and text.
    pub open spec fn told(before: Game, after: Game, kind: MessageType, text: Seq<char>) -> bool {
        &&& after.map() == before.map()
        &&& after.player() == before.player()
        &&& after.position() == before.position()
        &&& after.hidden_tile() == before.hidden_tile()
        &&& after.turns() == before.turns()
        &&& after.log().len() > 0
        &&& after.log() == logged(before.log(), after.log().last())
        &&& after.log().last().message_type == kind
        &&& after.log().last().message@ == text
    }

    /// The cell beside the player in the direction of the given index,
    /// kept inside the map.
    pub open spec fn neighbour(self, index: int) -> Point {
        Point {
            x: stepped(
                self.position().x as int,
                direction(index).0,
                columns(self.map().grid()) as int,
            ) as usize,
            y: stepped(
                self.position().y as int,
                direction(index).1,
                rows(self.map().grid()) as int,
            ) as usize,
        }
    }

    /// The tile of the map beside the player can be interacted with.
    pub open spec fn interactable(self, index: int) -> bool {
        let tile = self.map().tile(self.neighbour(index));
        tile is Door || (tile matches Tile::Secret { visible, .. } && visible)
    }

    /// A game on the given map. The player stands where the map shows the
    /// player, or in the top left corner if it shows none, and the first
    /// turn has been played.
    pub fn new(map: GameMap) -> (game: Game)
        ensures
            game.wf(),
            exists|start: Game|
                #![trigger Game::ticked(start, game)]
                {
                    &&& Game::ticked(start, game)
                    &&& start.map() == map
                    &&& start.player() == Player::new_spec()
                    &&& start.turns() == 0
                    &&& start.log().len() == 0
                    &&& start.hidden_tile() == (Tile::Floor { visible: false, cursed: false })
                    &&& match map.first_player() {
                        Some(p) => start.position() == p,
                        None => start.position() == (Point { x: 0, y: 0 }),
                    }
                },
    {
        let player: Player = Player::new();
        let player_position: Point = match map.find_player() {
            Some(p) => p,
            None => Point::new(0, 0),
        };
        let mut game: Game = Game {
            map,
            player,
            player_position,
            previous_tile: Tile::Floor { visible: false, cursed: false },
            turns: 0,
            log_messages: Vec::new(),
        };
        let ghost start = game;
        assert(50 * (1 * (1 - 1)) == 0) by (nonlinear_arith);
        game.tick();
        assert(Game::ticked(start, game));
        game
    }

    /// Plays one turn.
    pub fn tick(&mut self)
        requires
            old(self).wf(),
            old(self).turns() < u32::MAX,
        ensures
            final(self).wf(),
            Game::ticked(*old(self), *final(self)),
    {
        proof {
            lemma_level_bound(
                self.player.level as int,
                self.player.exp as int,
                self.turns as int,
            );
            lemma_next_level(self.player.level as int);
        }
        self.turns += 1;
        self.map.apply_obelisk_curses();
        self.update_fov();
        self.check_effects();
    }

    /// Moves the player by `dx` columns and `dy` rows, as far as the map
    /// goes, and plays a turn. A player who cannot walk onto the target
    /// stays, and the log says so.
    pub fn move_player(&mut self, dx: i32, dy: i32)
        requires
            old(self).wf(),
            old(self).turns() < u32::MAX,
        ensures
            final(self).wf(),
            ({
                let target = Point {
                    x: stepped(
                        old(self).position().x as int,
                        dx as int,
                        columns(old(self).map().grid()) as int,
                    ) as usize,
                    y: stepped(
                        old(self).position().y as int,
                        dy as int,
                        rows(old(self).map().grid()) as int,
                    ) as usize,
                };
                if old(self).map().tile(target).walkable() {
                    exists|moved: Game|
                        #![trigger Game::walked(*old(self), moved, target)]
                        Game::walked(*old(self), moved, target) && Game::ticked(
                            moved,
                            *final(self),
                        )
                } else {
                    Game::told(
                        *old(self),
                        *final(self),
                        MessageType::Info,
                        "You can't walk there."@,
                    )
                }
            }),
    {
        let search_x: usize = step_within(self.player_position.x, dx, self.map.width());
        let search_y: usize = step_within(self.player_position.y, dy, self.map.height());
        self.walk_to_tile(Point { x: search_x, y: search_y });
    }

    /// Shows a hint. There are none yet.
    pub fn show_hint(&mut self)
        ensures
            *final(self) == *old(self),
    {
    }

    /// Steps onto `search_position` if the tile there can be walked on, and
    /// plays a turn; says so in the log if it cannot.
    pub fn walk_to_tile(&mut self, search_position: Point)
        requires
            old(self).wf(),
            old(self).turns() < u32::MAX,
        ensures
            final(self).wf(),
            if old(self).map().tile(search_position).walkable() {
                exists|moved: Game|
                    #![trigger Game::walked(*old(self), moved, search_position)]
                    Game::walked(*old(self), moved, search_position) && Game::ticked(
                        moved,
                        *final(self),
                    )
            } else {
                Game::told(*old(self), *final(self), MessageType::Info, "You can't walk there."@)
            },
    {
        if self.map.is_walkable(search_position) {
            self.map.set_tile(self.player_position, self.previous_tile);
            self.previous_tile = self.map.get_tile(search_position);
            let is_destination_deadly: bool = self.map.is_deadly(search_position);
            self.player_position = search_position;
            self.map.set_tile(
                self.player_position,
                Tile::Player { is_dead: false, is_cursed: false },
            );
            if is_destination_deadly {
                self.log_damage_message("You died!".to_owned());
                self.player.take_damage(self.player.current_hp);
            }
            let ghost moved = *self;
            assert(Game::walked(*old(self), moved, search_position));
            self.tick();
        } else {
            self.log_info_message("You can't walk there.".to_owned());
        }
    }

    /// The toll of the turn: the curse hurts a cursed player, and a player
    /// free of it gains experience.
    pub fn check_effects(&mut self)
        requires
            old(self).log().len() <= LOG_LENGTH,
            !player_cursed(old(self).map().grid(), old(self).position()) ==> {
                &&& old(self).player().exp + 1 <= u32::MAX
                &&& old(self).player().next_level_at() <= u32::MAX
                &&& old(self).player().can_level_up()
            },
        ensures
            final(self).map() == old(self).map(),
            final(self).position() == old(self).position(),
            final(self).hidden_tile() == old(self).hidden_tile(),
            final(self).turns() == old(self).turns(),
            final(self).log().len() <= LOG_LENGTH,
            if player_cursed(old(self).map().grid(), old(self).position()) {
                match curse_damage(old(self).map().grid(), old(self).position()) {
                    Some(damage) => {
                        &&& final(self).player() == old(self).player().hurt(damage)
                        &&& final(self).log().len() > 0
                        &&& final(self).log() == logged(old(self).log(), final(self).log().last())
                        &&& final(self).log().last().message_type == MessageType::Damage
                        &&& curse_message(final(self).log().last().message@, damage)
                    },
                    None => final(self).player() == old(self).player() && final(self).log() == old(
                        self,
                    ).log(),
                }
            } else {
                final(self).player() == old(self).player().with_exp(1) && final(self).log() == old(
                    self,
                ).log()
            },
    {
        if self.is_player_cursed() {
            self.apply_curse_effects();
        } else {
            self.player.gain_exp(1);
        }
    }

    /// The cursing obelisk, if it is in view, hurts the player, and the log
    /// records it.
    pub fn apply_curse_effects(&mut self)
        requires
            old(self).log().len() <= LOG_LENGTH,
        ensures
            final(self).map() == old(self).map(),
            final(self).position() == old(self).position(),
            final(self).hidden_tile() == old(self).hidden_tile(),
            final(self).turns() == old(self).turns(),
            final(self).log().len() <= LOG_LENGTH,
            match cursing_obelisk(old(self).map().grid(), old(self).position()) {
                Some(Tile::Obelisk { visible: true, damage_hp, .. }) => {
                    &&& final(self).player() == old(self).player().hurt(damage_hp)
                    &&& final(self).log().len() > 0
                    &&& final(self).log() == logged(old(self).log(), final(self).log().last())
                    &&& final(self).log().last().message_type == MessageType::Damage
                    &&& curse_message(final(self).log().last().message@, damage_hp)
                },
                _ => final(self).player() == old(self).player() && final(self).log() == old(
                    self,
                ).log(),
            },
    {
        let cursing_tile: Option<Tile> = self.map.get_obelisk_cursing_tile(self.player_position);
        if let Some(Tile::Obelisk { visible: true, damage_hp, .. }) = cursing_tile {
            let digits: String = damage_hp.to_string();
            let message: String = String::from_str("You take ").concat(digits.as_str()).concat(
                " damage from the Obelisk curse",
            );
            assert(curse_message(message@, damage_hp)) by {
                assert(vstd::string::to_string_from_display_ensures::<u32>(&damage_hp, digits));
            }
            self.log_damage_message(message);
            self.player.take_damage(damage_hp);
        }
    }

    pub fn is_player_cursed(&self) -> (cursed: bool)
        ensures
            cursed == player_cursed(self.map().grid(), self.position()),
    {
        matches!(self.map.get_tile(self.player_position), Tile::Player { is_cursed: true, .. })
    }

    pub fn get_player_fov_radius(&self) -> (radius: u32)
        ensures
            radius == sight_radius(self.map().grid(), self.position(), self.player()),
    {
        if self.is_player_cursed() {
            if let Some(Tile::Obelisk { reduce_fov_radius, .. }) =
                self.map.get_obelisk_cursing_tile(self.player_position) {
                reduce_fov_radius
            } else {
                self.player.fov_radius
            }
        } else {
            self.player.fov_radius
        }
    }

    /// Computes the field of view of the player afresh.
    pub fn update_fov(&mut self)
        ensures
            final(self).player() == old(self).player(),
            final(self).position() == old(self).position(),
            final(self).hidden_tile() == old(self).hidden_tile(),
            final(self).turns() == old(self).turns(),
            final(self).log() == old(self).log(),
            final(self).map().wf(),
            final(self).map().visible() == field_of_view(
                old(self).map().grid(),
                old(self).position(),
                sight_radius(old(self).map().grid(), old(self).position(), old(self).player()),
                player_cursed(old(self).map().grid(), old(self).position()),
            ),
            final(self).map().grid() == relit(
                old(self).map().grid(),
                old(self).map().visible(),
                final(self).map().visible(),
            ),
    {
        let fov_radius: u32 = self.get_player_fov_radius();
        self.map.update_fov(self.player_position, fov_radius);
    }

    pub fn get_map(&self) -> (tiles: &GameMapTiles)
        ensures
            grid_of(tiles@) == self.map().grid(),
    {
        self.map.get_tiles()
    }

    pub fn get_player(&self) -> (player: &Player)
        ensures
            *player == self.player(),
    {
        &self.player
    }

    /// The number of turns played so far.
    pub fn get_turns(&self) -> (turns: u32)
        ensures
            turns == self.turns(),
    {
        self.turns
    }

    pub fn get_player_position(&self) -> (position: Point)
        ensures
            position == self.position(),
    {
        self.player_position
    }

    pub fn is_game_over(&self) -> (over: bool)
        ensures
            over == (self.player().current_hp == 0),
    {
        self.player.is_dead()
    }

    /// Adds a message to the log. A full log drops its oldest message.
    pub fn log_message(&mut self, message: String, message_type: MessageType)
        ensures
            final(self).log() == logged(old(self).log(), GameMessage { message, message_type }),
            final(self).map() == old(self).map(),
            final(self).player() == old(self).player(),
            final(self).position() == old(self).position(),
            final(self).hidden_tile() == old(self).hidden_tile(),
            final(self).turns() == old(self).turns(),
            old(self).wf() ==> final(self).wf(),
            old(self).log().len() <= LOG_LENGTH ==> final(self).log().len() <= LOG_LENGTH,
    {
        if self.log_messages.len() == LOG_LENGTH {
            self.log_messages.remove(0);
            assert(self.log_messages@ =~= old(self).log_messages@.drop_first());
        }
        self.log_messages.push(GameMessage { message, message_type });
    }

    pub fn log_info_message(&mut self, message: String)
        ensures
            Game::told(*old(self), *final(self), MessageType::Info, message@),
            final(self).log() == logged(
                old(self).log(),
                GameMessage { message, message_type: MessageType::Info },
            ),
            old(self).wf() ==> final(self).wf(),
            old(self).log().len() <= LOG_LENGTH ==> final(self).log().len() <= LOG_LENGTH,
    {
        self.log_message(message, MessageType::Info);
    }

    pub fn log_damage_message(&mut self, message: String)
        ensures
            Game::told(*old(self), *final(self), MessageType::Damage, message@),
            final(self).log() == logged(
                old(self).log(),
                GameMessage { message, message_type: MessageType::Damage },
            ),
            old(self).wf() ==> final(self).wf(),
            old(self).log().len() <= LOG_LENGTH ==> final(self).log().len() <= LOG_LENGTH,
    {
        self.log_message(message, MessageType::Damage);
    }

    pub fn get_game_log_messages(&self) -> (log: &Vec<GameMessage>)
        ensures
            log@ == self.log(),
    {
        &self.log_messages
    }

    pub fn get_log_messages(&self) -> (log: &Vec<GameMessage>)
        ensures
            log@ == self.log(),
    {
        self.get_game_log_messages()
    }

    /// Interacts with the first of the eight cells around the player that
    /// can be interacted with, and plays a turn; says so in the log if there
    /// is none.
    pub fn interact(&mut self)
        requires
            old(self).wf(),
            old(self).turns() < u32::MAX,
        ensures
            final(self).wf(),
            (forall|i: int| 0 <= i < 8 ==> !old(self).interactable(i)) ==> Game::told(
                *old(self),
                *final(self),
                MessageType::Info,
                "No interactable tiles found nearby."@,
            ),
            forall|i: int|
                0 <= i < 8 && #[trigger] old(self).interactable(i) && (forall|j: int|
                    0 <= j < i ==> !old(self).interactable(j)) ==> exists|used: Game|
                    #![trigger Game::ticked(used, *final(self))]
                    {
                        &&& Game::ticked(used, *final(self))
                        &&& used.map().visible() == old(self).map().visible()
                        &&& used.map().grid() == match old(self).map().tile(old(self).neighbour(i)) {
                            Tile::Door { open, visible } => with_tile(
                                old(self).map().grid(),
                                old(self).neighbour(i).x as int,
                                old(self).neighbour(i).y as int,
                                Tile::Door { open: !open, visible },
                            ),
                            _ => old(self).map().grid(),
                        }
                        &&& used.player() == old(self).player()
                        &&& used.position() == old(self).position()
                        &&& used.hidden_tile() == old(self).hidden_tile()
                        &&& used.turns() == old(self).turns()
                        &&& used.log() == old(self).log()
                    },
    {
        let mut index: usize = 0;
        while index < 8
            invariant
                index <= 8,
                *self == *old(self),
                old(self).wf(),
                old(self).turns() < u32::MAX,
                forall|j: int| 0 <= j < index ==> !old(self).interactable(j),
            decreases 8 - index,
        {
            let (dx, dy) = direction_at(index);
            let search_x: usize = step_within(self.player_position.x, dx, self.map.width());
            let search_y: usize = step_within(self.player_position.y, dy, self.map.height());
            let search_position: Point = Point::new(search_x, search_y);
            assert(search_position == self.neighbour(index as int));
            if self.map.is_interactable(search_position) {
                assert(old(self).interactable(index as int));
                self.map.interact_tile(search_position);
                let ghost used = *self;
                self.tick();
                assert(Game::ticked(used, *self));
                return ;
            }
            index = index + 1;
        }
        self.log_info_message("No interactable tiles found nearby.".to_owned());
    }
}

/// Levels are earned one turn at a time: a player whose experience was
/// gained a point a turn has not passed level 9269 by the last turn that can
/// be counted.
pub proof fn lemma_level_bound(level: int, exp: int, turns: int)
    requires
        level >= 1,
        exp >= 0,
        50 * (level * (level - 1)) + exp <= turns,
        turns <= u32::MAX,
    ensures
        level <= 9269,
{
    if level >= 9270 {
        assert(level * (level - 1) >= 9270 * 9269) by (nonlinear_arith)
            requires
                level >= 9270,
        ;
    }
}

/// The experience that the levels up to `level + 1` ask for is that of the
/// levels up to `level` and a hundred points for every level reached.
pub proof fn lemma_next_level(level: int)
    ensures
        50 * ((level + 1) * level) == 50 * (level * (level - 1)) + 100 * level,
{
    assert((level + 1) * level == level * (level - 1) + 2 * level) by (nonlinear_arith);
}

/// The step along x and y to the cell of the given index among the eight
/// cells around a cell.
pub fn direction_at(index: usize) -> (step: (i32, i32))
    requires
        index < 8,
    ensures
        step.0 == direction(index as int).0,
        step.1 == direction(index as int).1,
{
    if index == 0 {
        (-1, -1)
    } else if index == 1 {
        (0, -1)
    } else if index == 2 {
        (1, -1)
    } else if index == 3 {
        (-1, 0)
    } else if index == 4 {
        (1, 0)
    } else if index == 5 {
        (-1, 1)
    } else if index == 6 {
        (0, 1)
    } else {
        (1, 1)
    }
}

/// The coordinate nearest to `position + step` among `0`, ..., `limit - 1`.
pub fn step_within(position: usize, step: i32, limit: usize) -> (target: usize)
    ensures
        target == stepped(position as int, step as int, limit as int),
{
    let wanted: i128 = position as i128 + step as i128;
    if wanted >= limit as i128 {
        if limit >= 1 {
            limit - 1
        } else {
            0
        }
    } else if wanted < 0 {
        0
    } else {
        wanted as usize
    }
}

} // verus!
