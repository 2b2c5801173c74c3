//! The cell model: what a grid cell can hold, how it is drawn, and how it
//! takes part in movement and sight.

use crate::random::uniform_inclusive;
use vstd::prelude::*;

verus! {

/// A colour of the terminal palette.
#[derive(Clone, Copy, PartialEq, Eq, Debug, Structural)]
pub enum TermColor {
    Reset,
    Red,
    Yellow,
    Magenta,
    Cyan,
    Gray,
    LightYellow,
    LightCyan,
    Indexed(u8),
}

/// A colour as red, green and blue.
#[derive(Clone, Copy, PartialEq, Eq, Debug, Structural)]
pub struct Rgb {
    pub r: u8,
    pub g: u8,
    pub b: u8,
}

/// Palette index of a wall in view.
pub const VISIBLE_WALL: u8 = 250;

/// Palette index of a wall out of view.
pub const INVISIBLE_WALL: u8 = 245;

/// Palette index of a floor in view.
pub const VISIBLE_FLOOR: u8 = 255;

/// Palette index of a floor, or of a feature that passes for floor, out of view.
pub const INVISIBLE_FLOOR: u8 = 240;

/// Colour of a cursed floor in view.
pub const VISIBLE_CURSED_FLOOR_COLOR: TermColor = TermColor::Magenta;

/// What one cell of the grid holds.
#[derive(Clone, Copy, PartialEq, Eq, Debug, Structural)]
pub enum Tile {
    /// The archway is the plot device that starts the game.
    Archway { locked: bool },
    Stairs { visible: bool, up: bool },
    Wall { visible: bool },
    Floor { visible: bool, cursed: bool },
    /// The cell the player stands on.
    Player { is_dead: bool, is_cursed: bool },
    Door { visible: bool, open: bool },
    /// A secret reveals itself on interaction; `rarity` is an order of
    /// magnitude (1, 10, 100, 1000) that says how good it is.
    Secret { visible: bool, rarity: u32 },
    /// A secret floor reveals itself when stepped on.
    SecretFloor { visible: bool },
    /// An obelisk curses what it sees within `fov`.
    Obelisk { visible: bool, curse: bool, fov: u32, damage_hp: u32, reduce_fov_radius: u32 },
    /// Falling into a pit kills the player.
    Pit { visible: bool },
    Wither { visible: bool, hp: u32, damage: u32, fov: u32 },
    Bat { visible: bool, hp: u32, damage: u32, fov: u32 },
    Brute { visible: bool, hp: u32, damage: u32, fov: u32 },
    Column { visible: bool },
    Empty,
}

/// The rarity of a secret of the given magnitude: ten to that power, with
/// every magnitude above three counted as three.
pub open spec fn rarity_of(magnitude: nat) -> u32 {
    if magnitude == 0 {
        1
    } else if magnitude == 1 {
        10
    } else if magnitude == 2 {
        100
    } else {
        1000
    }
}

impl Tile {
    /// The tile is a hostile creature.
    pub open spec fn is_mob(self) -> bool {
        self is Wither || self is Bat || self is Brute
    }

    /// The variant carries a `visible` flag.
    pub open spec fn has_visible_flag(self) -> bool {
        !(self is Archway || self is Player || self is Empty)
    }

    /// The tile carries a `visible` flag and the flag is set.
    pub open spec fn shown(self) -> bool {
        match self {
            Tile::Stairs { visible, .. }
            | Tile::Wall { visible }
            | Tile::Floor { visible, .. }
            | Tile::Door { visible, .. }
            | Tile::Secret { visible, .. }
            | Tile::SecretFloor { visible }
            | Tile::Obelisk { visible, .. }
            | Tile::Pit { visible }
            | Tile::Wither { visible, .. }
            | Tile::Bat { visible, .. }
            | Tile::Brute { visible, .. }
            | Tile::Column { visible } => visible,
            Tile::Archway { .. } | Tile::Player { .. } | Tile::Empty => false,
        }
    }

    /// The same tile with its `visible` flag, where it has one, set to
    /// `visible`. Nothing else changes.
    pub open spec fn shown_as(self, visible: bool) -> Tile {
        match self {
            Tile::Stairs { up, .. } => Tile::Stairs { visible, up },
            Tile::Wall { .. } => Tile::Wall { visible },
            Tile::Floor { cursed, .. } => Tile::Floor { visible, cursed },
            Tile::Door { open, .. } => Tile::Door { visible, open },
            Tile::Secret { rarity, .. } => Tile::Secret { visible, rarity },
            Tile::SecretFloor { .. } => Tile::SecretFloor { visible },
            Tile::Obelisk { curse, fov, damage_hp, reduce_fov_radius, .. } => Tile::Obelisk {
                visible,
                curse,
                fov,
                damage_hp,
                reduce_fov_radius,
            },
            Tile::Pit { .. } => Tile::Pit { visible },
            Tile::Wither { hp, damage, fov, .. } => Tile::Wither { visible, hp, damage, fov },
            Tile::Bat { hp, damage, fov, .. } => Tile::Bat { visible, hp, damage, fov },
            Tile::Brute { hp, damage, fov, .. } => Tile::Brute { visible, hp, damage, fov },
            Tile::Column { .. } => Tile::Column { visible },
            Tile::Archway { .. } | Tile::Player { .. } | Tile::Empty => self,
        }
    }

    /// The tile is a floor or a player that carries the curse.
    pub open spec fn cursed(self) -> bool {
        match self {
            Tile::Floor { cursed, .. } => cursed,
            Tile::Player { is_cursed, .. } => is_cursed,
            _ => false,
        }
    }

    /// The same tile with the curse set to `cursed`: the `cursed` flag of a
    /// floor, the `is_cursed` flag of the player. Other tiles cannot be cursed
    /// and stay as they are.
    pub open spec fn cursed_as(self, cursed: bool) -> Tile {
        match self {
            Tile::Floor { visible, .. } => Tile::Floor { visible, cursed },
            Tile::Player { is_dead, .. } => Tile::Player { is_dead, is_cursed: cursed },
            _ => self,
        }
    }

    /// A creature or the player may step on the tile: everything but walls,
    /// secrets, obelisks, locked archways and closed doors.
    pub open spec fn walkable(self) -> bool {
        &&& !(self is Wall)
        &&& !(self is Secret)
        &&& !(self is Obelisk)
        &&& (self matches Tile::Archway { locked } ==> !locked)
        &&& (self matches Tile::Door { open, .. } ==> open)
    }

    /// The tile stops a line of sight.
    ///
    /// There are three rules. An obelisk (`by_obelisk`) looks past creatures
    /// and secrets but not past pits. A cursed player looks past cursed
    /// floor. Any other observer is stopped by cursed floor as well. Walls,
    /// closed doors and columns stop everyone.
    pub open spec fn blocks_sight(self, by_obelisk: bool, is_player_cursed: bool) -> bool {
        ||| self is Wall
        ||| self is Column
        ||| (self matches Tile::Door { open, .. } && !open)
        ||| (by_obelisk && self is Pit)
        ||| (!by_obelisk && (self is Secret || self.is_mob()))
        ||| (!by_obelisk && !is_player_cursed && (self matches Tile::Floor { cursed, .. }
            && cursed))
    }

    /// The character that draws the tile. Hidden features look like floor.
    pub open spec fn glyph(self) -> char {
        match self {
            Tile::Archway { .. } => '∩',
            Tile::Stairs { up, .. } => if up { '<' } else { '>' },
            Tile::Wall { .. } => '#',
            Tile::Player { .. } => '@',
            Tile::Door { open, .. } => if open { '+' } else { '/' },
            Tile::Floor { .. } => '·',
            Tile::SecretFloor { visible } => if visible { '_' } else { '·' },
            Tile::Secret { visible, .. } => if visible { '?' } else { '·' },
            Tile::Pit { visible } => if visible { 'V' } else { '·' },
            Tile::Obelisk { visible, .. } => if visible { '|' } else { '·' },
            Tile::Wither { visible, .. } => if visible { 'W' } else { '·' },
            Tile::Bat { visible, .. } => if visible { 'B' } else { '·' },
            Tile::Brute { visible, .. } => if visible { 'U' } else { '·' },
            Tile::Column { .. } => 'O',
            Tile::Empty => ' ',
        }
    }

    /// The tile that a character of a map text stands for, with `rarity` for
    /// the rarity of a secret. Features start hidden, doors as drawn, and the
    /// creatures with their stock values. A character that stands for
    /// nothing gives `Empty`.
    pub open spec fn parse(c: char, rarity: u32) -> Tile {
        if c == '∩' {
            Tile::Archway { locked: true }
        } else if c == '>' {
            Tile::Stairs { visible: false, up: false }
        } else if c == '<' {
            Tile::Stairs { visible: false, up: true }
        } else if c == '#' {
            Tile::Wall { visible: false }
        } else if c == '.' {
            Tile::Floor { visible: false, cursed: false }
        } else if c == '@' {
            Tile::Player { is_dead: false, is_cursed: false }
        } else if c == '+' {
            Tile::Door { visible: false, open: true }
        } else if c == '/' {
            Tile::Door { visible: false, open: false }
        } else if c == 'V' {
            Tile::Pit { visible: false }
        } else if c == '?' {
            Tile::Secret { visible: false, rarity }
        } else if c == '_' {
            Tile::SecretFloor { visible: false }
        } else if c == '|' {
            Tile::Obelisk { visible: false, curse: true, fov: 6, damage_hp: 1, reduce_fov_radius: 3 }
        } else if c == 'W' {
            Tile::Wither { visible: false, hp: 3, damage: 2, fov: 8 }
        } else if c == 'B' {
            Tile::Bat { visible: false, hp: 1, damage: 1, fov: 6 }
        } else if c == 'U' {
            Tile::Brute { visible: false, hp: 20, damage: 10, fov: 4 }
        } else {
            Tile::Empty
        }
    }

    /// The foreground colour on a terminal.
    pub open spec fn fg(self) -> TermColor {
        match self {
            Tile::Archway { .. } => TermColor::LightCyan,
            Tile::Stairs { visible, .. }
            | Tile::Wall { visible }
            | Tile::Pit { visible }
            | Tile::SecretFloor { visible } => if visible {
                TermColor::Indexed(VISIBLE_WALL)
            } else {
                TermColor::Indexed(INVISIBLE_WALL)
            },
            Tile::Floor { visible, cursed } => if !visible {
                TermColor::Indexed(INVISIBLE_FLOOR)
            } else if cursed {
                VISIBLE_CURSED_FLOOR_COLOR
            } else {
                TermColor::Indexed(VISIBLE_FLOOR)
            },
            Tile::Player { is_dead, is_cursed } => if is_dead {
                TermColor::Red
            } else if is_cursed {
                TermColor::Magenta
            } else {
                TermColor::Cyan
            },
            Tile::Door { visible, .. } => if visible {
                TermColor::Yellow
            } else {
                TermColor::Reset
            },
            Tile::Secret { visible, .. } => if visible {
                TermColor::LightYellow
            } else {
                TermColor::Indexed(INVISIBLE_FLOOR)
            },
            Tile::Obelisk { visible, .. } => if visible {
                TermColor::Magenta
            } else {
                TermColor::Indexed(INVISIBLE_FLOOR)
            },
            Tile::Wither { visible, .. } | Tile::Bat { visible, .. } | Tile::Brute {
                visible,
                ..
            } => if visible {
                TermColor::Red
            } else {
                TermColor::Indexed(INVISIBLE_FLOOR)
            },
            Tile::Column { .. } | Tile::Empty => TermColor::Reset,
        }
    }

    /// The background colour on a terminal.
    pub open spec fn bg(self) -> TermColor {
        match self {
            Tile::Wall { .. } => TermColor::Gray,
            Tile::Pit { visible } => if visible {
                TermColor::Indexed(INVISIBLE_FLOOR)
            } else {
                TermColor::Reset
            },
            _ => TermColor::Reset,
        }
    }

    /// The colour of the tile when drawn as a plain square.
    pub open spec fn rgb(self) -> Rgb {
        match self {
            Tile::Archway { .. } => Rgb { r: 0, g: 255, b: 255 },
            Tile::Stairs { up, .. } => if up {
                Rgb { r: 150, g: 150, b: 150 }
            } else {
                Rgb { r: 100, g: 100, b: 100 }
            },
            Tile::Wall { .. } | Tile::SecretFloor { .. } | Tile::Column { .. } => Rgb {
                r: 255,
                g: 255,
                b: 255,
            },
            Tile::Floor { .. } | Tile::Pit { .. } => Rgb { r: 50, g: 50, b: 50 },
            Tile::Player { .. } | Tile::Secret { .. } => Rgb { r: 255, g: 255, b: 0 },
            Tile::Door { .. } => Rgb { r: 150, g: 75, b: 0 },
            Tile::Obelisk { .. } => Rgb { r: 255, g: 0, b: 255 },
            Tile::Wither { .. } => Rgb { r: 255, g: 0, b: 0 },
            Tile::Bat { .. } => Rgb { r: 0, g: 255, b: 0 },
            Tile::Brute { .. } => Rgb { r: 0, g: 0, b: 255 },
            Tile::Empty => Rgb { r: 0, g: 0, b: 0 },
        }
    }

    pub fn as_char(&self) -> (c: char)
        ensures
            c == self.glyph(),
    {
        match self {
            Tile::Archway { .. } => '∩',
            Tile::Stairs { up: false, .. } => '>',
            Tile::Stairs { up: true, .. } => '<',
            Tile::Wall { .. } => '#',
            Tile::SecretFloor { visible: true } => '_',
            Tile::Player { .. } => '@',
            Tile::Door { open: true, .. } => '+',
            Tile::Door { open: false, .. } => '/',
            Tile::Secret { visible: true, .. } => '?',
            Tile::Pit { visible: true } => 'V',
            Tile::Obelisk { visible: true, .. } => '|',
            Tile::Wither { visible: true, .. } => 'W',
            Tile::Bat { visible: true, .. } => 'B',
            Tile::Brute { visible: true, .. } => 'U',
            Tile::Column { .. } => 'O',
            Tile::Floor { .. }
            | Tile::SecretFloor { visible: false }
            | Tile::Secret { visible: false, .. }
            | Tile::Pit { visible: false }
            | Tile::Wither { visible: false, .. }
            | Tile::Bat { visible: false, .. }
            | Tile::Brute { visible: false, .. }
            | Tile::Obelisk { visible: false, .. } => '·',
            Tile::Empty => ' ',
        }
    }

    pub fn term_fg(&self) -> (color: TermColor)
        ensures
            color == self.fg(),
    {
        match self {
            Tile::Archway { .. } => TermColor::LightCyan,
            Tile::Stairs { visible, .. }
            | Tile::Wall { visible }
            | Tile::Pit { visible }
            | Tile::SecretFloor { visible } => {
                if *visible {
                    TermColor::Indexed(VISIBLE_WALL)
                } else {
                    TermColor::Indexed(INVISIBLE_WALL)
                }
            },
            Tile::Floor { visible, cursed } => {
                if *visible {
                    if *cursed {
                        VISIBLE_CURSED_FLOOR_COLOR
                    } else {
                        TermColor::Indexed(VISIBLE_FLOOR)
                    }
                } else {
                    TermColor::Indexed(INVISIBLE_FLOOR)
                }
            },
            Tile::Player { is_dead, is_cursed } => {
                if *is_dead {
                    TermColor::Red
                } else if *is_cursed {
                    TermColor::Magenta
                } else {
                    TermColor::Cyan
                }
            },
            Tile::Obelisk { visible: false, .. } => TermColor::Indexed(INVISIBLE_FLOOR),
            Tile::Secret { visible: false, .. } => TermColor::Indexed(INVISIBLE_FLOOR),
            Tile::Wither { visible: false, .. } => TermColor::Indexed(INVISIBLE_FLOOR),
            Tile::Bat { visible: false, .. } => TermColor::Indexed(INVISIBLE_FLOOR),
            Tile::Brute { visible: false, .. } => TermColor::Indexed(INVISIBLE_FLOOR),
            Tile::Door { visible: true, .. } => TermColor::Yellow,
            Tile::Secret { visible: true, .. } => TermColor::LightYellow,
            Tile::Obelisk { visible: true, .. } => TermColor::Magenta,
            Tile::Wither { visible: true, .. }
            | Tile::Bat { visible: true, .. }
            | Tile::Brute { visible: true, .. } => TermColor::Red,
            _ => TermColor::Reset,
        }
    }

    pub fn term_bg(&self) -> (color: TermColor)
        ensures
            color == self.bg(),
    {
        match self {
            Tile::Wall { .. } => TermColor::Gray,
            Tile::Pit { visible: true } => TermColor::Indexed(INVISIBLE_FLOOR),
            _ => TermColor::Reset,
        }
    }

    pub fn color(&self) -> (color: Rgb)
        ensures
            color == self.rgb(),
    {
        match self {
            Tile::Archway { .. } => Rgb { r: 0, g: 255, b: 255 },
            Tile::Stairs { up: false, .. } => Rgb { r: 100, g: 100, b: 100 },
            Tile::Stairs { up: true, .. } => Rgb { r: 150, g: 150, b: 150 },
            Tile::Wall { .. } | Tile::SecretFloor { .. } | Tile::Column { .. } => Rgb {
                r: 255,
                g: 255,
                b: 255,
            },
            Tile::Floor { .. } => Rgb { r: 50, g: 50, b: 50 },
            Tile::Player { .. } => Rgb { r: 255, g: 255, b: 0 },
            Tile::Door { .. } => Rgb { r: 150, g: 75, b: 0 },
            Tile::Pit { .. } => Rgb { r: 50, g: 50, b: 50 },
            Tile::Secret { .. } => Rgb { r: 255, g: 255, b: 0 },
            Tile::Obelisk { .. } => Rgb { r: 255, g: 0, b: 255 },
            Tile::Wither { .. } => Rgb { r: 255, g: 0, b: 0 },
            Tile::Bat { .. } => Rgb { r: 0, g: 255, b: 0 },
            Tile::Brute { .. } => Rgb { r: 0, g: 0, b: 255 },
            Tile::Empty => Rgb { r: 0, g: 0, b: 0 },
        }
    }

    pub fn is_walkable(&self) -> (walkable: bool)
        ensures
            walkable == self.walkable(),
    {
        match self {
            Tile::Wall { .. } | Tile::Secret { .. } | Tile::Obelisk { .. } => false,
            Tile::Archway { locked } => !*locked,
            Tile::Door { open, .. } => *open,
            _ => true,
        }
    }

    /// Whether the tile stops a line of sight under the rule that the two
    /// flags select.
    pub fn is_opaque(&self, by_obelisk: bool, is_player_cursed: bool) -> (opaque: bool)
        ensures
            opaque == self.blocks_sight(by_obelisk, is_player_cursed),
    {
        if by_obelisk {
            matches!(
                self,
                Tile::Wall { .. } | Tile::Door { open: false, .. } | Tile::Column { .. } | Tile::Pit { .. }
            )
        } else if is_player_cursed {
            matches!(
                self,
                Tile::Wall { .. }
                    | Tile::Door { open: false, .. }
                    | Tile::Column { .. }
                    | Tile::Secret { .. }
                    | Tile::Wither { .. }
                    | Tile::Bat { .. }
                    | Tile::Brute { .. }
            )
        } else {
            matches!(
                self,
                Tile::Wall { .. }
                    | Tile::Floor { cursed: true, .. }
                    | Tile::Door { open: false, .. }
                    | Tile::Column { .. }
                    | Tile::Secret { .. }
                    | Tile::Wither { .. }
                    | Tile::Bat { .. }
                    | Tile::Brute { .. }
            )
        }
    }

    /// The tile with its `visible` flag set as asked.
    pub fn with_visibility(&self, visible: bool) -> (tile: Tile)
        ensures
            tile == self.shown_as(visible),
    {
        match *self {
            Tile::Stairs { up, .. } => Tile::Stairs { visible, up },
            Tile::Wall { .. } => Tile::Wall { visible },
            Tile::Pit { .. } => Tile::Pit { visible },
            Tile::Floor { cursed, .. } => Tile::Floor { cursed, visible },
            Tile::Secret { rarity, .. } => Tile::Secret { rarity, visible },
            Tile::SecretFloor { .. } => Tile::SecretFloor { visible },
            Tile::Door { open, .. } => Tile::Door { open, visible },
            Tile::Obelisk { curse, fov, damage_hp, reduce_fov_radius, .. } => Tile::Obelisk {
                curse,
                fov,
                damage_hp,
                reduce_fov_radius,
                visible,
            },
            Tile::Wither { hp, damage, fov, .. } => Tile::Wither { hp, damage, fov, visible },
            Tile::Bat { hp, damage, fov, .. } => Tile::Bat { hp, damage, fov, visible },
            Tile::Brute { hp, damage, fov, .. } => Tile::Brute { hp, damage, fov, visible },
            Tile::Column { .. } => Tile::Column { visible },
            tile => tile,
        }
    }

    /// The tile with the curse set as asked, where it can carry one.
    pub fn with_curse(&self, cursed: bool) -> (tile: Tile)
        ensures
            tile == self.cursed_as(cursed),
    {
        match *self {
            Tile::Floor { visible, .. } => Tile::Floor { visible, cursed },
            Tile::Player { is_dead, .. } => Tile::Player { is_dead, is_cursed: cursed },
            tile => tile,
        }
    }

    /// Reads one character of a map text, with the rarity to give a secret.
    pub fn from_char_with_rarity(c: char, rarity: u32) -> (tile: Tile)
        ensures
            tile == Tile::parse(c, rarity),
    {
        match c {
            '∩' => Tile::Archway { locked: true },
            '>' => Tile::Stairs { up: false, visible: false },
            '<' => Tile::Stairs { up: true, visible: false },
            '#' => Tile::Wall { visible: false },
            '.' => Tile::Floor { visible: false, cursed: false },
            '@' => Tile::Player { is_dead: false, is_cursed: false },
            '+' => Tile::Door { open: true, visible: false },
            '/' => Tile::Door { open: false, visible: false },
            'V' => Tile::Pit { visible: false },
            '?' => Tile::Secret { visible: false, rarity },
            '_' => Tile::SecretFloor { visible: false },
            '|' => Tile::Obelisk {
                visible: false,
                fov: 6,
                curse: true,
                damage_hp: 1,
                reduce_fov_radius: 3,
            },
            'W' => Tile::Wither { visible: false, hp: 3, damage: 2, fov: 8 },
            'B' => Tile::Bat { visible: false, hp: 1, damage: 1, fov: 6 },
            'U' => Tile::Brute { visible: false, hp: 20, damage: 10, fov: 4 },
            _ => Tile::Empty,
        }
    }

    /// Reads one character of a map text. A secret gets a rarity of 1, 10,
    /// 100 or 1000, drawn at random; every other character has one reading.
    pub fn from_char(c: char) -> (tile: Tile)
        ensures
            exists|magnitude: nat| magnitude <= 3 && tile == Tile::parse(c, rarity_of(magnitude)),
            c != '?' ==> tile == Tile::parse(c, 1),
    {
        let magnitude: usize = if c == '?' {
            uniform_inclusive(0, 3)
        } else {
            0
        };
        let rarity: u32 = rarity_for(magnitude);
        assert(rarity == rarity_of(magnitude as nat));
        Tile::from_char_with_rarity(c, rarity)
    }
}

/// Ten to the power of `magnitude`, with every magnitude above three counted
/// as three.
pub fn rarity_for(magnitude: usize) -> (rarity: u32)
    ensures
        rarity == rarity_of(magnitude as nat),
{
    if magnitude == 0 {
        1
    } else if magnitude == 1 {
        10
    } else if magnitude == 2 {
        100
    } else {
        1000
    }
}

} // verus!
