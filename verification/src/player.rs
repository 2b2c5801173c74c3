//! The player: level, experience and the values that rise with the level.

use vstd::prelude::*;

verus! {

/// The experience that each level asks for, per level reached.
pub const XP_PER_LEVEL: u32 = 100;

/// The hit points that a new level adds.
pub const HP_PER_LEVEL: u32 = 5;

pub struct Player {
    pub level: u32,
    pub exp: u32,
    pub max_hp: u32,
    pub current_hp: u32,
    pub strength: u32,
    pub defense: u32,
    pub fov_radius: u32,
}

impl Player {
    /// The experience at which the player rises to the next level.
    pub open spec fn next_level_at(self) -> int {
        self.level * XP_PER_LEVEL
    }

    /// The values that rise with a level have room to rise once more.
    pub open spec fn can_level_up(self) -> bool {
        &&& self.level < u32::MAX
        &&& self.max_hp + HP_PER_LEVEL <= u32::MAX
        &&& self.strength < u32::MAX
        &&& self.defense < u32::MAX
    }

    /// The player one level higher: healed to a maximum that is five hit
    /// points larger, one point stronger in attack and in defence, and with
    /// no experience towards the level after.
    pub open spec fn leveled_up(self) -> Player {
        Player {
            level: (self.level + 1) as u32,
            exp: 0,
            max_hp: (self.max_hp + HP_PER_LEVEL) as u32,
            current_hp: (self.max_hp + HP_PER_LEVEL) as u32,
            strength: (self.strength + 1) as u32,
            defense: (self.defense + 1) as u32,
            fov_radius: self.fov_radius,
        }
    }

    /// The player after gaining experience: with the experience added, and a
    /// level higher if that reaches what the level asks for.
    pub open spec fn with_exp(self, amount: u32) -> Player {
        let gained = Player { exp: (self.exp + amount) as u32, ..self };
        if gained.exp >= self.next_level_at() {
            gained.leveled_up()
        } else {
            gained
        }
    }

    /// The player after a blow: the hit points go down by `amount`, but not
    /// below zero.
    pub open spec fn hurt(self, amount: u32) -> Player {
        Player {
            current_hp: if self.current_hp >= amount {
                (self.current_hp - amount) as u32
            } else {
                0
            },
            ..self
        }
    }

    /// The player at the start of a game.
    pub open spec fn new_spec() -> Player {
        Player {
            level: 1,
            exp: 0,
            max_hp: 20,
            current_hp: 2,
            strength: 5,
            defense: 2,
            fov_radius: 4,
        }
    }

    /// A new player, at level one.
    pub fn new() -> (player: Player)
        ensures
            player == Player::new_spec(),
    {
        Player {
            level: 1,
            exp: 0,
            max_hp: 20,
            current_hp: 2,
            strength: 5,
            defense: 2,
            fov_radius: 4,
        }
    }

    pub fn xp_for_next_level(&self) -> (xp: u32)
        requires
            self.next_level_at() <= u32::MAX,
        ensures
            xp == self.next_level_at(),
    {
        self.level * XP_PER_LEVEL
    }

    pub fn gain_exp(&mut self, amount: u32)
        requires
            old(self).exp + amount <= u32::MAX,
            old(self).next_level_at() <= u32::MAX,
            old(self).exp + amount >= old(self).next_level_at() ==> old(self).can_level_up(),
        ensures
            *final(self) == old(self).with_exp(amount),
    {
        self.exp += amount;
        if self.exp >= self.xp_for_next_level() {
            self.level_up();
        }
    }

    pub fn level_up(&mut self)
        requires
            old(self).can_level_up(),
        ensures
            *final(self) == old(self).leveled_up(),
    {
        self.level += 1;
        self.max_hp += HP_PER_LEVEL;
        self.current_hp = self.max_hp;
        self.strength += 1;
        self.defense += 1;
        self.exp = 0;
    }

    pub fn take_damage(&mut self, amount: u32)
        ensures
            *final(self) == old(self).hurt(amount),
    {
        self.current_hp = self.current_hp.saturating_sub(amount);
    }

    pub fn is_dead(&self) -> (dead: bool)
        ensures
            dead == (self.current_hp == 0),
    {
        self.current_hp == 0
    }
}

} // verus!
