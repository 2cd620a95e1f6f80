use vstd::prelude::*;

verus! {

pub const PLAYER_MAX_HP: i32 = 20;

pub const PLAYER_POWER: i32 = 5;

/// The player: position, health and attack strength.
pub struct Player {
    pub x: usize,
    pub y: usize,
    pub hp: i32,
    pub max_hp: i32,
    pub power: i32,
}

impl Player {
    /// Health lies between zero and the maximum, and the attack strength is not negative.
    pub open spec fn wf(&self) -> bool {
        0 <= self.hp <= self.max_hp && self.power >= 0
    }

    pub open spec fn alive(&self) -> bool {
        self.hp > 0
    }

    pub fn new(x: usize, y: usize) -> (r: Player)
        ensures
            r.wf(),
            r == (Player { x, y, hp: PLAYER_MAX_HP, max_hp: PLAYER_MAX_HP, power: PLAYER_POWER }),
    {
        Player { x, y, hp: PLAYER_MAX_HP, max_hp: PLAYER_MAX_HP, power: PLAYER_POWER }
    }

    pub fn move_by(&mut self, dx: i32, dy: i32)
        requires
            0 <= old(self).x + dx <= usize::MAX,
            0 <= old(self).y + dy <= usize::MAX,
        ensures
            final(self).x == old(self).x + dx,
            final(self).y == old(self).y + dy,
            final(self).hp == old(self).hp,
            final(self).max_hp == old(self).max_hp,
            final(self).power == old(self).power,
    {
        self.x = (self.x as i128 + dx as i128) as usize;
        self.y = (self.y as i128 + dy as i128) as usize;
    }

    /// Loses `damage` health, never going below zero.
    pub fn take_damage(&mut self, damage: i32)
        requires
            old(self).wf(),
            damage >= 0,
        ensures
            final(self).wf(),
            final(self).hp == if old(self).hp - damage < 0 { 0 } else { old(self).hp - damage },
            final(self).x == old(self).x,
            final(self).y == old(self).y,
            final(self).max_hp == old(self).max_hp,
            final(self).power == old(self).power,
    {
        self.hp = self.hp - damage;
        if self.hp < 0 {
            self.hp = 0;
        }
    }

    pub fn is_alive(&self) -> (r: bool)
        ensures
            r == self.alive(),
    {
        self.hp > 0
    }

    /// Gains `amount` health, never going above the maximum.
    pub fn heal(&mut self, amount: i32)
        requires
            old(self).wf(),
            amount >= 0,
        ensures
            final(self).wf(),
            final(self).hp == if old(self).hp + amount > old(self).max_hp {
                old(self).max_hp as int
            } else {
                old(self).hp + amount
            },
            final(self).x == old(self).x,
            final(self).y == old(self).y,
            final(self).max_hp == old(self).max_hp,
            final(self).power == old(self).power,
    {
        if amount >= self.max_hp - self.hp {
            self.hp = self.max_hp;
        } else {
            self.hp = self.hp + amount;
        }
    }

    pub fn to_char(&self) -> (r: char)
        ensures
            r == '@',
    {
        '@'
    }
}

} // verus!
