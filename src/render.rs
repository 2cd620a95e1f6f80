use vstd::prelude::*;
use crate::enemy::Enemy;
use crate::map::GameMap;
use crate::visibility::display_glyph;
use crate::player::Player;

verus! {

/// Most lines the message log keeps.
pub const MAX_MESSAGES: usize = 5;

/// One line of the message log.
#[derive(Clone, Copy, Debug, PartialEq, Eq, Structural)]
pub enum LogMessage {
    /// The player hit an enemy for this much damage.
    EnemyHit(i32),
    /// The player killed an enemy.
    EnemyKilled,
    /// An enemy hit the player for this much damage.
    PlayerHit(i32),
    /// An enemy killed the player.
    PlayerKilled,
    /// The player drank a potion that restores this much health.
    PotionDrunk(i32),
}

/// A live enemy of `enemies` stands on `(x, y)`.
pub open spec fn live_enemy_on(enemies: Seq<Enemy>, x: int, y: int) -> bool {
    exists|i: int|
        0 <= i < enemies.len() && #[trigger] enemies[i].hp > 0 && enemies[i].x == x && enemies[i].y
            == y
}

/// What the screen shows at `(x, y)`: the player, else a live enemy on a revealed
/// cell, else the cell's own glyph.
pub open spec fn screen_glyph(
    m: GameMap,
    player: Player,
    enemies: Seq<Enemy>,
    x: int,
    y: int,
) -> char {
    if player.x == x && player.y == y {
        '@'
    } else if m.revealed_at(x, y) && live_enemy_on(enemies, x, y) {
        'g'
    } else {
        display_glyph(m, x, y)
    }
}

/// The screen's state: the message log, most recent last.
pub struct Renderer {
    messages: Vec<LogMessage>,
}

impl Renderer {
    pub closed spec fn log(&self) -> Seq<LogMessage> {
        self.messages@
    }

    pub fn new() -> (r: Renderer)
        ensures
            r.log().len() == 0,
    {
        Renderer { messages: Vec::new() }
    }

    /// Appends a line, dropping the oldest when more than `MAX_MESSAGES` are held.
    pub fn add_message(&mut self, message: LogMessage)
        requires
            old(self).log().len() <= MAX_MESSAGES,
        ensures
            final(self).log() == if old(self).log().len() + 1 > MAX_MESSAGES {
                old(self).log().push(message).drop_first()
            } else {
                old(self).log().push(message)
            },
            final(self).log().len() <= MAX_MESSAGES,
    {
        self.messages.push(message);
        if self.messages.len() > MAX_MESSAGES {
            self.messages.remove(0);
            assert(self.messages@ =~= old(self).log().push(message).drop_first());
        }
    }

    /// The log, oldest line first.
    pub fn messages(&self) -> (r: &Vec<LogMessage>)
        ensures
            r@ == self.log(),
    {
        &self.messages
    }

    pub fn get_char_at(
        &self,
        x: usize,
        y: usize,
        map: &GameMap,
        player: &Player,
        enemies: &[Enemy],
    ) -> (r: char)
        requires
            map.wf(),
        ensures
            r == screen_glyph(*map, *player, enemies@, x as int, y as int),
    {
        if player.x == x && player.y == y {
            return player.to_char();
        }
        if map.is_revealed(x, y) {
            let mut i: usize = 0;
            while i < enemies.len()
                invariant
                    i <= enemies@.len(),
                    map.revealed_at(x as int, y as int),
                    !(player.x == x && player.y == y),
                    forall|j: int|
                        0 <= j < i ==> !(#[trigger] enemies@[j].hp > 0 && enemies@[j].x == x
                            && enemies@[j].y == y),
                decreases enemies@.len() - i,
            {
                let enemy = &enemies[i];
                if enemy.is_alive() && enemy.x == x && enemy.y == y {
                    proof {
                        assert(enemies@[i as int].hp > 0);
                        assert(live_enemy_on(enemies@, x as int, y as int));
                    }
                    return enemy.to_char();
                }
                i += 1;
            }
        }
        map.get_tile_char(x, y)
    }
}

impl Default for Renderer {
    fn default() -> (r: Renderer)
        ensures
            r.log().len() == 0,
    {
        Renderer::new()
    }
}

} // verus!
