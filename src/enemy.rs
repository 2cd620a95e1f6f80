use vstd::prelude::*;
use crate::map::GameMap;

verus! {

#[derive(Clone, Copy, Debug, PartialEq, Eq, Structural)]
pub enum EnemyType {
    Goblin,
}

pub open spec fn enemy_base_hp(t: EnemyType) -> i32 {
    match t {
        EnemyType::Goblin => 6,
    }
}

pub open spec fn enemy_base_power(t: EnemyType) -> i32 {
    match t {
        EnemyType::Goblin => 3,
    }
}

impl EnemyType {
    pub fn to_char(&self) -> (r: char)
        ensures
            r == 'g',
    {
        match self {
            EnemyType::Goblin => 'g',
        }
    }

    pub fn base_hp(&self) -> (r: i32)
        ensures
            r == enemy_base_hp(*self),
    {
        match self {
            EnemyType::Goblin => 6,
        }
    }

    pub fn base_power(&self) -> (r: i32)
        ensures
            r == enemy_base_power(*self),
    {
        match self {
            EnemyType::Goblin => 3,
        }
    }
}

/// An enemy: position, health, attack strength and kind. It takes part in the game
/// while its health is above zero.
#[derive(Clone, Copy, Debug)]
pub struct Enemy {
    pub x: usize,
    pub y: usize,
    pub hp: i32,
    pub max_hp: i32,
    pub power: i32,
    pub enemy_type: EnemyType,
}

/// `-1`, `0` or `1`: the direction from `from` toward `to` on one axis.
pub open spec fn unit_step(from: int, to: int) -> int {
    if to > from {
        1
    } else if to < from {
        -1
    } else {
        0
    }
}

pub open spec fn abs_diff(a: int, b: int) -> int {
    if a >= b {
        a - b
    } else {
        b - a
    }
}

/// Manhattan distance between two cells.
pub open spec fn manhattan(ax: int, ay: int, bx: int, by: int) -> int {
    abs_diff(ax, bx) + abs_diff(ay, by)
}

/// `(x, y)` is the player's cell, or that of a live enemy of `enemies` other than
/// the one at index `exclude`.
pub open spec fn occupied(
    enemies: Seq<Enemy>,
    exclude: int,
    x: int,
    y: int,
    player_x: int,
    player_y: int,
) -> bool {
    (x == player_x && y == player_y) || exists|i: int|
        0 <= i < enemies.len() && i != exclude && #[trigger] enemies[i].hp > 0 && enemies[i].x == x
            && enemies[i].y == y
}

/// An enemy may step onto `(x, y)`.
pub open spec fn free_cell(
    m: GameMap,
    enemies: Seq<Enemy>,
    exclude: int,
    x: int,
    y: int,
    player_x: int,
    player_y: int,
) -> bool {
    m.walkable_at(x, y) && !occupied(enemies, exclude, x, y, player_x, player_y)
}

/// Where an enemy at `(x, y)` ends after one step toward `(tx, ty)`: the diagonal
/// step if that cell is free, else the horizontal one, else the vertical one, else
/// it stays.
pub open spec fn step_toward(
    m: GameMap,
    enemies: Seq<Enemy>,
    self_index: int,
    x: int,
    y: int,
    tx: int,
    ty: int,
    player_x: int,
    player_y: int,
) -> (int, int) {
    let dx = unit_step(x, tx);
    let dy = unit_step(y, ty);
    if free_cell(m, enemies, self_index, x + dx, y + dy, player_x, player_y) {
        (x + dx, y + dy)
    } else if dx != 0 && free_cell(m, enemies, self_index, x + dx, y, player_x, player_y) {
        (x + dx, y)
    } else if dy != 0 && free_cell(m, enemies, self_index, x, y + dy, player_x, player_y) {
        (x, y + dy)
    } else {
        (x, y)
    }
}

/// The coordinate one step from `c` in direction `d` (`-1`, `0` or `1`), if it is
/// a valid coordinate.
pub fn offset(c: usize, d: i32) -> (r: Option<usize>)
    requires
        -1 <= d <= 1,
    ensures
        match r {
            Some(v) => v == c + d,
            None => c + d < 0 || c + d > usize::MAX,
        },
{
    if d < 0 {
        if c == 0 {
            None
        } else {
            Some(c - 1)
        }
    } else if d > 0 {
        if c == usize::MAX {
            None
        } else {
            Some(c + 1)
        }
    } else {
        Some(c)
    }
}

impl Enemy {
    /// A goblin at full health on `(x, y)`.
    pub open spec fn goblin_at(x: usize, y: usize) -> Enemy {
        Enemy { x, y, hp: 6, max_hp: 6, power: 3, enemy_type: EnemyType::Goblin }
    }

    /// Health lies between zero and the maximum, and the attack strength is not negative.
    pub open spec fn wf(&self) -> bool {
        0 <= self.hp <= self.max_hp && self.power >= 0
    }

    pub open spec fn alive(&self) -> bool {
        self.hp > 0
    }

    pub fn new(x: usize, y: usize, enemy_type: EnemyType) -> (r: Enemy)
        ensures
            r.wf(),
            r == (Enemy {
                x,
                y,
                hp: enemy_base_hp(enemy_type),
                max_hp: enemy_base_hp(enemy_type),
                power: enemy_base_power(enemy_type),
                enemy_type,
            }),
    {
        let hp = enemy_type.base_hp();
        let power = enemy_type.base_power();
        Enemy { x, y, hp, max_hp: hp, power, enemy_type }
    }

    pub fn goblin(x: usize, y: usize) -> (r: Enemy)
        ensures
            r.wf(),
            r == Enemy::goblin_at(x, y),
    {
        Enemy::new(x, y, EnemyType::Goblin)
    }

    /// Loses `damage` health, never going below zero.
    pub fn take_damage(&mut self, damage: i32)
        requires
            old(self).wf(),
            damage >= 0,
        ensures
            final(self).wf(),
            final(self).hp == if old(self).hp - damage < 0 { 0 } else { old(self).hp - damage },
            *final(self) == (Enemy { hp: final(self).hp, ..*old(self) }),
    {
        self.hp = self.hp - damage;
        if self.hp < 0 {
            self.hp = 0;
        }
    }

    pub fn is_alive(&self) -> (r: bool)
        ensures
            r == self.alive(),
    {
        self.hp > 0
    }

    pub fn to_char(&self) -> (r: char)
        ensures
            r == 'g',
    {
        self.enemy_type.to_char()
    }

    /// `(x, y)` is the player's cell or that of a live enemy other than the one at
    /// `exclude_index`.
    fn position_occupied(
        x: usize,
        y: usize,
        enemies: &[Enemy],
        exclude_index: usize,
        player_x: usize,
        player_y: usize,
    ) -> (r: bool)
        ensures
            r == occupied(
                enemies@,
                exclude_index as int,
                x as int,
                y as int,
                player_x as int,
                player_y as int,
            ),
    {
        if x == player_x && y == player_y {
            return true;
        }
        let mut i: usize = 0;
        while i < enemies.len()
            invariant
                i <= enemies@.len(),
                !(x == player_x && y == player_y),
                forall|j: int|
                    0 <= j < i && j != exclude_index ==> !(#[trigger] enemies@[j].hp > 0
                        && enemies@[j].x == x && enemies@[j].y == y),
            decreases enemies@.len() - i,
        {
            let e = &enemies[i];
            if i != exclude_index && e.hp > 0 && e.x == x && e.y == y {
                return true;
            }
            i += 1;
        }
        false
    }

    /// The enemy may step onto `(x, y)`, given as possibly invalid coordinates.
    fn can_enter(
        map: &GameMap,
        enemies: &[Enemy],
        self_index: usize,
        x: Option<usize>,
        y: Option<usize>,
        player_x: usize,
        player_y: usize,
    ) -> (r: bool)
        requires
            map.wf(),
        ensures
            r == match (x, y) {
                (Some(a), Some(b)) => free_cell(
                    *map,
                    enemies@,
                    self_index as int,
                    a as int,
                    b as int,
                    player_x as int,
                    player_y as int,
                ),
                _ => false,
            },
    {
        match (x, y) {
            (Some(a), Some(b)) => map.is_walkable(a, b) && !Self::position_occupied(
                a,
                b,
                enemies,
                self_index,
                player_x,
                player_y,
            ),
            _ => false,
        }
    }

    /// Takes one step toward `(target_x, target_y)`: diagonally if that cell is free,
    /// else horizontally, else vertically, else stays. A cell is free when it can be
    /// walked on and neither the player nor a live enemy of `enemies` other than the
    /// one at `self_index` stands on it.
    pub fn move_toward(
        &mut self,
        target_x: usize,
        target_y: usize,
        map: &GameMap,
        enemies: &[Enemy],
        self_index: usize,
        player_x: usize,
        player_y: usize,
    )
        requires
            map.wf(),
        ensures
            (final(self).x as int, final(self).y as int) == step_toward(
                *map,
                enemies@,
                self_index as int,
                old(self).x as int,
                old(self).y as int,
                target_x as int,
                target_y as int,
                player_x as int,
                player_y as int,
            ),
            *final(self) == (Enemy { x: final(self).x, y: final(self).y, ..*old(self) }),
    {
        let dx: i32 = if target_x > self.x { 1 } else if target_x < self.x { -1 } else { 0 };
        let dy: i32 = if target_y > self.y { 1 } else if target_y < self.y { -1 } else { 0 };
        let nx = offset(self.x, dx);
        let ny = offset(self.y, dy);
        proof {
            assert(!map.walkable_at(self.x + dx, self.y + dy) || (nx.is_some() && ny.is_some()));
            assert(!map.walkable_at(self.x + dx, self.y as int) || nx.is_some());
            assert(!map.walkable_at(self.x as int, self.y + dy) || ny.is_some());
        }
        if Self::can_enter(map, enemies, self_index, nx, ny, player_x, player_y) {
            self.x = nx.unwrap();
            self.y = ny.unwrap();
        } else if dx != 0 && Self::can_enter(map, enemies, self_index, nx, Some(self.y), player_x, player_y) {
            self.x = nx.unwrap();
        } else if dy != 0 && Self::can_enter(map, enemies, self_index, Some(self.x), ny, player_x, player_y) {
            self.y = ny.unwrap();
        }
    }

    /// Manhattan distance to `(x, y)`, saturated at `usize::MAX`.
    pub fn distance_to(&self, x: usize, y: usize) -> (r: usize)
        ensures
            r == if manhattan(self.x as int, self.y as int, x as int, y as int) <= usize::MAX {
                manhattan(self.x as int, self.y as int, x as int, y as int)
            } else {
                usize::MAX as int
            },
    {
        let dx = if self.x >= x { self.x - x } else { x - self.x };
        let dy = if self.y >= y { self.y - y } else { y - self.y };
        dx.saturating_add(dy)
    }
}

} // verus!
