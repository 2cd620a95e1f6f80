use vstd::prelude::*;
use crate::combat::{attack_damage, enemy_attack, hp_after, player_attack, ENEMY_VARIANCE, PLAYER_VARIANCE};
use crate::enemy::{manhattan, offset, step_toward, Enemy};
use crate::input::Action;
use crate::map::{room_center, room_contains, walkable_kept, GameMap, Room, Tile};
use crate::visibility::revealed_kept;
use crate::generation::{room_placed, rooms_disjoint};
use crate::map::rooms_intersect;
use crate::player::{Player, PLAYER_MAX_HP, PLAYER_POWER};
use crate::render::{live_enemy_on, LogMessage, Renderer, MAX_MESSAGES};

verus! {

pub const MAP_WIDTH: usize = 100;

pub const MAP_HEIGHT: usize = 35;

pub const NUM_ROOMS: usize = 12;

pub const MIN_ROOM_SIZE: usize = 4;

pub const MAX_ROOM_SIZE: usize = 8;

/// Manhattan distance within which an enemy chases the player.
pub const ENEMY_CHASE_RANGE: usize = 8;

/// Health a potion restores.
pub const POTION_HEAL: i32 = 5;

/// How a turn ended.
#[derive(Clone, Copy, Debug, PartialEq, Eq, Structural)]
pub enum TurnOutcome {
    /// The game goes on.
    Continue,
    /// The player died.
    GameOver,
    /// Every enemy died.
    Victory,
    /// The player asked to leave.
    Quit,
}

/// Where enemy `i` of the pre-phase snapshot `snap` ends the enemy phase: a live enemy
/// next to the player attacks and stays, one within chase range takes one step
/// toward the player, judged against the snapshot; any other stays.
pub open spec fn phase_position(m: GameMap, snap: Seq<Enemy>, i: int, px: int, py: int) -> (
    int,
    int,
) {
    let e = snap[i];
    let d = manhattan(e.x as int, e.y as int, px, py);
    if e.hp > 0 && d != 1 && d <= ENEMY_CHASE_RANGE {
        step_toward(m, snap, i, e.x as int, e.y as int, px, py, px, py)
    } else {
        (e.x as int, e.y as int)
    }
}

/// A live enemy of the sequence stands next to `(px, py)`.
pub open spec fn adjacent_attacker(enemies: Seq<Enemy>, px: int, py: int) -> bool {
    exists|i: int|
        0 <= i < enemies.len() && #[trigger] enemies[i].hp > 0 && manhattan(
            enemies[i].x as int,
            enemies[i].y as int,
            px,
            py,
        ) == 1
}

/// All enemies of the sequence are dead.
pub open spec fn all_dead(enemies: Seq<Enemy>) -> bool {
    forall|i: int| 0 <= i < enemies.len() ==> (#[trigger] enemies[i]).hp <= 0
}

/// `b` is `a` with possibly more cells revealed: same grid, tiles and rooms.
pub open spec fn only_reveals(a: GameMap, b: GameMap) -> bool {
    &&& b.wf()
    &&& b.width == a.width
    &&& b.height == a.height
    &&& b.tiles@ == a.tiles@
    &&& b.rooms@ == a.rooms@
    &&& revealed_kept(a, b)
}

/// Room `r` and the ring of cells around it are revealed, as far as the grid goes.
pub open spec fn room_shown(m: GameMap, r: Room) -> bool {
    forall|a: int, b: int|
        m.in_bounds(a, b) && r.x - 1 <= a <= r.x + r.width && r.y - 1 <= b <= r.y + r.height
            ==> #[trigger] m.revealed_at(a, b)
}

/// The first room of `m` that contains `(x, y)`, if any, is shown.
pub open spec fn first_room_shown(m: GameMap, x: int, y: int) -> bool {
    forall|i: int|
        0 <= i < m.rooms@.len() && room_contains(#[trigger] m.rooms@[i], x, y) && (forall|j: int|
            0 <= j < i ==> !room_contains(m.rooms@[j], x, y)) ==> room_shown(m, m.rooms@[i])
}

/// What stepping onto `(x, y)` does to the dungeon and the player: the cell is
/// revealed; on a corridor the 3 x 3 block around it too; on a door the first room
/// containing each side neighbour is shown; the first room containing the cell is
/// shown; a potion there is drunk and becomes floor, healing the player.
pub open spec fn step_effects(m0: GameMap, m: GameMap, p0: Player, p: Player, x: int, y: int) -> bool {
    &&& m.revealed_at(x, y)
    &&& (m0.tile(x, y) == Tile::Corridor ==> forall|a: int, b: int|
        m.in_bounds(a, b) && x - 1 <= a <= x + 1 && y - 1 <= b <= y + 1 ==> #[trigger] m.revealed_at(a, b))
    &&& (m0.tile(x, y) == Tile::Door ==> {
        &&& first_room_shown(m, x - 1, y)
        &&& first_room_shown(m, x + 1, y)
        &&& first_room_shown(m, x, y - 1)
        &&& first_room_shown(m, x, y + 1)
    })
    &&& first_room_shown(m, x, y)
    &&& (m0.tile(x, y) == Tile::Potion ==> {
        &&& forall|a: int, b: int|
            m0.in_bounds(a, b) ==> #[trigger] m.tile(a, b) == if a == x && b == y {
                Tile::Floor
            } else {
                m0.tile(a, b)
            }
        &&& p.hp == if p0.hp + POTION_HEAL > p0.max_hp { p0.max_hp as int } else { p0.hp + POTION_HEAL }
    })
    &&& (m0.tile(x, y) != Tile::Potion ==> m.tiles@ == m0.tiles@ && p.hp == p0.hp)
    &&& p.max_hp == p0.max_hp
    &&& p.power == p0.power
}

proof fn lemma_first_room_shown_kept(a: GameMap, b: GameMap, x: int, y: int)
    requires
        first_room_shown(a, x, y),
        only_reveals(a, b),
    ensures
        first_room_shown(b, x, y),
{
    assert forall|i: int|
        0 <= i < b.rooms@.len() && room_contains(#[trigger] b.rooms@[i], x, y) && (forall|j: int|
            0 <= j < i ==> !room_contains(b.rooms@[j], x, y)) implies room_shown(b, b.rooms@[i]) by {
        assert(room_shown(a, a.rooms@[i]));
        assert forall|p: int, q: int|
            b.in_bounds(p, q) && b.rooms@[i].x - 1 <= p <= b.rooms@[i].x + b.rooms@[i].width
                && b.rooms@[i].y - 1 <= q <= b.rooms@[i].y + b.rooms@[i].height implies #[trigger] b.revealed_at(p, q) by {
            assert(a.revealed_at(p, q));
        }
    }
}

/// `i` is the index of the first live enemy of the sequence on `(x, y)`.
pub open spec fn first_live_enemy_at(enemies: Seq<Enemy>, i: int, x: int, y: int) -> bool {
    &&& 0 <= i < enemies.len()
    &&& enemies[i].hp > 0
    &&& enemies[i].x == x
    &&& enemies[i].y == y
    &&& forall|j: int|
        0 <= j < i ==> !(#[trigger] enemies[j].hp > 0 && enemies[j].x == x && enemies[j].y == y)
}

/// The player's health after the enemies of `snap` up to index `n` (excluded) have
/// acted, starting from `hp`: each live enemy next to `(px, py)` hits once, its attack
/// weakened by its own variance draw `vs[k]`.
pub open spec fn phase_hp(snap: Seq<Enemy>, px: int, py: int, hp: int, vs: Seq<int>, n: int) -> int
    decreases n,
{
    if n <= 0 {
        hp
    } else {
        let prev = phase_hp(snap, px, py, hp, vs, n - 1);
        let e = snap[n - 1];
        if e.hp > 0 && manhattan(e.x as int, e.y as int, px, py) == 1 {
            hp_after(prev, attack_damage(e.power as int, vs[n - 1]))
        } else {
            prev
        }
    }
}

/// What the player's step by `(dx, dy)` does to game `g0`, giving `g`. A live enemy
/// on the destination (the first one there) is hit and nothing else changes; else a
/// walkable destination is entered with the effects of `step_effects`; else nothing
/// changes.
pub open spec fn player_move_result(g0: Game, g: Game, dx: int, dy: int) -> bool {
    let tx = g0.player.x + dx;
    let ty = g0.player.y + dy;
    &&& g.running == g0.running
    &&& g.map.width == g0.map.width
    &&& g.map.height == g0.map.height
    &&& g.map.rooms@ == g0.map.rooms@
    &&& revealed_kept(g0.map, g.map)
    &&& walkable_kept(g0.map, g.map)
    &&& g.enemies@.len() == g0.enemies@.len()
    &&& live_enemy_on(g0.enemies@, tx, ty) ==> {
        &&& g.player == g0.player
        &&& g.map.tiles@ == g0.map.tiles@
        &&& g.map.revealed@ == g0.map.revealed@
        &&& exists|i: int|
            #[trigger] first_live_enemy_at(g0.enemies@, i, tx, ty) && (exists|v: int|
                0 <= v <= PLAYER_VARIANCE && g.enemies@[i].hp == hp_after(
                    g0.enemies@[i].hp as int,
                    #[trigger] attack_damage(g0.player.power as int, v),
                )) && g.enemies@[i].hp < g0.enemies@[i].hp && g.enemies@[i] == (Enemy {
                hp: g.enemies@[i].hp,
                ..g0.enemies@[i]
            }) && g.enemies@ == g0.enemies@.update(i, g.enemies@[i])
    }
    &&& !live_enemy_on(g0.enemies@, tx, ty) && g0.map.walkable_at(tx, ty) ==> {
        &&& g.player.x == tx
        &&& g.player.y == ty
        &&& g.enemies@ == g0.enemies@
        &&& step_effects(g0.map, g.map, g0.player, g.player, tx, ty)
    }
    &&& !live_enemy_on(g0.enemies@, tx, ty) && !g0.map.walkable_at(tx, ty) ==> {
        &&& g.player == g0.player
        &&& g.enemies@ == g0.enemies@
        &&& g.map.tiles@ == g0.map.tiles@
        &&& g.map.revealed@ == g0.map.revealed@
    }
}

/// What the enemy phase does to game `g0`, giving `g`: the dungeon stays; each enemy
/// ends on `phase_position` of the pre-phase snapshot with its other fields kept; the
/// player keeps its place and loses, to each live enemy next to it before the phase,
/// one attack's damage with a variance between zero and `ENEMY_VARIANCE`.
pub open spec fn enemy_phase_result(g0: Game, g: Game) -> bool {
    let px = g0.player.x as int;
    let py = g0.player.y as int;
    &&& g.map == g0.map
    &&& g.player.x == g0.player.x
    &&& g.player.y == g0.player.y
    &&& g.player.max_hp == g0.player.max_hp
    &&& g.player.power == g0.player.power
    &&& exists|vs: Seq<int>|
        vs.len() == g0.enemies@.len() && (forall|k: int|
            0 <= k < vs.len() ==> 0 <= #[trigger] vs[k] <= ENEMY_VARIANCE) && g.player.hp
            == #[trigger] phase_hp(g0.enemies@, px, py, g0.player.hp as int, vs, vs.len() as int)
    &&& adjacent_attacker(g0.enemies@, px, py) ==> g.player.hp < g0.player.hp || g0.player.hp == 0
    &&& !adjacent_attacker(g0.enemies@, px, py) ==> g.player.hp == g0.player.hp
    &&& g.enemies@.len() == g0.enemies@.len()
    &&& forall|i: int|
        0 <= i < g.enemies@.len() ==> {
            &&& (#[trigger] g.enemies@[i]).x as int == phase_position(g0.map, g0.enemies@, i, px, py).0
            &&& g.enemies@[i].y as int == phase_position(g0.map, g0.enemies@, i, px, py).1
            &&& g.enemies@[i] == (Enemy { x: g.enemies@[i].x, y: g.enemies@[i].y, ..g0.enemies@[i] })
        }
}

proof fn lemma_phase_hp_prefix(
    snap: Seq<Enemy>,
    px: int,
    py: int,
    hp: int,
    vs: Seq<int>,
    ws: Seq<int>,
    n: int,
)
    requires
        forall|k: int| 0 <= k < n ==> vs[k] == ws[k],
    ensures
        phase_hp(snap, px, py, hp, vs, n) == phase_hp(snap, px, py, hp, ws, n),
    decreases n,
{
    if n > 0 {
        lemma_phase_hp_prefix(snap, px, py, hp, vs, ws, n - 1);
    }
}

/// The game: the dungeon, the player, the enemies (dead ones stay in place, out of
/// play), the message log, and whether the game goes on.
pub struct Game {
    pub map: GameMap,
    pub player: Player,
    pub enemies: Vec<Enemy>,
    pub renderer: Renderer,
    pub running: bool,
}

impl Game {
    pub open spec fn wf(&self) -> bool {
        &&& self.map.wf()
        &&& self.player.wf()
        &&& forall|i: int| 0 <= i < self.enemies@.len() ==> (#[trigger] self.enemies@[i]).wf()
        &&& self.renderer.log().len() <= MAX_MESSAGES
    }

    /// A fresh game: a generated dungeon, the player at the center of the first room
    /// with that room revealed, one goblin at the center of each other room.
    pub fn new() -> (r: Game)
        ensures
            r.wf(),
            r.running,
            r.map.width == MAP_WIDTH,
            r.map.height == MAP_HEIGHT,
            0 < r.map.rooms@.len() <= NUM_ROOMS,
            r.player.x == room_center(r.map.rooms@[0]).0,
            r.player.y == room_center(r.map.rooms@[0]).1,
            r.enemies@.len() == r.map.rooms@.len() - 1,
            forall|i: int|
                0 <= i < r.enemies@.len() ==> (#[trigger] r.enemies@[i]) == Enemy::goblin_at(
                    room_center(r.map.rooms@[i + 1]).0 as usize,
                    room_center(r.map.rooms@[i + 1]).1 as usize,
                ),
            r.player == (Player {
                x: r.player.x,
                y: r.player.y,
                hp: PLAYER_MAX_HP,
                max_hp: PLAYER_MAX_HP,
                power: PLAYER_POWER,
            }),
            rooms_disjoint(r.map.rooms@),
            forall|i: int|
                0 <= i < r.enemies@.len() ==> !((#[trigger] r.enemies@[i]).x == r.player.x
                    && r.enemies@[i].y == r.player.y),
            forall|i: int, j: int|
                0 <= i < r.enemies@.len() && 0 <= j < r.enemies@.len() && i != j ==> !((
                #[trigger] r.enemies@[i]).x == (#[trigger] r.enemies@[j]).x && r.enemies@[i].y
                    == r.enemies@[j].y),
            forall|x: int, y: int|
                #[trigger] r.map.revealed_at(x, y) == (r.map.in_bounds(x, y) && r.map.rooms@[0].x
                    - 1 <= x <= r.map.rooms@[0].x + r.map.rooms@[0].width && r.map.rooms@[0].y - 1
                    <= y <= r.map.rooms@[0].y + r.map.rooms@[0].height),
    {
        let mut map = GameMap::new(MAP_WIDTH, MAP_HEIGHT);
        let ghost fresh = map;
        map.generate(NUM_ROOMS, MIN_ROOM_SIZE, MAX_ROOM_SIZE);
        proof {
            assert forall|x: int, y: int| !#[trigger] map.revealed_at(x, y) by {
                assert(!fresh.revealed_at(x, y));
            }
            assert forall|i: int, j: int|
                0 <= i < map.rooms@.len() && 0 <= j < map.rooms@.len() && i != j implies room_center(
                    #[trigger] map.rooms@[i],
                ) != room_center(#[trigger] map.rooms@[j]) by {
                assert(room_placed(map.rooms@[i], MAP_WIDTH as int, MAP_HEIGHT as int, MIN_ROOM_SIZE as int, MAX_ROOM_SIZE as int));
                assert(room_placed(map.rooms@[j], MAP_WIDTH as int, MAP_HEIGHT as int, MIN_ROOM_SIZE as int, MAX_ROOM_SIZE as int));
                assert(!rooms_intersect(map.rooms@[i], map.rooms@[j]));
            }
        }
        let (px, py) = map.player_spawn();
        let player = Player::new(px, py);
        map.reveal_room(0);
        let spawn_points = map.enemy_spawn_points();
        let mut enemies: Vec<Enemy> = Vec::new();
        let mut i: usize = 0;
        while i < spawn_points.len()
            invariant
                i <= spawn_points@.len(),
                enemies@.len() == i,
                forall|k: int|
                    0 <= k < i ==> (#[trigger] enemies@[k]) == Enemy::goblin_at(
                        spawn_points@[k].0,
                        spawn_points@[k].1,
                    ),
            decreases spawn_points@.len() - i,
        {
            let (x, y) = spawn_points[i];
            enemies.push(Enemy::goblin(x, y));
            i += 1;
        }
        proof {
            assert forall|i: int| 0 <= i < enemies@.len() implies !((#[trigger] enemies@[i]).x == player.x
                && enemies@[i].y == player.y) by {
                assert(room_center(map.rooms@[i + 1]) != room_center(map.rooms@[0]));
            }
            assert forall|i: int, j: int|
                0 <= i < enemies@.len() && 0 <= j < enemies@.len() && i != j implies !((
                #[trigger] enemies@[i]).x == (#[trigger] enemies@[j]).x && enemies@[i].y
                    == enemies@[j].y) by {
                assert(room_center(map.rooms@[i + 1]) != room_center(map.rooms@[j + 1]));
            }
        }
        Game { map, player, enemies, renderer: Renderer::new(), running: true }
    }

    /// Index of the first live enemy on `(x, y)`.
    pub fn enemy_at(&self, x: usize, y: usize) -> (r: Option<usize>)
        ensures
            match r {
                Some(i) => first_live_enemy_at(self.enemies@, i as int, x as int, y as int),
                None => !live_enemy_on(self.enemies@, x as int, y as int),
            },
    {
        let mut i: usize = 0;
        while i < self.enemies.len()
            invariant
                i <= self.enemies@.len(),
                forall|j: int|
                    0 <= j < i ==> !(#[trigger] self.enemies@[j].hp > 0 && self.enemies@[j].x == x
                        && self.enemies@[j].y == y),
            decreases self.enemies@.len() - i,
        {
            let e = &self.enemies[i];
            if e.is_alive() && e.x == x && e.y == y {
                return Some(i);
            }
            i += 1;
        }
        None
    }

    pub fn all_enemies_dead(&self) -> (r: bool)
        ensures
            r == all_dead(self.enemies@),
    {
        let mut i: usize = 0;
        while i < self.enemies.len()
            invariant
                i <= self.enemies@.len(),
                forall|j: int| 0 <= j < i ==> (#[trigger] self.enemies@[j]).hp <= 0,
            decreases self.enemies@.len() - i,
        {
            if self.enemies[i].is_alive() {
                return false;
            }
            i += 1;
        }
        true
    }

    /// Reveals the first room that contains `(x, y)`, if the coordinates are valid
    /// and there is one.
    fn reveal_room_containing(&mut self, x: Option<usize>, y: Option<usize>)
        requires
            old(self).wf(),
        ensures
            final(self).wf(),
            only_reveals(old(self).map, final(self).map),
            final(self).player == old(self).player,
            final(self).enemies@ == old(self).enemies@,
            final(self).renderer == old(self).renderer,
            final(self).running == old(self).running,
            match (x, y) {
                (Some(a), Some(b)) => first_room_shown(final(self).map, a as int, b as int),
                _ => true,
            },
    {
        if let (Some(x), Some(y)) = (x, y) {
            if let Some(room_idx) = self.map.room_at(x, y) {
                self.map.reveal_room(room_idx);
                proof {
                    let m = self.map;
                    assert forall|i: int|
                        0 <= i < m.rooms@.len() && room_contains(#[trigger] m.rooms@[i], x as int, y as int) && (forall|j: int|
                            0 <= j < i ==> !room_contains(m.rooms@[j], x as int, y as int)) implies room_shown(m, m.rooms@[i]) by {
                        if i < room_idx {
                        } else if i > room_idx {
                            assert(!room_contains(m.rooms@[room_idx as int], x as int, y as int));
                        }
                    }
                }
            }
        }
    }

    /// The player's step by `(dx, dy)`. A live enemy on the destination is attacked
    /// and the player stays. Otherwise, if the destination can be walked on, the
    /// player moves there and reveals it; on a corridor the 3 x 3 block around it is
    /// revealed, on a door the rooms beside it, and a room entered is revealed; a
    /// potion there is drunk. Any other step changes nothing.
    pub fn handle_player_move(&mut self, dx: i32, dy: i32)
        requires
            old(self).wf(),
            -1 <= dx <= 1,
            -1 <= dy <= 1,
        ensures
            final(self).wf(),
            player_move_result(*old(self), *final(self), dx as int, dy as int),
    {
        let nx = offset(self.player.x, dx);
        let ny = offset(self.player.y, dy);
        let (new_x, new_y) = match (nx, ny) {
            (Some(a), Some(b)) => (a, b),
            _ => {
                return;
            },
        };
        if let Some(enemy_idx) = self.enemy_at(new_x, new_y) {
            let ghost before = self.enemies@;
            let mut enemy = self.enemies[enemy_idx];
            proof {
                assert(before[enemy_idx as int].wf());
            }
            let result = player_attack(&self.player, &mut enemy);
            self.enemies.set(enemy_idx, enemy);
            self.renderer.add_message(result.message);
            proof {
                assert(first_live_enemy_at(before, enemy_idx as int, new_x as int, new_y as int));
                assert(before[enemy_idx as int].hp > 0);
                assert forall|i: int| 0 <= i < self.enemies@.len() implies (#[trigger] self.enemies@[i]).wf() by {
                    if i != enemy_idx {
                        assert(self.enemies@[i] == before[i]);
                    }
                }
            }
        } else if self.map.is_walkable(new_x, new_y) {
            let ghost m0 = self.map;
            self.player.move_by(dx, dy);
            self.map.reveal_at(new_x, new_y);
            let ghost ma = self.map;
            if self.map.is_corridor(new_x, new_y) {
                self.map.reveal_surroundings(new_x, new_y);
            }
            let ghost m1 = self.map;
            assert(m1.revealed_at(new_x as int, new_y as int));
            assert(revealed_kept(m0, m1)) by {
                assert forall|a: int, b: int| #[trigger] m0.revealed_at(a, b) implies m1.revealed_at(a, b) by {
                    assert(ma.revealed_at(a, b));
                }
            }
            if self.map.is_potion(new_x, new_y) {
                let heal_amount = POTION_HEAL;
                self.player.heal(heal_amount);
                self.map.pickup_potion(new_x, new_y);
                self.renderer.add_message(LogMessage::PotionDrunk(heal_amount));
            }
            let ghost m2 = self.map;
            assert(revealed_kept(m0, m2)) by {
                assert forall|a: int, b: int| #[trigger] m0.revealed_at(a, b) implies m2.revealed_at(a, b) by {
                    assert(m1.revealed_at(a, b));
                }
            }
            assert(walkable_kept(m0, m2)) by {
                assert forall|a: int, b: int| #[trigger] m0.walkable_at(a, b) implies m2.walkable_at(a, b) by {
                    assert(m1.tile(a, b) == m0.tile(a, b));
                    let _ = m2.tile(a, b);
                }
            }
            assert(m2.revealed_at(new_x as int, new_y as int));
            let ghost tx = new_x as int;
            let ghost ty = new_y as int;
            if self.map.is_door(new_x, new_y) {
                let ghost d0 = self.map;
                self.reveal_room_containing(offset(new_x, -1), Some(new_y));
                let ghost d1 = self.map;
                self.reveal_room_containing(offset(new_x, 1), Some(new_y));
                let ghost d2 = self.map;
                self.reveal_room_containing(Some(new_x), offset(new_y, -1));
                let ghost d3 = self.map;
                self.reveal_room_containing(Some(new_x), offset(new_y, 1));
                let ghost d4 = self.map;
                proof {
                    if new_x == 0 {
                        assert forall|i: int| 0 <= i < d1.rooms@.len() implies !room_contains(#[trigger] d1.rooms@[i], tx - 1, ty) by {}
                    }
                    if new_x == usize::MAX {
                        assert forall|i: int| 0 <= i < d2.rooms@.len() implies !room_contains(#[trigger] d2.rooms@[i], tx + 1, ty) by {
                            assert(crate::map::room_fits(d2.rooms@[i], d2.width as int, d2.height as int));
                        }
                    }
                    if new_y == 0 {
                        assert forall|i: int| 0 <= i < d3.rooms@.len() implies !room_contains(#[trigger] d3.rooms@[i], tx, ty - 1) by {}
                    }
                    if new_y == usize::MAX {
                        assert forall|i: int| 0 <= i < d4.rooms@.len() implies !room_contains(#[trigger] d4.rooms@[i], tx, ty + 1) by {
                            assert(crate::map::room_fits(d4.rooms@[i], d4.width as int, d4.height as int));
                        }
                    }
                    lemma_first_room_shown_kept(d1, d2, tx - 1, ty);
                    lemma_first_room_shown_kept(d2, d3, tx - 1, ty);
                    lemma_first_room_shown_kept(d3, d4, tx - 1, ty);
                    lemma_first_room_shown_kept(d2, d3, tx + 1, ty);
                    lemma_first_room_shown_kept(d3, d4, tx + 1, ty);
                    lemma_first_room_shown_kept(d3, d4, tx, ty - 1);
                    lemma_revealed_stays(d0, d1, d2);
                    lemma_revealed_stays(d0, d2, d3);
                    lemma_revealed_stays(d0, d3, d4);
                }
            }
            let ghost m3 = self.map;
            self.reveal_room_containing(Some(new_x), Some(new_y));
            proof {
                let m4 = self.map;
                lemma_revealed_stays(m2, m3, m4);
                if m0.tile(tx, ty) == Tile::Door {
                    assert(m2.tile(tx, ty) == Tile::Door);
                    lemma_first_room_shown_kept(m3, m4, tx - 1, ty);
                    lemma_first_room_shown_kept(m3, m4, tx + 1, ty);
                    lemma_first_room_shown_kept(m3, m4, tx, ty - 1);
                    lemma_first_room_shown_kept(m3, m4, tx, ty + 1);
                }
                assert(m4.revealed_at(tx, ty));
                if m0.tile(tx, ty) == Tile::Corridor {
                    assert forall|a: int, b: int|
                        m4.in_bounds(a, b) && tx - 1 <= a <= tx + 1 && ty - 1 <= b <= ty + 1 implies #[trigger] m4.revealed_at(a, b) by {
                        assert(m1.revealed_at(a, b));
                        assert(m2.revealed_at(a, b));
                    }
                }
                if m0.tile(tx, ty) == Tile::Potion {
                    assert forall|a: int, b: int| m0.in_bounds(a, b) implies #[trigger] m4.tile(a, b) == if a == tx && b == ty {
                        Tile::Floor
                    } else {
                        m0.tile(a, b)
                    } by {
                        assert(m1.tile(a, b) == m0.tile(a, b));
                        let _ = m2.tile(a, b);
                    }
                } else {
                    assert(m2.tiles@ =~= m0.tiles@);
                }
            }
        }
    }

    /// The enemies' half of a turn. Positions are taken once, before any enemy acts;
    /// then each live enemy in order attacks the player if next to it, or takes one
    /// step toward the player if within chase range, judged against those positions.
    pub fn enemy_turns(&mut self)
        requires
            old(self).wf(),
        ensures
            final(self).wf(),
            final(self).running == old(self).running,
            enemy_phase_result(*old(self), *final(self)),
    {
        let player_x = self.player.x;
        let player_y = self.player.y;
        let mut snapshot: Vec<Enemy> = Vec::new();
        let mut k: usize = 0;
        while k < self.enemies.len()
            invariant
                k <= self.enemies@.len(),
                snapshot@ == self.enemies@.subrange(0, k as int),
            decreases self.enemies@.len() - k,
        {
            snapshot.push(self.enemies[k]);
            k += 1;
            assert(snapshot@ =~= self.enemies@.subrange(0, k as int));
        }
        assert(snapshot@ =~= self.enemies@);
        let ghost start = *self;
        let ghost mut vs: Seq<int> = Seq::empty();
        let mut i: usize = 0;
        while i < self.enemies.len()
            invariant
                self.wf(),
                start.wf(),
                vs.len() == i,
                forall|k: int| 0 <= k < vs.len() ==> 0 <= #[trigger] vs[k] <= ENEMY_VARIANCE,
                self.player.hp == phase_hp(
                    start.enemies@,
                    player_x as int,
                    player_y as int,
                    start.player.hp as int,
                    vs,
                    i as int,
                ),
                self.map == start.map,
                self.running == start.running,
                snapshot@ == start.enemies@,
                self.enemies@.len() == start.enemies@.len(),
                i <= self.enemies@.len(),
                player_x == start.player.x,
                player_y == start.player.y,
                self.player.x == start.player.x,
                self.player.y == start.player.y,
                self.player.max_hp == start.player.max_hp,
                self.player.power == start.player.power,
                self.player.hp <= start.player.hp,
                (exists|j: int|
                    0 <= j < i && #[trigger] start.enemies@[j].hp > 0 && manhattan(
                        start.enemies@[j].x as int,
                        start.enemies@[j].y as int,
                        player_x as int,
                        player_y as int,
                    ) == 1) ==> self.player.hp < start.player.hp || start.player.hp == 0,
                !(exists|j: int|
                    0 <= j < i && #[trigger] start.enemies@[j].hp > 0 && manhattan(
                        start.enemies@[j].x as int,
                        start.enemies@[j].y as int,
                        player_x as int,
                        player_y as int,
                    ) == 1) ==> self.player.hp == start.player.hp,
                forall|j: int| i <= j < self.enemies@.len() ==> #[trigger] self.enemies@[j] == start.enemies@[j],
                forall|j: int|
                    0 <= j < i ==> {
                        &&& (#[trigger] self.enemies@[j]).x as int == phase_position(
                            start.map,
                            start.enemies@,
                            j,
                            player_x as int,
                            player_y as int,
                        ).0
                        &&& self.enemies@[j].y as int == phase_position(
                            start.map,
                            start.enemies@,
                            j,
                            player_x as int,
                            player_y as int,
                        ).1
                        &&& self.enemies@[j] == (Enemy {
                            x: self.enemies@[j].x,
                            y: self.enemies@[j].y,
                            ..start.enemies@[j]
                        })
                    },
            decreases self.enemies@.len() - i,
        {
            let mut enemy = self.enemies[i];
            proof {
                assert(self.enemies@[i as int] == start.enemies@[i as int]);
                assert(enemy.wf());
            }
            let ghost hp_before = self.player.hp;
            let ghost mut v: int = 0;
            if enemy.is_alive() {
                let distance = enemy.distance_to(player_x, player_y);
                if distance == 1 {
                    let result = enemy_attack(&enemy, &mut self.player);
                    proof {
                        v = choose|v: int|
                            0 <= v <= ENEMY_VARIANCE && result.damage == attack_damage(
                                enemy.power as int,
                                v,
                            );
                    }
                    self.renderer.add_message(result.message);
                } else if distance <= ENEMY_CHASE_RANGE {
                    enemy.move_toward(player_x, player_y, &self.map, &snapshot, i, player_x, player_y);
                    self.enemies.set(i, enemy);
                }
            }
            proof {
                let ws = vs.push(v);
                lemma_phase_hp_prefix(
                    start.enemies@,
                    player_x as int,
                    player_y as int,
                    start.player.hp as int,
                    vs,
                    ws,
                    i as int,
                );
                vs = ws;
            }
            i += 1;
        }
        proof {
            assert(vs.len() == start.enemies@.len());
            assert(self.player.hp == phase_hp(
                start.enemies@,
                player_x as int,
                player_y as int,
                start.player.hp as int,
                vs,
                vs.len() as int,
            ));
        }
    }

    /// The end-of-turn check: a dead player ends the game in defeat, else no live
    /// enemy ends it in victory, else it goes on.
    pub fn check_game_state(&mut self) -> (r: TurnOutcome)
        requires
            old(self).wf(),
        ensures
            final(self).wf(),
            final(self).map == old(self).map,
            final(self).player == old(self).player,
            final(self).enemies@ == old(self).enemies@,
            final(self).renderer == old(self).renderer,
            r == if !old(self).player.alive() {
                TurnOutcome::GameOver
            } else if all_dead(old(self).enemies@) {
                TurnOutcome::Victory
            } else {
                TurnOutcome::Continue
            },
            final(self).running == (old(self).running && r == TurnOutcome::Continue),
    {
        if !self.player.is_alive() {
            self.running = false;
            TurnOutcome::GameOver
        } else if self.all_enemies_dead() {
            self.running = false;
            TurnOutcome::Victory
        } else {
            TurnOutcome::Continue
        }
    }

    /// One cycle of the turn loop for an intent: quitting stops the game; a step is
    /// resolved, then, if the player survived, the enemy phase runs, then the
    /// end-of-turn check decides; no intent changes nothing.
    pub fn apply_action(&mut self, action: Action) -> (r: TurnOutcome)
        requires
            old(self).wf(),
            action matches Action::Move(dx, dy) ==> -1 <= dx <= 1 && -1 <= dy <= 1,
        ensures
            final(self).wf(),
            revealed_kept(old(self).map, final(self).map),
            action == Action::Quit ==> {
                &&& r == TurnOutcome::Quit
                &&& !final(self).running
                &&& final(self).map == old(self).map
                &&& final(self).player == old(self).player
                &&& final(self).enemies@ == old(self).enemies@
            },
            action == Action::Idle ==> r == TurnOutcome::Continue && *final(self) == *old(self),
            action matches Action::Move(dx, dy) ==> {
                &&& exists|mid: Game|
                    #[trigger] player_move_result(*old(self), mid, dx as int, dy as int) && mid.wf()
                        && (mid.player.alive() ==> enemy_phase_result(mid, *final(self))) && (
                    !mid.player.alive() ==> final(self).map == mid.map && final(self).player
                        == mid.player && final(self).enemies@ == mid.enemies@)
                &&& r == if !final(self).player.alive() {
                    TurnOutcome::GameOver
                } else if all_dead(final(self).enemies@) {
                    TurnOutcome::Victory
                } else {
                    TurnOutcome::Continue
                }
                &&& final(self).running == (old(self).running && r == TurnOutcome::Continue)
            },
    {
        match action {
            Action::Quit => {
                self.running = false;
                TurnOutcome::Quit
            },
            Action::Move(dx, dy) => {
                self.handle_player_move(dx, dy);
                let ghost mid = *self;
                if self.player.is_alive() {
                    self.enemy_turns();
                }
                let r = self.check_game_state();
                proof {
                    assert(player_move_result(*old(self), mid, dx as int, dy as int));
                    if mid.player.alive() {
                        lemma_revealed_stays(old(self).map, mid.map, self.map);
                    }
                }
                r
            },
            Action::Idle => TurnOutcome::Continue,
        }
    }
}

/// Fog of war only lifts: a cell revealed before a sequence of operations, each of
/// which keeps every revealed cell revealed, is still revealed after it.
pub proof fn lemma_revealed_stays(a: GameMap, b: GameMap, c: GameMap)
    requires
        revealed_kept(a, b),
        revealed_kept(b, c),
    ensures
        revealed_kept(a, c),
{
    assert forall|x: int, y: int| #[trigger] a.revealed_at(x, y) implies c.revealed_at(x, y) by {
        assert(b.revealed_at(x, y));
    }
}

/// Enemy positions after the enemies of `order` act one after the other, in that
/// order, each judged against the pre-phase snapshot `snap`.
pub open spec fn phase_in_order(m: GameMap, snap: Seq<Enemy>, order: Seq<int>, px: int, py: int) -> Seq<
    (int, int),
>
    decreases order.len(),
{
    if order.len() == 0 {
        Seq::new(snap.len(), |i: int| (snap[i].x as int, snap[i].y as int))
    } else {
        let i = order.last();
        phase_in_order(m, snap, order.drop_last(), px, py).update(
            i,
            phase_position(m, snap, i, px, py),
        )
    }
}

proof fn lemma_phase_in_order_prefix(m: GameMap, snap: Seq<Enemy>, order: Seq<int>, px: int, py: int)
    requires
        forall|k: int| 0 <= k < order.len() ==> 0 <= #[trigger] order[k] < snap.len(),
    ensures
        phase_in_order(m, snap, order, px, py).len() == snap.len(),
        forall|i: int|
            0 <= i < snap.len() ==> #[trigger] phase_in_order(m, snap, order, px, py)[i] == if order.contains(i) {
                phase_position(m, snap, i, px, py)
            } else {
                (snap[i].x as int, snap[i].y as int)
            },
    decreases order.len(),
{
    if order.len() > 0 {
        let rest = order.drop_last();
        assert forall|k: int| 0 <= k < rest.len() implies 0 <= #[trigger] rest[k] < snap.len() by {
            assert(rest[k] == order[k]);
        }
        lemma_phase_in_order_prefix(m, snap, rest, px, py);
        assert forall|i: int| 0 <= i < snap.len() implies #[trigger] phase_in_order(m, snap, order, px, py)[i] == if order.contains(i) {
            phase_position(m, snap, i, px, py)
        } else {
            (snap[i].x as int, snap[i].y as int)
        } by {
            if i != order.last() {
                if order.contains(i) {
                    let k = choose|k: int| 0 <= k < order.len() && order[k] == i;
                    assert(rest[k] == i);
                }
                if rest.contains(i) {
                    let k = choose|k: int| 0 <= k < rest.len() && rest[k] == i;
                    assert(order[k] == i);
                }
            } else {
                assert(order[order.len() - 1] == i);
            }
        }
    }
}

/// Order independence of the enemy phase: letting the enemies act in any order that
/// gives each of them its turn, every one judged against the same pre-phase snapshot,
/// ends with the same positions, those that `Game::enemy_turns` produces.
pub proof fn lemma_enemy_phase_order_independent(
    m: GameMap,
    snap: Seq<Enemy>,
    order: Seq<int>,
    px: int,
    py: int,
)
    requires
        forall|k: int| 0 <= k < order.len() ==> 0 <= #[trigger] order[k] < snap.len(),
        forall|i: int| 0 <= i < snap.len() ==> #[trigger] order.contains(i),
    ensures
        phase_in_order(m, snap, order, px, py) == Seq::new(
            snap.len(),
            |i: int| phase_position(m, snap, i, px, py),
        ),
{
    lemma_phase_in_order_prefix(m, snap, order, px, py);
    assert(phase_in_order(m, snap, order, px, py) =~= Seq::new(
        snap.len(),
        |i: int| phase_position(m, snap, i, px, py),
    ));
}

/// No live enemy ends the enemy phase on the player's cell, unless it began there.
pub proof fn lemma_phase_avoids_player(m: GameMap, snap: Seq<Enemy>, i: int, px: int, py: int)
    requires
        0 <= i < snap.len(),
        !(snap[i].x == px && snap[i].y == py),
    ensures
        phase_position(m, snap, i, px, py) != (px, py),
{
}

} // verus!
