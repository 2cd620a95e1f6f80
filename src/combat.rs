use vstd::prelude::*;
use crate::enemy::Enemy;
use crate::player::Player;
use crate::render::LogMessage;
use crate::rng::random_below;

verus! {

/// Largest random amount taken off the player's attack.
pub const PLAYER_VARIANCE: i32 = 3;

/// Largest random amount taken off an enemy's attack.
pub const ENEMY_VARIANCE: i32 = 2;

/// What an attack did: the damage dealt and the line for the message log, which
/// tells a hit from a kill.
pub struct CombatResult {
    pub damage: i32,
    pub message: LogMessage,
}

/// Damage of an attack of strength `power` weakened by `variance`: never below one.
pub open spec fn attack_damage(power: int, variance: int) -> int {
    if power - variance < 1 {
        1
    } else {
        power - variance
    }
}

/// Health left after losing `damage`, never below zero.
pub open spec fn hp_after(hp: int, damage: int) -> int {
    if hp - damage < 0 {
        0
    } else {
        hp - damage
    }
}

pub fn damage_after_variance(power: i32, variance: i32) -> (r: i32)
    requires
        power >= 0,
        0 <= variance,
    ensures
        r == attack_damage(power as int, variance as int),
        r >= 1,
{
    if power - variance < 1 {
        1
    } else {
        power - variance
    }
}

/// The player hits `enemy`, the attack weakened by `variance`.
pub fn player_attack_with(player: &Player, enemy: &mut Enemy, variance: i32) -> (r: CombatResult)
    requires
        player.wf(),
        old(enemy).wf(),
        0 <= variance,
    ensures
        final(enemy).wf(),
        r.damage == attack_damage(player.power as int, variance as int),
        final(enemy).hp == hp_after(old(enemy).hp as int, r.damage as int),
        *final(enemy) == (Enemy { hp: final(enemy).hp, ..*old(enemy) }),
        r.message == if final(enemy).hp > 0 {
            LogMessage::EnemyHit(r.damage)
        } else {
            LogMessage::EnemyKilled
        },
{
    let damage = damage_after_variance(player.power, variance);
    enemy.take_damage(damage);
    let message = if enemy.is_alive() {
        LogMessage::EnemyHit(damage)
    } else {
        LogMessage::EnemyKilled
    };
    CombatResult { damage, message }
}

/// `enemy` hits the player, the attack weakened by `variance`.
pub fn enemy_attack_with(enemy: &Enemy, player: &mut Player, variance: i32) -> (r: CombatResult)
    requires
        enemy.wf(),
        old(player).wf(),
        0 <= variance,
    ensures
        final(player).wf(),
        r.damage == attack_damage(enemy.power as int, variance as int),
        final(player).hp == hp_after(old(player).hp as int, r.damage as int),
        final(player).x == old(player).x,
        final(player).y == old(player).y,
        final(player).max_hp == old(player).max_hp,
        final(player).power == old(player).power,
        r.message == if final(player).hp > 0 {
            LogMessage::PlayerHit(r.damage)
        } else {
            LogMessage::PlayerKilled
        },
{
    let damage = damage_after_variance(enemy.power, variance);
    player.take_damage(damage);
    let message = if player.is_alive() {
        LogMessage::PlayerHit(damage)
    } else {
        LogMessage::PlayerKilled
    };
    CombatResult { damage, message }
}

/// The player hits `enemy` with a random variance between zero and `PLAYER_VARIANCE`.
pub fn player_attack(player: &Player, enemy: &mut Enemy) -> (r: CombatResult)
    requires
        player.wf(),
        old(enemy).wf(),
    ensures
        final(enemy).wf(),
        exists|v: int|
            0 <= v <= PLAYER_VARIANCE && r.damage == attack_damage(player.power as int, v),
        r.damage >= 1,
        final(enemy).hp == hp_after(old(enemy).hp as int, r.damage as int),
        *final(enemy) == (Enemy { hp: final(enemy).hp, ..*old(enemy) }),
        r.message == if final(enemy).hp > 0 {
            LogMessage::EnemyHit(r.damage)
        } else {
            LogMessage::EnemyKilled
        },
{
    let variance = random_below(0, PLAYER_VARIANCE as usize + 1) as i32;
    player_attack_with(player, enemy, variance)
}

/// An enemy hits the player with a random variance between zero and `ENEMY_VARIANCE`.
pub fn enemy_attack(enemy: &Enemy, player: &mut Player) -> (r: CombatResult)
    requires
        enemy.wf(),
        old(player).wf(),
    ensures
        final(player).wf(),
        exists|v: int|
            0 <= v <= ENEMY_VARIANCE && r.damage == attack_damage(enemy.power as int, v),
        r.damage >= 1,
        final(player).hp == hp_after(old(player).hp as int, r.damage as int),
        final(player).x == old(player).x,
        final(player).y == old(player).y,
        final(player).max_hp == old(player).max_hp,
        final(player).power == old(player).power,
        r.message == if final(player).hp > 0 {
            LogMessage::PlayerHit(r.damage)
        } else {
            LogMessage::PlayerKilled
        },
{
    let variance = random_below(0, ENEMY_VARIANCE as usize + 1) as i32;
    enemy_attack_with(enemy, player, variance)
}

} // verus!
