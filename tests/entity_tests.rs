use dungeon::combat::{
    damage_after_variance, enemy_attack, enemy_attack_with, player_attack, player_attack_with,
};
use dungeon::enemy::{Enemy, EnemyType};
use dungeon::map::{GameMap, Room};
use dungeon::player::Player;
use dungeon::render::LogMessage;

fn open_field(w: usize, h: usize) -> GameMap {
    let mut map = GameMap::new(w, h);
    let room = Room::new(1, 1, w - 2, h - 2);
    map.carve_room(&room);
    map.rooms.push(room);
    map
}

#[test]
fn player_starts_at_full_health() {
    let p = Player::new(4, 7);
    assert_eq!((p.x, p.y, p.hp, p.max_hp, p.power), (4, 7, 20, 20, 5));
    assert_eq!(p.to_char(), '@');
    assert!(p.is_alive());
}

#[test]
fn player_moves_by_offset() {
    let mut p = Player::new(4, 7);
    p.move_by(-1, 1);
    assert_eq!((p.x, p.y), (3, 8));
}

#[test]
fn player_damage_is_clamped_at_zero() {
    let mut p = Player::new(0, 0);
    p.take_damage(7);
    assert_eq!(p.hp, 13);
    p.take_damage(50);
    assert_eq!(p.hp, 0);
    assert!(!p.is_alive());
}

#[test]
fn player_heal_is_capped() {
    let mut p = Player::new(0, 0);
    p.take_damage(8);
    p.heal(5);
    assert_eq!(p.hp, 17);
    p.heal(5);
    assert_eq!(p.hp, 20);
}

#[test]
fn goblin_stats() {
    assert_eq!(EnemyType::Goblin.base_hp(), 6);
    assert_eq!(EnemyType::Goblin.base_power(), 3);
    assert_eq!(EnemyType::Goblin.to_char(), 'g');
    let g = Enemy::goblin(2, 3);
    assert_eq!((g.x, g.y, g.hp, g.max_hp, g.power), (2, 3, 6, 6, 3));
    assert_eq!(g.enemy_type, EnemyType::Goblin);
    assert_eq!(g.to_char(), 'g');
    assert!(g.is_alive());
    let e = Enemy::new(5, 5, EnemyType::Goblin);
    assert_eq!(e.hp, 6);
}

#[test]
fn enemy_damage_is_clamped_at_zero() {
    let mut g = Enemy::goblin(0, 0);
    g.take_damage(4);
    assert_eq!(g.hp, 2);
    g.take_damage(4);
    assert_eq!(g.hp, 0);
    assert!(!g.is_alive());
}

#[test]
fn distance_is_manhattan() {
    let g = Enemy::goblin(5, 2);
    assert_eq!(g.distance_to(5, 2), 0);
    assert_eq!(g.distance_to(2, 6), 7);
    assert_eq!(g.distance_to(6, 2), 1);
}

#[test]
fn damage_never_drops_below_one() {
    assert_eq!(damage_after_variance(3, 3), 1);
    assert_eq!(damage_after_variance(5, 3), 2);
    assert_eq!(damage_after_variance(5, 0), 5);
    assert_eq!(damage_after_variance(0, 2), 1);
}

#[test]
fn player_attack_with_fixed_variance() {
    let p = Player::new(0, 0);
    let mut g = Enemy::goblin(1, 0);
    let r = player_attack_with(&p, &mut g, 1);
    assert_eq!(r.damage, 4);
    assert_eq!(g.hp, 2);
    assert_eq!(r.message, LogMessage::EnemyHit(4));
    let r = player_attack_with(&p, &mut g, 0);
    assert_eq!(r.damage, 5);
    assert_eq!(g.hp, 0);
    assert_eq!(r.message, LogMessage::EnemyKilled);
}

#[test]
fn enemy_attack_with_fixed_variance() {
    let g = Enemy::goblin(1, 0);
    let mut p = Player::new(0, 0);
    let r = enemy_attack_with(&g, &mut p, 2);
    assert_eq!(r.damage, 1);
    assert_eq!(p.hp, 19);
    assert_eq!(r.message, LogMessage::PlayerHit(1));
    p.hp = 2;
    let r = enemy_attack_with(&g, &mut p, 0);
    assert_eq!(r.damage, 3);
    assert_eq!(p.hp, 0);
    assert_eq!(r.message, LogMessage::PlayerKilled);
}

#[test]
fn random_attacks_stay_in_range() {
    let mut seen_low = false;
    let mut seen_high = false;
    for _ in 0..400 {
        let p = Player::new(0, 0);
        let mut g = Enemy::goblin(1, 0);
        g.hp = 100;
        g.max_hp = 100;
        let r = player_attack(&p, &mut g);
        assert!(r.damage >= 2 && r.damage <= 5);
        assert_eq!(g.hp, 100 - r.damage);
        seen_low |= r.damage == 2;
        seen_high |= r.damage == 5;

        let mut q = Player::new(0, 0);
        let r = enemy_attack(&g, &mut q);
        assert!(r.damage >= 1 && r.damage <= 3);
        assert_eq!(q.hp, 20 - r.damage);
    }
    assert!(seen_low && seen_high);
}

#[test]
fn enemy_steps_diagonally_when_free() {
    let map = open_field(10, 10);
    let mut g = Enemy::goblin(2, 2);
    let snapshot = vec![g];
    g.move_toward(6, 5, &map, &snapshot, 0, 6, 5);
    assert_eq!((g.x, g.y), (3, 3));
}

#[test]
fn enemy_falls_back_to_horizontal_then_vertical() {
    let map = open_field(10, 10);
    let blocker = Enemy::goblin(3, 3);
    let mut g = Enemy::goblin(2, 2);
    let snapshot = vec![g, blocker];
    g.move_toward(6, 5, &map, &snapshot, 0, 6, 5);
    assert_eq!((g.x, g.y), (3, 2));

    let mut h = Enemy::goblin(2, 2);
    let snapshot = vec![h, blocker, Enemy::goblin(3, 2)];
    h.move_toward(6, 5, &map, &snapshot, 0, 6, 5);
    assert_eq!((h.x, h.y), (2, 3));
}

#[test]
fn enemy_ignores_dead_blockers_and_avoids_walls() {
    let map = open_field(10, 10);
    let mut dead = Enemy::goblin(3, 3);
    dead.hp = 0;
    let mut g = Enemy::goblin(2, 2);
    let snapshot = vec![g, dead];
    g.move_toward(6, 5, &map, &snapshot, 0, 6, 5);
    assert_eq!((g.x, g.y), (3, 3));

    // Against the wall at the left edge: only the vertical step is left.
    let mut w = Enemy::goblin(1, 5);
    let snapshot = vec![w];
    w.move_toward(0, 1, &map, &snapshot, 0, 0, 1);
    assert_eq!((w.x, w.y), (1, 4));
}

#[test]
fn boxed_in_enemy_stays() {
    let map = open_field(5, 5);
    let mut g = Enemy::goblin(1, 1);
    let snapshot = vec![g, Enemy::goblin(2, 2), Enemy::goblin(2, 1), Enemy::goblin(1, 2)];
    g.move_toward(3, 3, &map, &snapshot, 0, 3, 3);
    assert_eq!((g.x, g.y), (1, 1));
}

#[test]
fn enemy_never_steps_onto_the_player() {
    let map = open_field(10, 10);
    let mut g = Enemy::goblin(2, 2);
    let snapshot = vec![g];
    g.move_toward(3, 3, &map, &snapshot, 0, 3, 3);
    assert_eq!((g.x, g.y), (3, 2));
}
