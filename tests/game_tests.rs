use dungeon::enemy::Enemy;
use dungeon::game::{Game, TurnOutcome, MAP_HEIGHT, MAP_WIDTH, NUM_ROOMS};
use dungeon::input::Action;
use dungeon::map::{GameMap, Room, Tile};
use dungeon::player::Player;
use dungeon::render::{LogMessage, Renderer};

fn one_room_game(player: Player, enemies: Vec<Enemy>) -> Game {
    let mut map = GameMap::new(12, 12);
    let room = Room::new(1, 1, 10, 10);
    map.carve_room(&room);
    map.rooms.push(room);
    Game { map, player, enemies, renderer: Renderer::new(), running: true }
}

#[test]
fn new_game_spawns_from_rooms() {
    let game = Game::new();
    assert!(game.running);
    assert_eq!(game.map.width, MAP_WIDTH);
    assert_eq!(game.map.height, MAP_HEIGHT);
    assert!(!game.map.rooms.is_empty() && game.map.rooms.len() <= NUM_ROOMS);
    assert_eq!((game.player.x, game.player.y), game.map.rooms[0].center());
    assert_eq!(game.enemies.len(), game.map.rooms.len() - 1);
    for (i, e) in game.enemies.iter().enumerate() {
        assert_eq!((e.x, e.y), game.map.rooms[i + 1].center());
        assert_eq!(e.hp, 6);
    }
    assert!(game.map.is_revealed(game.player.x, game.player.y));
}

#[test]
fn stepping_onto_an_enemy_attacks_without_moving() {
    let mut game = one_room_game(Player::new(5, 5), vec![Enemy::goblin(6, 5)]);
    game.handle_player_move(1, 0);
    assert_eq!((game.player.x, game.player.y), (5, 5));
    assert!(game.enemies[0].hp < 6);
    assert!(game.enemies[0].hp <= 4);
    assert_eq!((game.enemies[0].x, game.enemies[0].y), (6, 5));
    assert_eq!(game.renderer.messages().len(), 1);
}

#[test]
fn stepping_onto_a_dead_enemy_moves() {
    let mut dead = Enemy::goblin(6, 5);
    dead.hp = 0;
    let mut game = one_room_game(Player::new(5, 5), vec![dead]);
    game.handle_player_move(1, 0);
    assert_eq!((game.player.x, game.player.y), (6, 5));
}

#[test]
fn walls_block_the_player() {
    let mut game = one_room_game(Player::new(1, 1), vec![]);
    game.handle_player_move(-1, 0);
    assert_eq!((game.player.x, game.player.y), (1, 1));
    game.handle_player_move(0, -1);
    assert_eq!((game.player.x, game.player.y), (1, 1));
}

#[test]
fn moving_reveals_and_drinks_potions() {
    let mut game = one_room_game(Player::new(5, 5), vec![]);
    game.player.hp = 10;
    game.map.tiles[5][6] = Tile::Potion;
    game.handle_player_move(1, 0);
    assert_eq!((game.player.x, game.player.y), (6, 5));
    assert_eq!(game.player.hp, 15);
    assert_eq!(game.map.get_tile(6, 5), Some(&Tile::Floor));
    assert_eq!(game.renderer.messages()[0], LogMessage::PotionDrunk(5));
    // Entering the room reveals it with its border.
    assert!(game.map.is_revealed(0, 0));
    assert!(game.map.is_revealed(11, 11));
}

#[test]
fn corridor_step_reveals_the_block_around() {
    let mut map = GameMap::new(10, 10);
    map.carve_horizontal_corridor(1, 8, 4);
    let mut game = Game { map, player: Player::new(3, 4), enemies: vec![], renderer: Renderer::new(), running: true };
    game.handle_player_move(1, 0);
    assert!(game.map.is_revealed(5, 3));
    assert!(game.map.is_revealed(3, 5));
    assert!(!game.map.is_revealed(6, 4));
}

#[test]
fn door_step_reveals_the_room_beside_it() {
    let mut map = GameMap::new(12, 8);
    let room = Room::new(5, 2, 4, 3);
    map.carve_room(&room);
    map.rooms.push(room);
    map.carve_horizontal_corridor(1, 6, 3);
    map.place_doors();
    assert_eq!(map.get_tile(4, 3), Some(&Tile::Door));
    let mut game = Game { map, player: Player::new(3, 3), enemies: vec![], renderer: Renderer::new(), running: true };
    game.handle_player_move(1, 0);
    assert!(game.map.is_revealed(8, 4));
    assert!(game.map.is_revealed(9, 5));
}

#[test]
fn adjacent_enemy_kills_a_weak_player() {
    let mut player = Player::new(5, 5);
    player.hp = 1;
    let mut game = one_room_game(player, vec![Enemy::goblin(5, 6)]);
    game.enemy_turns();
    assert_eq!(game.player.hp, 0);
    assert_eq!(game.check_game_state(), TurnOutcome::GameOver);
    assert!(!game.running);
}

#[test]
fn killing_the_last_enemy_wins() {
    let mut goblin = Enemy::goblin(6, 5);
    goblin.hp = 1;
    let mut game = one_room_game(Player::new(5, 5), vec![goblin]);
    assert!(!game.all_enemies_dead());
    game.handle_player_move(1, 0);
    assert!(game.all_enemies_dead());
    assert_eq!(game.check_game_state(), TurnOutcome::Victory);
    assert!(!game.running);
}

#[test]
fn a_whole_turn_ending_in_victory() {
    let mut goblin = Enemy::goblin(6, 5);
    goblin.hp = 1;
    let mut game = one_room_game(Player::new(5, 5), vec![goblin]);
    assert_eq!(game.apply_action(Action::Move(1, 0)), TurnOutcome::Victory);
}

#[test]
fn quit_and_idle_intents() {
    let mut game = one_room_game(Player::new(5, 5), vec![Enemy::goblin(9, 9)]);
    assert_eq!(game.apply_action(Action::Idle), TurnOutcome::Continue);
    assert!(game.running);
    assert_eq!(game.apply_action(Action::Quit), TurnOutcome::Quit);
    assert!(!game.running);
}

#[test]
fn game_goes_on_while_both_sides_live() {
    let mut game = one_room_game(Player::new(5, 5), vec![Enemy::goblin(9, 9)]);
    assert_eq!(game.check_game_state(), TurnOutcome::Continue);
    assert!(game.running);
}

#[test]
fn enemies_chase_only_within_range() {
    let mut game = one_room_game(Player::new(1, 1), vec![Enemy::goblin(4, 4), Enemy::goblin(10, 10)]);
    game.enemy_turns();
    assert_eq!((game.enemies[0].x, game.enemies[0].y), (3, 3));
    assert_eq!((game.enemies[1].x, game.enemies[1].y), (10, 10));
    assert_eq!(game.player.hp, 20);
}

#[test]
fn enemy_phase_judges_against_positions_taken_before_it() {
    // The second goblin's diagonal cell is where the first one stands before the
    // phase; the first one moves away, but the second is still judged against the
    // position it had, and falls back to its horizontal step.
    let mut game = one_room_game(Player::new(2, 2), vec![Enemy::goblin(4, 4), Enemy::goblin(5, 5)]);
    game.enemy_turns();
    assert_eq!((game.enemies[0].x, game.enemies[0].y), (3, 3));
    assert_eq!((game.enemies[1].x, game.enemies[1].y), (4, 5));

    // Same enemies listed the other way round: the same end positions.
    let mut game = one_room_game(Player::new(2, 2), vec![Enemy::goblin(5, 5), Enemy::goblin(4, 4)]);
    game.enemy_turns();
    assert_eq!((game.enemies[0].x, game.enemies[0].y), (4, 5));
    assert_eq!((game.enemies[1].x, game.enemies[1].y), (3, 3));
}

#[test]
fn message_log_keeps_the_last_five() {
    let mut r = Renderer::new();
    for i in 0..7 {
        r.add_message(LogMessage::EnemyHit(i));
    }
    assert_eq!(r.messages().len(), 5);
    assert_eq!(r.messages()[0], LogMessage::EnemyHit(2));
    assert_eq!(r.messages()[4], LogMessage::EnemyHit(6));
    let d = Renderer::default();
    assert!(d.messages().is_empty());
}

#[test]
fn screen_shows_player_then_visible_enemies_then_map() {
    let mut map = GameMap::new(12, 12);
    let room = Room::new(1, 1, 10, 10);
    map.carve_room(&room);
    map.rooms.push(room);
    map.reveal_at(3, 3);
    let player = Player::new(2, 2);
    let enemies = vec![Enemy::goblin(3, 3), Enemy::goblin(4, 4)];
    let r = Renderer::new();
    assert_eq!(r.get_char_at(2, 2, &map, &player, &enemies), '@');
    assert_eq!(r.get_char_at(3, 3, &map, &player, &enemies), 'g');
    assert_eq!(r.get_char_at(4, 4, &map, &player, &enemies), ' ');
    map.reveal_at(5, 5);
    assert_eq!(r.get_char_at(5, 5, &map, &player, &enemies), '·');
}

#[test]
fn new_game_starts_at_full_health_on_distinct_cells() {
    let game = Game::new();
    assert_eq!(game.player.hp, game.player.max_hp);
    let mut cells = vec![(game.player.x, game.player.y)];
    for e in &game.enemies {
        assert!(!cells.contains(&(e.x, e.y)));
        cells.push((e.x, e.y));
    }
    let first = game.map.rooms[0].clone();
    for y in 0..game.map.height {
        for x in 0..game.map.width {
            let in_ring = x + 1 >= first.x
                && x <= first.x + first.width
                && y + 1 >= first.y
                && y <= first.y + first.height;
            assert_eq!(game.map.is_revealed(x, y), in_ring);
        }
    }
}

#[test]
fn idle_changes_nothing() {
    let mut game = one_room_game(Player::new(5, 5), vec![Enemy::goblin(6, 6)]);
    assert_eq!(game.apply_action(Action::Idle), TurnOutcome::Continue);
    assert_eq!((game.player.x, game.player.y, game.player.hp), (5, 5, 20));
    assert_eq!((game.enemies[0].x, game.enemies[0].y, game.enemies[0].hp), (6, 6, 6));
}

#[test]
fn each_adjacent_enemy_hits_once() {
    let mut game = one_room_game(
        Player::new(5, 5),
        vec![Enemy::goblin(5, 6), Enemy::goblin(4, 5), Enemy::goblin(6, 6)],
    );
    game.enemy_turns();
    // Two goblins next to the player hit for 1 to 3 each; the diagonal one, two steps
    // away, moves instead: its diagonal and horizontal cells are taken, so it steps up.
    assert!(game.player.hp >= 14 && game.player.hp <= 18);
    assert_eq!((game.enemies[2].x, game.enemies[2].y), (6, 5));
}

#[test]
fn attacking_hits_the_first_live_enemy_only() {
    let mut game = one_room_game(Player::new(5, 5), vec![Enemy::goblin(6, 5), Enemy::goblin(6, 5)]);
    game.handle_player_move(1, 0);
    assert!(game.enemies[0].hp < 6);
    assert_eq!(game.enemies[1].hp, 6);
    assert_eq!((game.enemies[0].x, game.enemies[0].y), (6, 5));
}

#[test]
fn a_step_runs_the_enemy_phase() {
    let mut game = one_room_game(Player::new(2, 2), vec![Enemy::goblin(6, 6)]);
    assert_eq!(game.apply_action(Action::Move(1, 0)), TurnOutcome::Continue);
    assert_eq!((game.player.x, game.player.y), (3, 2));
    assert_eq!((game.enemies[0].x, game.enemies[0].y), (5, 5));
}
