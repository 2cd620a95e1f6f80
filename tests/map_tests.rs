use dungeon::map::{GameMap, Room, Tile};

fn count_tiles(map: &GameMap, t: Tile) -> usize {
    let mut n = 0;
    for row in &map.tiles {
        for cell in row {
            if *cell == t {
                n += 1;
            }
        }
    }
    n
}

fn two_rooms_with_corridor() -> GameMap {
    let mut map = GameMap::new(20, 10);
    let a = Room::new(1, 1, 4, 3);
    let b = Room::new(8, 1, 4, 3);
    map.carve_room(&a);
    map.carve_room(&b);
    map.rooms.push(a.clone());
    map.rooms.push(b.clone());
    let (ax, ay) = a.center();
    let (bx, _) = b.center();
    map.carve_horizontal_corridor(ax, bx, ay);
    map
}

#[test]
fn tile_glyphs_and_walkability() {
    assert_eq!(Tile::Wall.to_char(), '#');
    assert_eq!(Tile::Floor.to_char(), '·');
    assert_eq!(Tile::Corridor.to_char(), ':');
    assert_eq!(Tile::Door.to_char(), '╬');
    assert_eq!(Tile::Potion.to_char(), '♥');
    assert!(!Tile::Wall.is_walkable());
    assert!(Tile::Floor.is_walkable());
    assert!(Tile::Corridor.is_walkable());
    assert!(Tile::Door.is_walkable());
    assert!(Tile::Potion.is_walkable());
}

#[test]
fn room_center_uses_integer_division() {
    assert_eq!(Room::new(2, 3, 5, 4).center(), (4, 5));
    assert_eq!(Room::new(0, 0, 1, 1).center(), (0, 0));
}

#[test]
fn rooms_intersect_within_margin() {
    let a = Room::new(1, 1, 4, 4);
    // Side by side, with no wall between them.
    assert!(a.intersects(&Room::new(5, 1, 3, 3)));
    assert!(a.intersects(&Room::new(1, 5, 3, 3)));
    // One wall cell between them is enough.
    assert!(!a.intersects(&Room::new(6, 1, 3, 3)));
    assert!(!a.intersects(&Room::new(1, 6, 3, 3)));
    assert!(!a.intersects(&Room::new(7, 1, 3, 3)));
    assert!(a.intersects(&Room::new(2, 2, 1, 1)));
}

#[test]
fn new_map_is_all_hidden_wall() {
    let map = GameMap::new(7, 4);
    assert_eq!(map.tiles.len(), 4);
    assert_eq!(map.tiles[0].len(), 7);
    assert_eq!(count_tiles(&map, Tile::Wall), 28);
    assert!(map.rooms.is_empty());
    assert!(!map.is_revealed(3, 2));
    assert_eq!(map.get_tile(6, 3), Some(&Tile::Wall));
    assert_eq!(map.get_tile(7, 3), None);
    assert_eq!(map.get_tile(0, 4), None);
    assert!(!map.is_walkable(1, 1));
}

#[test]
fn carving_a_room_makes_floor() {
    let mut map = GameMap::new(10, 10);
    map.carve_room(&Room::new(2, 3, 3, 2));
    assert_eq!(count_tiles(&map, Tile::Floor), 6);
    assert!(map.is_walkable(2, 3));
    assert!(map.is_walkable(4, 4));
    assert!(!map.is_walkable(5, 4));
    assert!(!map.is_walkable(2, 5));
}

#[test]
fn corridors_only_overwrite_walls() {
    let mut map = GameMap::new(10, 10);
    map.carve_room(&Room::new(3, 3, 2, 2));
    map.carve_horizontal_corridor(8, 1, 3);
    assert_eq!(map.get_tile(1, 3), Some(&Tile::Corridor));
    assert_eq!(map.get_tile(3, 3), Some(&Tile::Floor));
    assert_eq!(map.get_tile(8, 3), Some(&Tile::Corridor));
    assert_eq!(map.get_tile(9, 3), Some(&Tile::Wall));
    map.carve_vertical_corridor(0, 9, 4);
    assert_eq!(map.get_tile(4, 0), Some(&Tile::Corridor));
    assert_eq!(map.get_tile(4, 4), Some(&Tile::Floor));
    assert_eq!(map.get_tile(4, 9), Some(&Tile::Corridor));
    // Cells outside the grid are skipped.
    map.carve_horizontal_corridor(0, 20, 15);
    assert_eq!(count_tiles(&map, Tile::Corridor), 6 + 8);
}

#[test]
fn straight_corridor_gets_one_door_at_each_end() {
    let mut map = two_rooms_with_corridor();
    assert_eq!(count_tiles(&map, Tile::Corridor), 3);
    map.place_doors();
    assert_eq!(count_tiles(&map, Tile::Door), 2);
    assert_eq!(map.get_tile(5, 2), Some(&Tile::Door));
    assert_eq!(map.get_tile(7, 2), Some(&Tile::Door));
    assert_eq!(map.get_tile(6, 2), Some(&Tile::Corridor));
    assert!(map.is_door(5, 2));
    assert!(map.is_corridor(6, 2));
}

#[test]
fn no_door_where_the_corridor_turns() {
    let mut map = GameMap::new(20, 12);
    let a = Room::new(1, 1, 4, 3);
    map.carve_room(&a);
    map.rooms.push(a);
    // A corridor leaving the right edge on row 2, then turning down at column 5.
    map.carve_horizontal_corridor(5, 5, 2);
    map.carve_vertical_corridor(2, 8, 5);
    map.carve_horizontal_corridor(5, 10, 3);
    map.place_doors();
    assert_eq!(count_tiles(&map, Tile::Door), 0);
}

#[test]
fn generated_rooms_fit_and_do_not_meet() {
    for _ in 0..20 {
        let mut map = GameMap::new(100, 35);
        map.generate(12, 4, 8);
        assert!(map.rooms.len() <= 12);
        assert!(!map.rooms.is_empty());
        for (i, a) in map.rooms.iter().enumerate() {
            assert!(a.width >= 4 && a.width <= 8);
            assert!(a.height >= 4 && a.height <= 8);
            assert!(a.x >= 1 && a.x + a.width + 1 < 100);
            assert!(a.y >= 1 && a.y + a.height + 1 < 35);
            for (j, b) in map.rooms.iter().enumerate() {
                if i != j {
                    assert!(!a.intersects(b));
                }
            }
        }
    }
}

#[test]
fn generated_rooms_are_all_reachable() {
    for _ in 0..20 {
        let mut map = GameMap::new(60, 30);
        map.generate(8, 3, 6);
        let start = map.rooms[0].center();
        let mut seen = vec![vec![false; 60]; 30];
        let mut stack = vec![start];
        seen[start.1][start.0] = true;
        while let Some((x, y)) = stack.pop() {
            let mut next = vec![(x + 1, y), (x, y + 1)];
            if x > 0 {
                next.push((x - 1, y));
            }
            if y > 0 {
                next.push((x, y - 1));
            }
            for (nx, ny) in next {
                if map.is_walkable(nx, ny) && !seen[ny][nx] {
                    seen[ny][nx] = true;
                    stack.push((nx, ny));
                }
            }
        }
        for room in &map.rooms {
            let (cx, cy) = room.center();
            assert!(seen[cy][cx]);
        }
    }
}

#[test]
fn generation_with_no_room_asked_leaves_walls() {
    let mut map = GameMap::new(20, 20);
    map.generate(0, 3, 5);
    assert!(map.rooms.is_empty());
    assert_eq!(count_tiles(&map, Tile::Wall), 400);
    assert_eq!(map.player_spawn(), (10, 10));
    assert!(map.enemy_spawn_points().is_empty());
}

#[test]
fn potions_sit_on_room_cells_off_center() {
    for _ in 0..20 {
        let mut map = GameMap::new(80, 30);
        map.generate(10, 3, 6);
        for y in 0..30 {
            for x in 0..80 {
                if map.is_potion(x, y) {
                    let i = map.room_at(x, y).expect("potion outside a room");
                    assert_ne!(map.rooms[i].center(), (x, y));
                }
            }
        }
    }
}

#[test]
fn spawn_points_are_room_centers() {
    let map = two_rooms_with_corridor();
    assert_eq!(map.player_spawn(), (3, 2));
    assert_eq!(map.enemy_spawn_points(), vec![(10, 2)]);
}

#[test]
fn room_lookup() {
    let map = two_rooms_with_corridor();
    assert_eq!(map.room_at(1, 1), Some(0));
    assert_eq!(map.room_at(11, 3), Some(1));
    assert_eq!(map.room_at(6, 2), None);
    assert_eq!(map.room_at(5, 2), None);
}

#[test]
fn reveal_single_cell_and_out_of_grid() {
    let mut map = GameMap::new(5, 5);
    map.reveal_at(2, 3);
    assert!(map.is_revealed(2, 3));
    assert!(!map.is_revealed(3, 2));
    map.reveal_at(9, 9);
    assert!(!map.is_revealed(9, 9));
}

#[test]
fn reveal_room_includes_its_border() {
    let mut map = two_rooms_with_corridor();
    map.reveal_room(0);
    for y in 0..5 {
        for x in 0..6 {
            assert!(map.is_revealed(x, y), "({}, {})", x, y);
        }
    }
    assert!(!map.is_revealed(6, 2));
    assert!(!map.is_revealed(0, 5));
    // An unknown room index changes nothing.
    map.reveal_room(7);
    assert!(!map.is_revealed(8, 2));
}

#[test]
fn reveal_surroundings_is_clipped() {
    let mut map = GameMap::new(4, 4);
    map.reveal_surroundings(0, 0);
    assert!(map.is_revealed(0, 0));
    assert!(map.is_revealed(1, 1));
    assert!(!map.is_revealed(2, 0));
    map.reveal_surroundings(3, 3);
    assert!(map.is_revealed(2, 2));
    assert!(!map.is_revealed(1, 3));
}

#[test]
fn revealed_cells_stay_revealed() {
    let mut map = two_rooms_with_corridor();
    map.reveal_at(6, 2);
    map.reveal_room(1);
    map.reveal_surroundings(6, 2);
    map.pickup_potion(6, 2);
    map.reveal_room(0);
    assert!(map.is_revealed(6, 2));
    assert!(map.is_revealed(9, 2));
}

#[test]
fn potion_pickup_turns_floor() {
    let mut map = two_rooms_with_corridor();
    map.tiles[1][2] = Tile::Potion;
    assert!(map.is_potion(2, 1));
    map.pickup_potion(2, 1);
    assert_eq!(map.get_tile(2, 1), Some(&Tile::Floor));
    map.pickup_potion(6, 2);
    assert_eq!(map.get_tile(6, 2), Some(&Tile::Corridor));
}

#[test]
fn hidden_cells_show_blank() {
    let map = two_rooms_with_corridor();
    assert_eq!(map.get_tile_char(2, 2), ' ');
}

#[test]
fn revealed_cells_show_their_glyph() {
    let mut map = two_rooms_with_corridor();
    map.place_doors();
    map.reveal_room(0);
    map.reveal_at(6, 2);
    assert_eq!(map.get_tile_char(2, 2), '·');
    assert_eq!(map.get_tile_char(5, 2), '╬');
    assert_eq!(map.get_tile_char(6, 2), ':');
    // Corners of the room join two walls.
    assert_eq!(map.get_tile_char(0, 0), '┌');
    assert_eq!(map.get_tile_char(5, 0), '┐');
    assert_eq!(map.get_tile_char(0, 4), '└');
    assert_eq!(map.get_tile_char(5, 4), '┘');
    // Straight walls.
    assert_eq!(map.get_tile_char(2, 0), '─');
    assert_eq!(map.get_tile_char(0, 2), '│');
    // A wall with an open cell near it but no border wall beside it.
    map.reveal_surroundings(6, 2);
    assert_eq!(map.get_tile_char(6, 1), '─');
}

#[test]
fn inner_walls_are_not_drawn() {
    let mut map = GameMap::new(10, 10);
    map.carve_room(&Room::new(1, 1, 2, 2));
    map.reveal_surroundings(6, 6);
    assert_eq!(map.get_tile_char(6, 6), ' ');
    map.reveal_at(4, 4);
    assert_eq!(map.get_tile_char(4, 4), ' ');
    map.reveal_at(3, 3);
    assert_eq!(map.get_tile_char(3, 3), '┘');
}

#[test]
fn placement_attempt_keeps_only_rooms_that_do_not_meet() {
    let mut map = GameMap::new(30, 20);
    assert!(map.try_place_room(4, 4, 2, 2, true, 3, 6));
    assert_eq!(map.rooms.len(), 1);
    assert_eq!(count_tiles(&map, Tile::Floor), 16);
    assert_eq!(count_tiles(&map, Tile::Corridor), 0);
    // Meets the first room's margin: refused, nothing changes.
    assert!(!map.try_place_room(3, 3, 6, 2, false, 3, 6));
    assert_eq!(map.rooms.len(), 1);
    assert_eq!(count_tiles(&map, Tile::Floor), 16);
    // A second room, joined horizontally first from (4, 4) to (21, 11).
    assert!(map.try_place_room(4, 4, 19, 9, true, 3, 6));
    assert_eq!(map.rooms.len(), 2);
    assert_eq!(map.get_tile(10, 4), Some(&Tile::Corridor));
    assert_eq!(map.get_tile(21, 7), Some(&Tile::Corridor));
    assert_eq!(map.get_tile(10, 11), Some(&Tile::Wall));
}

#[test]
fn placement_attempt_vertical_leg_first() {
    let mut map = GameMap::new(30, 20);
    assert!(map.try_place_room(4, 4, 2, 2, false, 3, 6));
    assert!(map.try_place_room(4, 4, 19, 9, false, 3, 6));
    assert_eq!(map.get_tile(4, 8), Some(&Tile::Corridor));
    assert_eq!(map.get_tile(10, 11), Some(&Tile::Corridor));
    assert_eq!(map.get_tile(10, 4), Some(&Tile::Wall));
}

#[test]
fn single_potion_placement() {
    let mut map = two_rooms_with_corridor();
    // The center is kept free.
    map.place_potion_in(0, 3, 2);
    assert_eq!(map.get_tile(3, 2), Some(&Tile::Floor));
    // A cell outside the room is left alone.
    map.place_potion_in(0, 6, 2);
    assert_eq!(map.get_tile(6, 2), Some(&Tile::Corridor));
    map.place_potion_in(1, 2, 1);
    assert_eq!(map.get_tile(2, 1), Some(&Tile::Floor));
    // A floor cell of the room, off its center.
    map.place_potion_in(0, 2, 1);
    assert_eq!(map.get_tile(2, 1), Some(&Tile::Potion));
}

#[test]
fn generated_dungeon_keeps_its_outer_ring_and_one_potion_per_room() {
    for _ in 0..20 {
        let mut map = GameMap::new(50, 25);
        map.generate(8, 3, 6);
        for x in 0..50 {
            assert_eq!(map.get_tile(x, 0), Some(&Tile::Wall));
            assert_eq!(map.get_tile(x, 24), Some(&Tile::Wall));
        }
        for y in 0..25 {
            assert_eq!(map.get_tile(0, y), Some(&Tile::Wall));
            assert_eq!(map.get_tile(49, y), Some(&Tile::Wall));
        }
        for room in &map.rooms {
            let mut potions = 0;
            for y in room.y..room.y + room.height {
                for x in room.x..room.x + room.width {
                    let t = *map.get_tile(x, y).unwrap();
                    assert!(t == Tile::Floor || t == Tile::Potion);
                    if t == Tile::Potion {
                        potions += 1;
                    }
                }
            }
            assert!(potions <= 1);
            let (cx, cy) = room.center();
            assert_eq!(map.get_tile(cx, cy), Some(&Tile::Floor));
        }
    }
}
