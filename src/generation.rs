use vstd::prelude::*;
use crate::map::{
    carve_step, only_carved, room_center, room_contains, room_fits, rooms_intersect, same_but_tiles, same_walls,
    walkable_kept, GameMap, Room, Tile,
};
use crate::rng::{coin_flip, random_below};

verus! {

/// The cell is outside the grid or holds a wall.
pub open spec fn wall_or_out(m: GameMap, x: int, y: int) -> bool {
    !m.in_bounds(x, y) || m.tile(x, y) == Tile::Wall
}

/// A corridor cell on row `y` of an upper or lower room edge may become a door:
/// its left and right neighbours are walls.
pub open spec fn straight_across(m: GameMap, x: int, y: int) -> bool {
    wall_or_out(m, x - 1, y) && wall_or_out(m, x + 1, y)
}

/// A corridor cell on column `x` of a left or right room edge may become a door:
/// its upper and lower neighbours are walls.
pub open spec fn straight_along(m: GameMap, x: int, y: int) -> bool {
    wall_or_out(m, x, y - 1) && wall_or_out(m, x, y + 1)
}

/// `(x, y)` lies just outside one of the room's four edges (corners excluded), inside
/// the grid, where a straight corridor would meet the room.
pub open spec fn door_site(m: GameMap, r: Room, x: int, y: int) -> bool {
    ||| (r.y > 0 && y == r.y - 1 && r.x <= x < r.x + r.width && straight_across(m, x, y))
    ||| (r.y + r.height < m.height && y == r.y + r.height && r.x <= x < r.x + r.width
        && straight_across(m, x, y))
    ||| (r.x > 0 && x == r.x - 1 && r.y <= y < r.y + r.height && straight_along(m, x, y))
    ||| (r.x + r.width < m.width && x == r.x + r.width && r.y <= y < r.y + r.height
        && straight_along(m, x, y))
}

/// What door placement makes of one cell of `m`.
pub open spec fn with_door(m: GameMap, is_site: bool, x: int, y: int) -> Tile {
    if is_site && m.tile(x, y) == Tile::Corridor {
        Tile::Door
    } else {
        m.tile(x, y)
    }
}


/// The cell holds something else in `b` than in `a`.
pub open spec fn added_cell(a: GameMap, b: GameMap, x: int, y: int) -> bool {
    a.in_bounds(x, y) && b.tile(x, y) != a.tile(x, y)
}

/// Some room of the sequence contains both cells.
pub open spec fn share_room(rooms: Seq<Room>, a: int, b: int, c: int, d: int) -> bool {
    exists|k: int|
        0 <= k < rooms.len() && room_contains(rooms[k], a, b) && room_contains(rooms[k], c, d)
}

/// `b` is `a` with potions added: each changed cell went from floor to potion, lies in
/// a room of `a` off its center, and no room got more than one.
pub open spec fn potions_added(a: GameMap, b: GameMap) -> bool {
    &&& forall|x: int, y: int|
        #[trigger] added_cell(a, b, x, y) ==> a.tile(x, y) == Tile::Floor && b.tile(x, y)
            == Tile::Potion && exists|j: int|
            0 <= j < a.rooms@.len() && room_contains(#[trigger] a.rooms@[j], x, y) && (x, y)
                != room_center(a.rooms@[j])
    &&& forall|x: int, y: int, u: int, v: int|
        #[trigger] added_cell(a, b, x, y) && #[trigger] added_cell(a, b, u, v) && share_room(
            a.rooms@,
            x,
            y,
            u,
            v,
        ) ==> x == u && y == v
}

impl GameMap {
    /// Places doors on row `y`, columns `x0` up to `x1` (excluded): a corridor cell whose
    /// left and right neighbours are walls becomes a door.
    fn place_doors_on_row(&mut self, y: usize, x0: usize, x1: usize)
        requires
            old(self).wf(),
            y < old(self).height,
            x1 <= old(self).width,
        ensures
            final(self).wf(),
            same_but_tiles(*old(self), *final(self)),
            same_walls(*old(self), *final(self)),
            forall|a: int, b: int|
                old(self).in_bounds(a, b) ==> #[trigger] final(self).tile(a, b) == if b == y && x0
                    <= a < x1 {
                    with_door(*old(self), straight_across(*old(self), a, b), a, b)
                } else {
                    old(self).tile(a, b)
                },
    {
        let ghost start = *self;
        let mut x: usize = x0;
        while x < x1
            invariant
                self.wf(),
                same_but_tiles(start, *self),
                same_walls(start, *self),
                y < self.height,
                x1 <= self.width,
                x0 <= x1 ==> x0 <= x <= x1,
                x0 > x1 ==> x == x0,
                forall|a: int, b: int|
                    start.in_bounds(a, b) ==> #[trigger] self.tile(a, b) == if b == y && x0 <= a
                        < x {
                        with_door(start, straight_across(start, a, b), a, b)
                    } else {
                        start.tile(a, b)
                    },
            decreases x1 - x,
        {
            if self.tiles[y][x] == Tile::Corridor {
                let left_is_wall = x == 0 || self.tiles[y][x - 1] == Tile::Wall;
                let right_is_wall = x + 1 >= self.width || self.tiles[y][x + 1] == Tile::Wall;
                proof {
                    let _ = self.tile(x - 1, y as int);
                    let _ = self.tile(x + 1, y as int);
                    assert(left_is_wall == wall_or_out(start, x - 1, y as int));
                    assert(right_is_wall == wall_or_out(start, x + 1, y as int));
                }
                if left_is_wall && right_is_wall {
                    self.set_tile(x, y, Tile::Door);
                }
            }
            x += 1;
        }
    }

    /// Places doors on column `x`, rows `y0` up to `y1` (excluded): a corridor cell whose
    /// upper and lower neighbours are walls becomes a door.
    fn place_doors_on_column(&mut self, x: usize, y0: usize, y1: usize)
        requires
            old(self).wf(),
            x < old(self).width,
            y1 <= old(self).height,
        ensures
            final(self).wf(),
            same_but_tiles(*old(self), *final(self)),
            same_walls(*old(self), *final(self)),
            forall|a: int, b: int|
                old(self).in_bounds(a, b) ==> #[trigger] final(self).tile(a, b) == if a == x && y0
                    <= b < y1 {
                    with_door(*old(self), straight_along(*old(self), a, b), a, b)
                } else {
                    old(self).tile(a, b)
                },
    {
        let ghost start = *self;
        let mut y: usize = y0;
        while y < y1
            invariant
                self.wf(),
                same_but_tiles(start, *self),
                same_walls(start, *self),
                x < self.width,
                y1 <= self.height,
                y0 <= y1 ==> y0 <= y <= y1,
                y0 > y1 ==> y == y0,
                forall|a: int, b: int|
                    start.in_bounds(a, b) ==> #[trigger] self.tile(a, b) == if a == x && y0 <= b
                        < y {
                        with_door(start, straight_along(start, a, b), a, b)
                    } else {
                        start.tile(a, b)
                    },
            decreases y1 - y,
        {
            if self.tiles[y][x] == Tile::Corridor {
                let up_is_wall = y == 0 || self.tiles[y - 1][x] == Tile::Wall;
                let down_is_wall = y + 1 >= self.height || self.tiles[y + 1][x] == Tile::Wall;
                proof {
                    let _ = self.tile(x as int, y - 1);
                    let _ = self.tile(x as int, y + 1);
                    assert(up_is_wall == wall_or_out(start, x as int, y - 1));
                    assert(down_is_wall == wall_or_out(start, x as int, y + 1));
                }
                if up_is_wall && down_is_wall {
                    self.set_tile(x, y, Tile::Door);
                }
            }
            y += 1;
        }
    }

    /// Places the doors of one room, on each of its four edges.
    fn place_doors_around(&mut self, room: Room)
        requires
            old(self).wf(),
            room_fits(room, old(self).width as int, old(self).height as int),
        ensures
            final(self).wf(),
            same_but_tiles(*old(self), *final(self)),
            same_walls(*old(self), *final(self)),
            forall|a: int, b: int|
                old(self).in_bounds(a, b) ==> #[trigger] final(self).tile(a, b) == with_door(
                    *old(self),
                    door_site(*old(self), room, a, b),
                    a,
                    b,
                ),
    {
        let ghost start = *self;
        if room.y > 0 {
            self.place_doors_on_row(room.y - 1, room.x, room.x + room.width);
        }
        let ghost m1 = *self;
        let below_room = room.y + room.height;
        if below_room < self.height {
            self.place_doors_on_row(below_room, room.x, room.x + room.width);
        }
        let ghost m2 = *self;
        if room.x > 0 {
            self.place_doors_on_column(room.x - 1, room.y, room.y + room.height);
        }
        let ghost m3 = *self;
        let right_of_room = room.x + room.width;
        if right_of_room < self.width {
            self.place_doors_on_column(right_of_room, room.y, room.y + room.height);
        }
        proof {
            assert forall|a: int, b: int| start.in_bounds(a, b) implies #[trigger] self.tile(a, b)
                == with_door(start, door_site(start, room, a, b), a, b) by {
                assert(wall_or_out(m1, a - 1, b) == wall_or_out(start, a - 1, b));
                assert(wall_or_out(m1, a + 1, b) == wall_or_out(start, a + 1, b));
                assert(wall_or_out(m2, a, b - 1) == wall_or_out(start, a, b - 1));
                assert(wall_or_out(m2, a, b + 1) == wall_or_out(start, a, b + 1));
                assert(wall_or_out(m3, a, b - 1) == wall_or_out(start, a, b - 1));
                assert(wall_or_out(m3, a, b + 1) == wall_or_out(start, a, b + 1));
            }
        }
    }

    /// Door placement: a corridor cell just outside an edge of some room becomes a
    /// door when the corridor runs straight there, both cells beside it across the
    /// corridor being walls; every other tile is kept.
    pub fn place_doors(&mut self)
        requires
            old(self).wf(),
        ensures
            final(self).wf(),
            same_but_tiles(*old(self), *final(self)),
            same_walls(*old(self), *final(self)),
            forall|a: int, b: int|
                old(self).in_bounds(a, b) ==> #[trigger] final(self).tile(a, b) == with_door(
                    *old(self),
                    exists|j: int|
                        0 <= j < old(self).rooms@.len() && door_site(
                            *old(self),
                            #[trigger] old(self).rooms@[j],
                            a,
                            b,
                        ),
                    a,
                    b,
                ),
    {
        let ghost start = *self;
        let mut i: usize = 0;
        while i < self.rooms.len()
            invariant
                self.wf(),
                same_but_tiles(start, *self),
                same_walls(start, *self),
                i <= self.rooms@.len(),
                forall|a: int, b: int|
                    start.in_bounds(a, b) ==> #[trigger] self.tile(a, b) == with_door(
                        start,
                        exists|j: int|
                            0 <= j < i && door_site(start, #[trigger] start.rooms@[j], a, b),
                        a,
                        b,
                    ),
            decreases self.rooms@.len() - i,
        {
            let room = self.rooms[i];
            let ghost before = *self;
            self.place_doors_around(room);
            proof {
                assert forall|a: int, b: int| start.in_bounds(a, b) implies #[trigger] self.tile(
                    a,
                    b,
                ) == with_door(
                    start,
                    exists|j: int| 0 <= j < i + 1 && door_site(start, #[trigger] start.rooms@[j], a, b),
                    a,
                    b,
                ) by {
                    assert(door_site(before, room, a, b) == door_site(start, room, a, b));
                    if door_site(start, room, a, b) {
                        assert(door_site(start, start.rooms@[i as int], a, b));
                    }
                    if exists|j: int| 0 <= j < i + 1 && door_site(start, #[trigger] start.rooms@[j], a, b) {
                        let j = choose|j: int| 0 <= j < i + 1 && door_site(start, #[trigger] start.rooms@[j], a, b);
                        if j < i {
                        } else {
                            assert(door_site(start, room, a, b));
                        }
                    }
                }
            }
            i += 1;
        }
    }

    /// Puts a potion on `(x, y)` when that cell lies in room `i`, is not the room's
    /// center and holds floor; otherwise nothing changes.
    pub fn place_potion_in(&mut self, i: usize, x: usize, y: usize)
        requires
            old(self).wf(),
            i < old(self).rooms@.len(),
        ensures
            final(self).wf(),
            same_but_tiles(*old(self), *final(self)),
            forall|a: int, b: int|
                old(self).in_bounds(a, b) ==> #[trigger] final(self).tile(a, b) == if a == x && b
                    == y && room_contains(old(self).rooms@[i as int], a, b) && (a, b) != room_center(
                    old(self).rooms@[i as int],
                ) && old(self).tile(a, b) == Tile::Floor {
                    Tile::Potion
                } else {
                    old(self).tile(a, b)
                },
    {
        let room = self.rooms[i];
        proof {
            assert(room_fits(self.rooms@[i as int], self.width as int, self.height as int));
        }
        let (cx, cy) = room.center();
        if x >= room.x && x - room.x < room.width && y >= room.y && y - room.y < room.height && (x
            != cx || y != cy) && self.tiles[y][x] == Tile::Floor {
            proof {
                let _ = self.tile(x as int, y as int);
            }
            self.set_tile(x, y, Tile::Potion);
        }
    }

    /// Potion placement: for each room, on a coin flip, one random cell of the room
    /// that holds floor and is not the room's center becomes a potion.
    fn place_potions(&mut self)
        requires
            old(self).wf(),
            rooms_disjoint(old(self).rooms@),
            forall|i: int|
                0 <= i < old(self).rooms@.len() ==> #[trigger] old(self).rooms@[i].width > 0
                    && old(self).rooms@[i].height > 0,
        ensures
            final(self).wf(),
            same_but_tiles(*old(self), *final(self)),
            same_walls(*old(self), *final(self)),
            potions_added(*old(self), *final(self)),
    {
        let ghost start = *self;
        let mut i: usize = 0;
        while i < self.rooms.len()
            invariant
                self.wf(),
                same_but_tiles(start, *self),
                i <= self.rooms@.len(),
                rooms_disjoint(start.rooms@),
                forall|j: int|
                    0 <= j < self.rooms@.len() ==> #[trigger] self.rooms@[j].width > 0
                        && self.rooms@[j].height > 0,
                forall|a: int, b: int|
                    start.in_bounds(a, b) ==> #[trigger] self.tile(a, b) == start.tile(a, b) || (
                    start.tile(a, b) == Tile::Floor && self.tile(a, b) == Tile::Potion && exists|
                        j: int,
                    |
                        0 <= j < i && room_contains(#[trigger] start.rooms@[j], a, b) && (a, b)
                            != room_center(start.rooms@[j])),
                forall|a: int, b: int, c: int, d: int|
                    #[trigger] added_cell(start, *self, a, b) && #[trigger] added_cell(start, *self, c, d)
                        && share_room(start.rooms@, a, b, c, d) ==> a == c && b == d,
            decreases self.rooms@.len() - i,
        {
            let room = self.rooms[i];
            proof {
                assert(room_fits(self.rooms@[i as int], self.width as int, self.height as int));
            }
            if coin_flip() {
                let x = random_below(room.x, room.x + room.width);
                let y = random_below(room.y, room.y + room.height);
                let ghost before = *self;
                self.place_potion_in(i, x, y);
                proof {
                    assert forall|a: int, b: int|
                        start.in_bounds(a, b) implies #[trigger] self.tile(a, b) == start.tile(a, b) || (
                        start.tile(a, b) == Tile::Floor && self.tile(a, b) == Tile::Potion && exists|
                            j: int,
                        |
                            0 <= j < i + 1 && room_contains(#[trigger] start.rooms@[j], a, b) && (a, b)
                                != room_center(start.rooms@[j])) by {
                        let _ = before.tile(a, b);
                    }
                    assert forall|a: int, b: int, c: int, d: int|
                        #[trigger] added_cell(start, *self, a, b) && #[trigger] added_cell(start, *self, c, d)
                            && share_room(start.rooms@, a, b, c, d) implies a == c && b == d by {
                        let _ = before.tile(a, b);
                        let _ = before.tile(c, d);
                        if added_cell(start, before, a, b) && added_cell(start, before, c, d) {
                        } else {
                            let k = choose|k: int| 0 <= k < start.rooms@.len() && room_contains(start.rooms@[k], a, b) && room_contains(start.rooms@[k], c, d);
                            if !added_cell(start, before, a, b) && !added_cell(start, before, c, d) {
                            } else if !added_cell(start, before, a, b) {
                                // (a, b) is the new potion, in room i; (c, d) came from a room before i.
                                let j = choose|j: int| 0 <= j < i && room_contains(#[trigger] start.rooms@[j], c, d) && (c, d) != room_center(start.rooms@[j]);
                                if k != i {
                                    assert(rooms_intersect(start.rooms@[k], start.rooms@[i as int]));
                                } else {
                                    assert(rooms_intersect(start.rooms@[j], start.rooms@[i as int]));
                                }
                            } else {
                                let j = choose|j: int| 0 <= j < i && room_contains(#[trigger] start.rooms@[j], a, b) && (a, b) != room_center(start.rooms@[j]);
                                if k != i {
                                    assert(rooms_intersect(start.rooms@[k], start.rooms@[i as int]));
                                } else {
                                    assert(rooms_intersect(start.rooms@[j], start.rooms@[i as int]));
                                }
                            }
                        }
                    }
                }
            }
            i += 1;
        }
        proof {
            assert forall|a: int, b: int| start.in_bounds(a, b) implies (#[trigger] self.tile(a, b) == Tile::Wall) == (start.tile(a, b) == Tile::Wall) by {
                let _ = self.tile(a, b);
            }
        }
    }
}

/// The room lies inside a grid of `w` columns and `h` rows with a wall of at least
/// one cell on every side, and each of its sides measures between `min` and `max`.
pub open spec fn room_placed(r: Room, w: int, h: int, min: int, max: int) -> bool {
    &&& min <= r.width <= max
    &&& min <= r.height <= max
    &&& 1 <= r.x
    &&& r.x + r.width + 1 < w
    &&& 1 <= r.y
    &&& r.y + r.height + 1 < h
}

/// No two rooms of the sequence intersect, margins included.
pub open spec fn rooms_disjoint(rooms: Seq<Room>) -> bool {
    forall|i: int, j: int|
        0 <= i < rooms.len() && 0 <= j < rooms.len() && i != j ==> !rooms_intersect(
            #[trigger] rooms[i],
            #[trigger] rooms[j],
        )
}


impl GameMap {
    /// Builds the dungeon: up to `num_rooms * 10` random candidate rooms, each kept only
    /// if it meets no room kept before; each kept room after the first is joined to the
    /// one kept before it by an L-shaped corridor. Then doors, then potions.
    #[verifier::rlimit(100)]
    pub fn generate(&mut self, num_rooms: usize, min_room_size: usize, max_room_size: usize)
        requires
            old(self).wf(),
            old(self).rooms@.len() == 0,
            forall|x: int, y: int| old(self).in_bounds(x, y) ==> #[trigger] old(self).tile(x, y) == Tile::Wall,
            1 <= min_room_size <= max_room_size,
            max_room_size + 3 <= old(self).width,
            max_room_size + 3 <= old(self).height,
            num_rooms * 10 <= usize::MAX,
        ensures
            final(self).wf(),
            final(self).width == old(self).width,
            final(self).height == old(self).height,
            final(self).revealed@ == old(self).revealed@,
            final(self).rooms@.len() <= num_rooms,
            num_rooms > 0 ==> final(self).rooms@.len() > 0,
            forall|i: int|
                0 <= i < final(self).rooms@.len() ==> room_placed(
                    #[trigger] final(self).rooms@[i],
                    final(self).width as int,
                    final(self).height as int,
                    min_room_size as int,
                    max_room_size as int,
                ),
            rooms_disjoint(final(self).rooms@),
            rooms_connected(*final(self)),
            dungeon_tiles(*final(self)),
            border_walls(*final(self)),
    {
        let attempts = num_rooms * 10;
        let mut attempt: usize = 0;
        while attempt < attempts
            invariant
                self.wf(),
                self.width == old(self).width,
                self.height == old(self).height,
                self.revealed@ == old(self).revealed@,
                1 <= min_room_size <= max_room_size,
                max_room_size + 3 <= self.width,
                max_room_size + 3 <= self.height,
                self.rooms@.len() <= num_rooms,
                generation_state(*self, min_room_size as int, max_room_size as int),
                num_rooms > 0 && attempt > 0 ==> self.rooms@.len() > 0,
                attempts == num_rooms * 10,
            ensures
                num_rooms > 0 ==> self.rooms@.len() > 0,
            decreases attempts - attempt,
        {
            if self.rooms.len() >= num_rooms {
                break;
            }
            let room_width = random_below(min_room_size, max_room_size + 1);
            let room_height = random_below(min_room_size, max_room_size + 1);
            let x = random_below(1, self.width - room_width - 1);
            let y = random_below(1, self.height - room_height - 1);
            let horizontal_first = coin_flip();
            self.try_place_room(room_width, room_height, x, y, horizontal_first, min_room_size, max_room_size);
            attempt += 1;
        }
        let ghost m0 = *self;
        self.place_doors();
        let ghost m1 = *self;
        self.place_potions();
        proof {
            assert forall|a: int, b: int| #[trigger] m0.walkable_at(a, b) implies self.walkable_at(a, b) by {
                let _ = m1.tile(a, b);
                let _ = self.tile(a, b);
            }
            assert forall|i: int| 0 <= i < self.rooms@.len() implies reachable(*self, room_center(self.rooms@[0]), room_center(#[trigger] self.rooms@[i])) by {
                assert(reachable(m0, room_center(m0.rooms@[0]), room_center(m0.rooms@[i])));
                lemma_reachable_kept(m0, *self, room_center(m0.rooms@[0]), room_center(m0.rooms@[i]));
            }
            assert forall|i: int| 0 <= i < m0.rooms@.len() implies #[trigger] m0.rooms@[i].width > 0
                && m0.rooms@[i].height > 0 by {
                assert(room_placed(m0.rooms@[i], m0.width as int, m0.height as int, min_room_size as int, max_room_size as int));
            }
            lemma_finish_generation(m0, m1, *self);
            assert forall|x: int, y: int|
                self.in_bounds(x, y) && (x == 0 || y == 0 || x == self.width - 1 || y == self.height - 1)
                    implies #[trigger] self.tile(x, y) == Tile::Wall by {
                assert(m0.tile(x, y) == Tile::Wall);
                let _ = m1.tile(x, y);
            }
        }
    }
}

impl GameMap {
    /// One placement attempt with given draws: a room of `room_width` x `room_height`
    /// cells at `(x, y)`. It is kept only if it meets no room kept before; then it is
    /// carved, joined to the room kept before it by an L-shaped corridor (its
    /// horizontal leg first when `horizontal_first`) and appended to the rooms.
    #[verifier::rlimit(100)]
    pub fn try_place_room(
        &mut self,
        room_width: usize,
        room_height: usize,
        x: usize,
        y: usize,
        horizontal_first: bool,
        min_room_size: usize,
        max_room_size: usize,
    ) -> (placed: bool)
        requires
            old(self).wf(),
            generation_state(*old(self), min_room_size as int, max_room_size as int),
            room_placed(
                Room { x, y, width: room_width, height: room_height },
                old(self).width as int,
                old(self).height as int,
                min_room_size as int,
                max_room_size as int,
            ),
        ensures
            final(self).wf(),
            generation_state(*final(self), min_room_size as int, max_room_size as int),
            final(self).width == old(self).width,
            final(self).height == old(self).height,
            final(self).revealed@ == old(self).revealed@,
            placed == !exists|j: int|
                0 <= j < old(self).rooms@.len() && rooms_intersect(
                    Room { x, y, width: room_width, height: room_height },
                    #[trigger] old(self).rooms@[j],
                ),
            !placed ==> *final(self) == *old(self),
            placed ==> final(self).rooms@ == old(self).rooms@.push(
                Room { x, y, width: room_width, height: room_height },
            ),
            placed ==> forall|a: int, b: int|
                old(self).in_bounds(a, b) ==> #[trigger] final(self).tile(a, b) == placed_tile(
                    *old(self),
                    Room { x, y, width: room_width, height: room_height },
                    horizontal_first,
                    a,
                    b,
                ),
    {
        let ghost start = *self;
        let new_room = Room::new(x, y, room_width, room_height);

        let mut overlaps = false;
        let mut k: usize = 0;
        while k < self.rooms.len() && !overlaps
            invariant
                k <= self.rooms@.len(),
                new_room.x + new_room.width + 1 < self.width,
                new_room.y + new_room.height + 1 < self.height,
                forall|i: int|
                    0 <= i < self.rooms@.len() ==> room_placed(
                        #[trigger] self.rooms@[i],
                        self.width as int,
                        self.height as int,
                        min_room_size as int,
                        max_room_size as int,
                    ),
                !overlaps ==> forall|j: int| 0 <= j < k ==> !rooms_intersect(new_room, #[trigger] self.rooms@[j]),
                overlaps ==> exists|j: int| 0 <= j < self.rooms@.len() && rooms_intersect(new_room, #[trigger] self.rooms@[j]),
            decreases self.rooms@.len() - k + if overlaps { 0int } else { 1int },
        {
            proof {
                assert(room_placed(self.rooms@[k as int], self.width as int, self.height as int, min_room_size as int, max_room_size as int));
            }
            if new_room.intersects(&self.rooms[k]) {
                overlaps = true;
            } else {
                k += 1;
            }
        }

        if !overlaps {
            let ghost placed = self.rooms@;
            let ghost m0 = *self;
            assert(forall|j: int| 0 <= j < placed.len() ==> !rooms_intersect(new_room, #[trigger] placed[j]));
            self.carve_room(&new_room);
            let ghost m1 = *self;
            proof {
                lemma_carved_refl(m1);
            }
            proof {
                assert(room_contains(new_room, room_center(new_room).0, room_center(new_room).1));
            }
            if self.rooms.len() > 0 {
                let (new_x, new_y) = new_room.center();
                let last = self.rooms.len() - 1;
                proof {
                    assert(room_placed(self.rooms@[last as int], self.width as int, self.height as int, min_room_size as int, max_room_size as int));
                }
                let (prev_x, prev_y) = self.rooms[last].center();
                let ghost cp = (prev_x as int, prev_y as int);
                let ghost cn = (new_x as int, new_y as int);
                if horizontal_first {
                    self.carve_horizontal_corridor(prev_x, new_x, prev_y);
                    let ghost m2 = *self;
                    self.carve_vertical_corridor(prev_y, new_y, new_x);
                    proof {
                        lemma_carved_trans(m1, m2, *self);
                        assert forall|a: int, b: int| start.in_bounds(a, b) implies #[trigger] self.tile(a, b) == placed_tile(start, new_room, horizontal_first, a, b) by {
                            let _ = m1.tile(a, b);
                            let _ = m2.tile(a, b);
                        }
                        assert forall|a: int| (prev_x <= a <= new_x || new_x <= a <= prev_x) implies #[trigger] self.walkable_at(a, prev_y as int) by {
                            assert(m2.walkable_at(a, prev_y as int));
                        }
                        lemma_row_reachable(*self, prev_x as int, new_x as int, prev_y as int);
                        lemma_column_reachable(*self, new_x as int, prev_y as int, new_y as int);
                        lemma_reachable_trans(*self, cp, (new_x as int, prev_y as int), cn);
                    }
                } else {
                    self.carve_vertical_corridor(prev_y, new_y, prev_x);
                    let ghost m2 = *self;
                    self.carve_horizontal_corridor(prev_x, new_x, new_y);
                    proof {
                        lemma_carved_trans(m1, m2, *self);
                        assert forall|a: int, b: int| start.in_bounds(a, b) implies #[trigger] self.tile(a, b) == placed_tile(start, new_room, horizontal_first, a, b) by {
                            let _ = m1.tile(a, b);
                            let _ = m2.tile(a, b);
                        }
                        assert forall|b: int| (prev_y <= b <= new_y || new_y <= b <= prev_y) implies #[trigger] self.walkable_at(prev_x as int, b) by {
                            assert(m2.walkable_at(prev_x as int, b));
                        }
                        lemma_column_reachable(*self, prev_x as int, prev_y as int, new_y as int);
                        lemma_row_reachable(*self, prev_x as int, new_x as int, new_y as int);
                        lemma_reachable_trans(*self, cp, (prev_x as int, new_y as int), cn);
                    }
                }
                proof {
                    assert(walkable_kept(m0, *self)) by {
                        assert forall|a: int, b: int| #[trigger] m0.walkable_at(a, b) implies self.walkable_at(a, b) by {
                            assert(m1.walkable_at(a, b));
                        }
                    }
                    assert(reachable(m0, room_center(m0.rooms@[0]), room_center(m0.rooms@[last as int])));
                    lemma_reachable_kept(m0, *self, room_center(m0.rooms@[0]), cp);
                    lemma_reachable_trans(*self, room_center(m0.rooms@[0]), cp, cn);
                }
            }
            proof {
                if m0.rooms@.len() == 0 {
                    assert forall|a: int, b: int| start.in_bounds(a, b) implies #[trigger] self.tile(a, b) == placed_tile(start, new_room, horizontal_first, a, b) by {
                        let _ = m1.tile(a, b);
                    }
                }
            }
            let ghost m3 = *self;
            proof {
                if m0.rooms@.len() == 0 {
                    assert(self.walkable_at(room_center(new_room).0, room_center(new_room).1));
                    let path = seq![room_center(new_room)];
                    assert(is_walk(*self, path));
                    assert(path[0] == room_center(new_room) && path.last() == room_center(new_room));
                    assert(reachable(*self, room_center(new_room), room_center(new_room)));
                }
                assert forall|i: int| 0 <= i < m0.rooms@.len() implies reachable(m3, room_center(m0.rooms@[0]), room_center(#[trigger] m0.rooms@[i])) by {
                    assert(reachable(m0, room_center(m0.rooms@[0]), room_center(m0.rooms@[i])));
                    assert(walkable_kept(m0, m3)) by {
                        assert forall|a: int, b: int| #[trigger] m0.walkable_at(a, b) implies m3.walkable_at(a, b) by {
                            assert(m1.walkable_at(a, b));
                        }
                    }
                    lemma_reachable_kept(m0, m3, room_center(m0.rooms@[0]), room_center(m0.rooms@[i]));
                }
            }
            proof {
                assert forall|i: int| 0 <= i < m0.rooms@.len() implies m3.tile(
                    room_center(#[trigger] m0.rooms@[i]).0,
                    room_center(m0.rooms@[i]).1,
                ) == Tile::Floor by {
                    assert(room_placed(m0.rooms@[i], m0.width as int, m0.height as int, min_room_size as int, max_room_size as int));
                    assert(m1.tile(room_center(m0.rooms@[i]).0, room_center(m0.rooms@[i]).1) == Tile::Floor);
                }
                assert(m1.tile(room_center(new_room).0, room_center(new_room).1) == Tile::Floor);
                assert(m3.tile(room_center(new_room).0, room_center(new_room).1) == Tile::Floor);
            }
            proof {
                assert(only_carved(m1, m3));
                assert forall|a: int, b: int| m3.in_bounds(a, b) implies #[trigger] carved_tile(m3.tile(a, b)) by {
                    assert(carve_step(m0.tile(a, b), m1.tile(a, b)));
                    assert(carve_step(m1.tile(a, b), m3.tile(a, b)));
                }
                assert forall|i: int, a: int, b: int| 0 <= i < m0.rooms@.len() && #[trigger] room_contains(m0.rooms@[i], a, b) implies m3.tile(a, b) == Tile::Floor by {
                    assert(room_placed(m0.rooms@[i], m0.width as int, m0.height as int, min_room_size as int, max_room_size as int));
                    assert(carve_step(m0.tile(a, b), m1.tile(a, b)));
                    assert(carve_step(m1.tile(a, b), m3.tile(a, b)));
                }
                assert forall|a: int, b: int| #[trigger] room_contains(new_room, a, b) implies m3.tile(a, b) == Tile::Floor by {
                    assert(m1.tile(a, b) == Tile::Floor);
                    assert(carve_step(m1.tile(a, b), m3.tile(a, b)));
                }
            }
            let ghost before = self.rooms@;
            self.rooms.push(new_room);
            proof {
                assert forall|a: int, b: int|
                    self.in_bounds(a, b) && (a == 0 || b == 0 || a == self.width - 1 || b == self.height - 1)
                        implies #[trigger] self.tile(a, b) == Tile::Wall by {
                    assert(start.tile(a, b) == Tile::Wall);
                    assert(m3.tile(a, b) == placed_tile(start, new_room, horizontal_first, a, b));
                    if start.rooms@.len() > 0 {
                        assert(room_placed(start.rooms@.last(), start.width as int, start.height as int, min_room_size as int, max_room_size as int));
                    }
                }
                assert forall|a: int, b: int| start.in_bounds(a, b) implies #[trigger] self.tile(a, b) == placed_tile(start, new_room, horizontal_first, a, b) by {
                    assert(m3.tile(a, b) == placed_tile(start, new_room, horizontal_first, a, b));
                }
                assert forall|a: int, b: int| self.in_bounds(a, b) implies #[trigger] carved_tile(self.tile(a, b)) by {
                    assert(carved_tile(m3.tile(a, b)));
                }
                assert forall|i: int, a: int, b: int| 0 <= i < self.rooms@.len() && #[trigger] room_contains(self.rooms@[i], a, b) implies self.tile(a, b) == Tile::Floor by {
                    if i < before.len() {
                        assert(self.rooms@[i] == m0.rooms@[i]);
                    } else {
                        assert(self.rooms@[i] == new_room);
                    }
                }
                assert(walkable_kept(m3, *self));
                assert forall|i: int| 0 <= i < self.rooms@.len() implies reachable(*self, room_center(self.rooms@[0]), room_center(#[trigger] self.rooms@[i])) by {
                    assert(self.rooms@[0] == if m0.rooms@.len() == 0 { new_room } else { m0.rooms@[0] });
                    if i < m0.rooms@.len() {
                        assert(self.rooms@[i] == m0.rooms@[i]);
                    } else {
                        assert(self.rooms@[i] == new_room);
                    }
                    lemma_reachable_kept(m3, *self, room_center(self.rooms@[0]), room_center(self.rooms@[i]));
                }
            }
            proof {
                assert forall|i: int, j: int|
                    0 <= i < self.rooms@.len() && 0 <= j < self.rooms@.len() && i != j implies !rooms_intersect(
                        #[trigger] self.rooms@[i],
                        #[trigger] self.rooms@[j],
                    ) by {
                    if i < before.len() && j < before.len() {
                        assert(before[i] == self.rooms@[i] && before[j] == self.rooms@[j]);
                    } else if i == before.len() {
                        assert(!rooms_intersect(new_room, placed[j]));
                    } else {
                        assert(!rooms_intersect(new_room, placed[i]));
                    }
                }
            }
        }
        !overlaps
    }
}

/// The invariant of generation over a grid and its rooms: each room is placed with
/// sides between `min` and `max`, no two intersect, all are connected, carving left
/// only walls, floor and corridor, and room centers are floor.
pub open spec fn generation_state(m: GameMap, min: int, max: int) -> bool {
    &&& 1 <= min <= max
    &&& max + 3 <= m.width
    &&& max + 3 <= m.height
    &&& forall|i: int|
        0 <= i < m.rooms@.len() ==> room_placed(#[trigger] m.rooms@[i], m.width as int, m.height as int, min, max)
    &&& rooms_disjoint(m.rooms@)
    &&& rooms_connected(m)
    &&& forall|i: int|
        0 <= i < m.rooms@.len() ==> m.tile(
            room_center(#[trigger] m.rooms@[i]).0,
            room_center(m.rooms@[i]).1,
        ) == Tile::Floor
    &&& carved_map(m)
    &&& border_walls(m)
}

/// Every cell on the outer ring of the grid is a wall.
pub open spec fn border_walls(m: GameMap) -> bool {
    forall|x: int, y: int|
        m.in_bounds(x, y) && (x == 0 || y == 0 || x == m.width - 1 || y == m.height - 1)
            ==> #[trigger] m.tile(x, y) == Tile::Wall
}

/// The cell lies between `p` and `q` (both included) on one axis.
pub open spec fn between(c: int, p: int, q: int) -> bool {
    p <= c <= q || q <= c <= p
}

/// What a placement attempt that keeps `r` makes of cell `(a, b)` of `m`: the room
/// becomes floor; then a wall on one of the two legs of the corridor from the center
/// of the last room of `m` (if any) to the center of `r` becomes corridor. The
/// horizontal leg lies on the row of the starting center when `horizontal_first`, else
/// on the row of the ending one; the vertical leg on the other center's column.
pub open spec fn placed_tile(m: GameMap, r: Room, horizontal_first: bool, a: int, b: int) -> Tile {
    let t1 = if room_contains(r, a, b) { Tile::Floor } else { m.tile(a, b) };
    if m.rooms@.len() == 0 {
        t1
    } else {
        let (px, py) = room_center(m.rooms@.last());
        let (nx, ny) = room_center(r);
        let row = if horizontal_first { py } else { ny };
        let col = if horizontal_first { nx } else { px };
        if t1 == Tile::Wall && ((b == row && between(a, px, nx)) || (a == col && between(b, py, ny))) {
            Tile::Corridor
        } else {
            t1
        }
    }
}

/// A tile that carving can leave: wall, floor or corridor.
pub open spec fn carved_tile(t: Tile) -> bool {
    t == Tile::Wall || t == Tile::Floor || t == Tile::Corridor
}

/// The grid as carving leaves it: only walls, floor and corridor, and every cell of
/// every room is floor.
pub open spec fn carved_map(m: GameMap) -> bool {
    &&& forall|x: int, y: int| m.in_bounds(x, y) ==> #[trigger] carved_tile(m.tile(x, y))
    &&& forall|i: int, x: int, y: int|
        0 <= i < m.rooms@.len() && #[trigger] room_contains(m.rooms@[i], x, y) ==> m.tile(x, y)
            == Tile::Floor
}

/// The tiles of a finished dungeon: every room cell is floor or potion and every room
/// center floor; each potion lies in a room, off its center, at most one per room; a
/// cell holds a door exactly where the door pass puts one, and a corridor never
/// stands where a door would.
pub open spec fn dungeon_tiles(m: GameMap) -> bool {
    &&& forall|i: int, x: int, y: int|
        0 <= i < m.rooms@.len() && #[trigger] room_contains(m.rooms@[i], x, y) ==> m.tile(x, y)
            == Tile::Floor || m.tile(x, y) == Tile::Potion
    &&& forall|i: int|
        0 <= i < m.rooms@.len() ==> m.tile(
            room_center(#[trigger] m.rooms@[i]).0,
            room_center(m.rooms@[i]).1,
        ) == Tile::Floor
    &&& forall|x: int, y: int|
        m.in_bounds(x, y) && #[trigger] m.tile(x, y) == Tile::Potion ==> exists|j: int|
            0 <= j < m.rooms@.len() && room_contains(#[trigger] m.rooms@[j], x, y) && (x, y)
                != room_center(m.rooms@[j])
    &&& forall|x: int, y: int, u: int, v: int|
        m.in_bounds(x, y) && m.in_bounds(u, v) && #[trigger] m.tile(x, y) == Tile::Potion
            && #[trigger] m.tile(u, v) == Tile::Potion && share_room(m.rooms@, x, y, u, v) ==> x == u
            && y == v
    &&& forall|x: int, y: int|
        m.in_bounds(x, y) && #[trigger] m.tile(x, y) == Tile::Door ==> exists|j: int|
            0 <= j < m.rooms@.len() && door_site(m, #[trigger] m.rooms@[j], x, y)
    &&& forall|x: int, y: int|
        m.in_bounds(x, y) && #[trigger] m.tile(x, y) == Tile::Corridor ==> !exists|j: int|
            0 <= j < m.rooms@.len() && door_site(m, #[trigger] m.rooms@[j], x, y)
}

proof fn lemma_carved_refl(m: GameMap)
    ensures
        only_carved(m, m),
{
    assert forall|x: int, y: int| m.in_bounds(x, y) implies #[trigger] carve_step(m.tile(x, y), m.tile(x, y)) by {}
}

proof fn lemma_carved_trans(a: GameMap, b: GameMap, c: GameMap)
    requires
        only_carved(a, b),
        only_carved(b, c),
        b.width == a.width,
        b.height == a.height,
    ensures
        only_carved(a, c),
{
    assert forall|x: int, y: int| a.in_bounds(x, y) implies #[trigger] carve_step(a.tile(x, y), c.tile(x, y)) by {
        assert(carve_step(a.tile(x, y), b.tile(x, y)));
        assert(carve_step(b.tile(x, y), c.tile(x, y)));
    }
}

/// Door sites depend on the walls alone.
proof fn lemma_door_site_same(a: GameMap, b: GameMap, r: Room, x: int, y: int)
    requires
        same_walls(a, b),
        b.width == a.width,
        b.height == a.height,
    ensures
        door_site(a, r, x, y) == door_site(b, r, x, y),
{
    let _ = b.tile(x - 1, y);
    let _ = b.tile(x + 1, y);
    let _ = b.tile(x, y - 1);
    let _ = b.tile(x, y + 1);
}

proof fn lemma_finish_generation(m0: GameMap, m1: GameMap, m2: GameMap)
    requires
        m0.wf(),
        carved_map(m0),
        rooms_disjoint(m0.rooms@),
        forall|i: int|
            0 <= i < m0.rooms@.len() ==> #[trigger] m0.rooms@[i].width > 0 && m0.rooms@[i].height > 0,
        same_but_tiles(m0, m1),
        same_walls(m0, m1),
        forall|a: int, b: int|
            m0.in_bounds(a, b) ==> #[trigger] m1.tile(a, b) == with_door(
                m0,
                exists|j: int| 0 <= j < m0.rooms@.len() && door_site(m0, #[trigger] m0.rooms@[j], a, b),
                a,
                b,
            ),
        same_but_tiles(m1, m2),
        same_walls(m1, m2),
        potions_added(m1, m2),
    ensures
        dungeon_tiles(m2),
{
    let rooms = m0.rooms@;
    assert forall|a: int, b: int| m0.in_bounds(a, b) implies m1.tile(a, b) != Tile::Potion && (m1.tile(a, b)
        == Tile::Floor) == (m0.tile(a, b) == Tile::Floor) by {
        assert(carved_tile(m0.tile(a, b)));
    }
    assert forall|i: int, x: int, y: int|
        0 <= i < m2.rooms@.len() && #[trigger] room_contains(m2.rooms@[i], x, y) implies m2.tile(x, y)
            == Tile::Floor || m2.tile(x, y) == Tile::Potion by {
        assert(room_fits(rooms[i], m0.width as int, m0.height as int));
        assert(room_contains(m0.rooms@[i], x, y));
        assert(m0.tile(x, y) == Tile::Floor);
        assert(m1.tile(x, y) == Tile::Floor);
        if added_cell(m1, m2, x, y) {
        }
    }
    assert forall|i: int| 0 <= i < m2.rooms@.len() implies m2.tile(
        room_center(#[trigger] m2.rooms@[i]).0,
        room_center(m2.rooms@[i]).1,
    ) == Tile::Floor by {
        let (cx, cy) = room_center(rooms[i]);
        assert(room_contains(rooms[i], cx, cy));
        let _ = m1.tile(cx, cy);
        if added_cell(m1, m2, cx, cy) {
            let j = choose|j: int|
                0 <= j < m1.rooms@.len() && room_contains(#[trigger] m1.rooms@[j], cx, cy) && (cx, cy)
                    != room_center(m1.rooms@[j]);
            assert(rooms_intersect(rooms[i], rooms[j]));
        }
    }
    assert forall|x: int, y: int| m2.in_bounds(x, y) && #[trigger] m2.tile(x, y) == Tile::Potion implies exists|j: int|
        0 <= j < m2.rooms@.len() && room_contains(#[trigger] m2.rooms@[j], x, y) && (x, y)
            != room_center(m2.rooms@[j]) by {
        let _ = m1.tile(x, y);
        assert(added_cell(m1, m2, x, y));
    }
    assert forall|x: int, y: int, u: int, v: int|
        m2.in_bounds(x, y) && m2.in_bounds(u, v) && #[trigger] m2.tile(x, y) == Tile::Potion
            && #[trigger] m2.tile(u, v) == Tile::Potion && share_room(m2.rooms@, x, y, u, v) implies x == u
            && y == v by {
        let _ = m1.tile(x, y);
        let _ = m1.tile(u, v);
        assert(added_cell(m1, m2, x, y));
        assert(added_cell(m1, m2, u, v));
    }
    assert forall|x: int, y: int|
        m2.in_bounds(x, y) implies (#[trigger] m2.tile(x, y) == Tile::Door ==> exists|j: int|
            0 <= j < m2.rooms@.len() && door_site(m2, #[trigger] m2.rooms@[j], x, y)) && (m2.tile(x, y)
            == Tile::Corridor ==> !exists|j: int|
            0 <= j < m2.rooms@.len() && door_site(m2, #[trigger] m2.rooms@[j], x, y)) by {
        let _ = m1.tile(x, y);
        assert(carved_tile(m0.tile(x, y)));
        if added_cell(m1, m2, x, y) {
            assert(m2.tile(x, y) == Tile::Potion);
        } else {
            assert(m2.tile(x, y) == m1.tile(x, y));
        }
        assert forall|j: int| 0 <= j < rooms.len() implies door_site(m0, rooms[j], x, y) == door_site(m2, rooms[j], x, y) by {
            lemma_door_site_same(m0, m1, rooms[j], x, y);
            lemma_door_site_same(m1, m2, rooms[j], x, y);
        }
        if m2.tile(x, y) == Tile::Door {
            assert(m1.tile(x, y) == Tile::Door);
            assert(exists|j: int| 0 <= j < m0.rooms@.len() && door_site(m0, #[trigger] m0.rooms@[j], x, y));
            let j = choose|j: int| 0 <= j < m0.rooms@.len() && door_site(m0, #[trigger] m0.rooms@[j], x, y);
            assert(door_site(m2, m2.rooms@[j], x, y));
        }
        if m2.tile(x, y) == Tile::Corridor {
            if exists|j: int| 0 <= j < m2.rooms@.len() && door_site(m2, #[trigger] m2.rooms@[j], x, y) {
                let j = choose|j: int| 0 <= j < m2.rooms@.len() && door_site(m2, #[trigger] m2.rooms@[j], x, y);
                assert(door_site(m0, m0.rooms@[j], x, y));
            }
        }
    }
}

/// What the door pass makes of cell `(x, y)` of `m` (see `GameMap::place_doors`).
pub open spec fn door_pass(m: GameMap, x: int, y: int) -> Tile {
    with_door(
        m,
        exists|k: int| 0 <= k < m.rooms@.len() && door_site(m, #[trigger] m.rooms@[k], x, y),
        x,
        y,
    )
}

/// Door placement on a straight corridor: when row `y` holds a one-cell-wide corridor
/// from just right of room `i` to just left of room `j` (walls above and below it all
/// along), and every room is at least one cell wide with all its cells floor, the door pass puts exactly one door at each
/// end and leaves the cells between them corridor.
pub proof fn lemma_straight_corridor_doors(m: GameMap, i: int, j: int, y: int)
    requires
        m.wf(),
        forall|k: int, a: int, b: int|
            0 <= k < m.rooms@.len() && #[trigger] room_contains(m.rooms@[k], a, b) ==> m.tile(a, b)
                == Tile::Floor,
        forall|k: int| 0 <= k < m.rooms@.len() ==> #[trigger] m.rooms@[k].width > 0,
        0 <= i < m.rooms@.len(),
        0 <= j < m.rooms@.len(),
        m.rooms@[i].y <= y < m.rooms@[i].y + m.rooms@[i].height,
        m.rooms@[j].y <= y < m.rooms@[j].y + m.rooms@[j].height,
        m.rooms@[i].x + m.rooms@[i].width < m.rooms@[j].x - 1,
        0 < y < m.height - 1,
        forall|x: int|
            m.rooms@[i].x + m.rooms@[i].width <= x <= m.rooms@[j].x - 1 ==> #[trigger] m.tile(x, y)
                == Tile::Corridor && m.tile(x, y - 1) == Tile::Wall && m.tile(x, y + 1) == Tile::Wall,
    ensures
        door_pass(m, m.rooms@[i].x + m.rooms@[i].width, y) == Tile::Door,
        door_pass(m, m.rooms@[j].x - 1, y) == Tile::Door,
        forall|x: int|
            m.rooms@[i].x + m.rooms@[i].width < x < m.rooms@[j].x - 1 ==> #[trigger] door_pass(m, x, y)
                == Tile::Corridor,
{
    let a = m.rooms@[i];
    let b = m.rooms@[j];
    let x0 = a.x + a.width;
    let x1 = b.x - 1;
    assert(room_fits(b, m.width as int, m.height as int));
    let _ = m.tile(x0, y);
    let _ = m.tile(x1, y);
    assert(door_site(m, a, x0, y));
    assert(door_site(m, b, x1, y));
    assert forall|x: int| x0 < x < x1 implies #[trigger] door_pass(m, x, y) == Tile::Corridor by {
        let _ = m.tile(x - 1, y);
        let _ = m.tile(x + 1, y);
        if exists|k: int| 0 <= k < m.rooms@.len() && door_site(m, #[trigger] m.rooms@[k], x, y) {
            let k = choose|k: int| 0 <= k < m.rooms@.len() && door_site(m, #[trigger] m.rooms@[k], x, y);
            let r = m.rooms@[k];
            assert(r.width > 0);
            if r.x > 0 && x == r.x - 1 && r.y <= y < r.y + r.height {
                assert(room_contains(r, x + 1, y));
            }
            if r.x + r.width < m.width && x == r.x + r.width && r.y <= y < r.y + r.height {
                assert(room_contains(r, x - 1, y));
            }
        }
    }
}

/// The two cells share a side.
pub open spec fn side_by_side(p: (int, int), q: (int, int)) -> bool {
    (p.0 == q.0 && (p.1 == q.1 + 1 || q.1 == p.1 + 1)) || (p.1 == q.1 && (p.0 == q.0 + 1 || q.0
        == p.0 + 1))
}

/// A non-empty sequence of walkable cells, each sharing a side with the next.
pub open spec fn is_walk(m: GameMap, path: Seq<(int, int)>) -> bool {
    &&& path.len() > 0
    &&& forall|k: int| 0 <= k < path.len() ==> m.walkable_at(#[trigger] path[k].0, path[k].1)
    &&& forall|k: int| 0 <= k < path.len() - 1 ==> side_by_side(#[trigger] path[k], path[k + 1])
}

/// One can walk from `a` to `b` over walkable cells.
pub open spec fn reachable(m: GameMap, a: (int, int), b: (int, int)) -> bool {
    exists|path: Seq<(int, int)>| is_walk(m, path) && path[0] == a && path.last() == b
}

/// The center of every room can be reached from the center of the first one.
pub open spec fn rooms_connected(m: GameMap) -> bool {
    forall|i: int|
        0 <= i < m.rooms@.len() ==> reachable(m, room_center(m.rooms@[0]), room_center(
            #[trigger] m.rooms@[i],
        ))
}

/// A walk stays a walk when no walkable cell is lost.
pub proof fn lemma_reachable_kept(a: GameMap, b: GameMap, p: (int, int), q: (int, int))
    requires
        walkable_kept(a, b),
        reachable(a, p, q),
    ensures
        reachable(b, p, q),
{
    let path = choose|path: Seq<(int, int)>| is_walk(a, path) && path[0] == p && path.last() == q;
    assert forall|k: int| 0 <= k < path.len() implies b.walkable_at(#[trigger] path[k].0, path[k].1) by {
        assert(a.walkable_at(path[k].0, path[k].1));
    }
    assert(is_walk(b, path));
}

/// Reachability is transitive.
pub proof fn lemma_reachable_trans(m: GameMap, a: (int, int), b: (int, int), c: (int, int))
    requires
        reachable(m, a, b),
        reachable(m, b, c),
    ensures
        reachable(m, a, c),
{
    let head = choose|path: Seq<(int, int)>| is_walk(m, path) && path[0] == a && path.last() == b;
    let rest = choose|path: Seq<(int, int)>| is_walk(m, path) && path[0] == b && path.last() == c;
    let tail = rest.drop_first();
    let path = head + tail;
    assert forall|k: int| 0 <= k < path.len() implies m.walkable_at(#[trigger] path[k].0, path[k].1) by {
        if k < head.len() {
            assert(path[k] == head[k]);
        } else {
            assert(path[k] == rest[k - head.len() + 1]);
        }
    }
    assert forall|k: int| 0 <= k < path.len() - 1 implies side_by_side(#[trigger] path[k], path[k + 1]) by {
        if k < head.len() - 1 {
            assert(path[k] == head[k] && path[k + 1] == head[k + 1]);
        } else if k == head.len() - 1 {
            assert(path[k] == rest[0]);
            assert(path[k + 1] == rest[1]);
        } else {
            assert(path[k] == rest[k - head.len() + 1]);
            assert(path[k + 1] == rest[k - head.len() + 2]);
        }
    }
    if rest.len() == 1 {
        assert(path =~= head);
    } else {
        assert(path.last() == rest.last());
    }
    assert(is_walk(m, path));
}

/// A stretch of row `y` whose cells are all walkable can be walked end to end.
pub proof fn lemma_row_reachable(m: GameMap, x1: int, x2: int, y: int)
    requires
        forall|x: int| (x1 <= x <= x2 || x2 <= x <= x1) ==> #[trigger] m.walkable_at(x, y),
    ensures
        reachable(m, (x1, y), (x2, y)),
{
    if x1 <= x2 {
        let path = Seq::new((x2 - x1 + 1) as nat, |k: int| (x1 + k, y));
        assert(m.walkable_at(path[0].0, path[0].1));
        assert(is_walk(m, path));
        assert(path.last() == (x2, y));
    } else {
        let path = Seq::new((x1 - x2 + 1) as nat, |k: int| (x1 - k, y));
        assert(m.walkable_at(path[0].0, path[0].1));
        assert(is_walk(m, path));
        assert(path.last() == (x2, y));
    }
}

/// A stretch of column `x` whose cells are all walkable can be walked end to end.
pub proof fn lemma_column_reachable(m: GameMap, x: int, y1: int, y2: int)
    requires
        forall|y: int| (y1 <= y <= y2 || y2 <= y <= y1) ==> #[trigger] m.walkable_at(x, y),
    ensures
        reachable(m, (x, y1), (x, y2)),
{
    if y1 <= y2 {
        let path = Seq::new((y2 - y1 + 1) as nat, |k: int| (x, y1 + k));
        assert(m.walkable_at(path[0].0, path[0].1));
        assert(is_walk(m, path));
        assert(path.last() == (x, y2));
    } else {
        let path = Seq::new((y1 - y2 + 1) as nat, |k: int| (x, y1 - k));
        assert(m.walkable_at(path[0].0, path[0].1));
        assert(is_walk(m, path));
        assert(path.last() == (x, y2));
    }
}


} // verus!
