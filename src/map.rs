use vstd::prelude::*;

verus! {

/// Classification of one grid cell.
#[derive(Clone, Copy, Debug, PartialEq, Eq, Structural)]
pub enum Tile {
    Wall,
    Floor,
    Corridor,
    Door,
    Potion,
}

/// A cell can be stepped on unless it is a wall.
pub open spec fn walkable(t: Tile) -> bool {
    t != Tile::Wall
}

pub open spec fn tile_glyph(t: Tile) -> char {
    match t {
        Tile::Wall => '#',
        Tile::Floor => '·',
        Tile::Corridor => ':',
        Tile::Door => '╬',
        Tile::Potion => '♥',
    }
}

impl Tile {
    pub fn to_char(&self) -> (r: char)
        ensures
            r == tile_glyph(*self),
    {
        match self {
            Tile::Wall => '#',
            Tile::Floor => '·',
            Tile::Corridor => ':',
            Tile::Door => '╬',
            Tile::Potion => '♥',
        }
    }

    pub fn is_walkable(&self) -> (r: bool)
        ensures
            r == walkable(*self),
    {
        !matches!(self, Tile::Wall)
    }
}

/// An axis-aligned rectangle of the grid: origin `(x, y)`, `width` columns, `height` rows.
#[derive(Clone, Copy, Debug, PartialEq, Eq, Structural)]
pub struct Room {
    pub x: usize,
    pub y: usize,
    pub width: usize,
    pub height: usize,
}

/// The cell `(px, py)` lies inside the room.
pub open spec fn room_contains(r: Room, px: int, py: int) -> bool {
    r.x <= px < r.x + r.width && r.y <= py < r.y + r.height
}

pub open spec fn room_center(r: Room) -> (int, int) {
    (r.x + r.width / 2, r.y + r.height / 2)
}

/// The two rooms, each grown by one cell on every side, overlap on both axes.
pub open spec fn rooms_intersect(a: Room, b: Room) -> bool {
    a.x < b.x + b.width + 1 && a.x + a.width + 1 > b.x && a.y < b.y + b.height + 1 && a.y + a.height
        + 1 > b.y
}

/// The room lies inside a grid of `w` columns and `h` rows.
pub open spec fn room_fits(r: Room, w: int, h: int) -> bool {
    r.x + r.width <= w && r.y + r.height <= h
}

impl Room {
    pub fn new(x: usize, y: usize, width: usize, height: usize) -> (r: Room)
        ensures
            r == (Room { x, y, width, height }),
    {
        Room { x, y, width, height }
    }

    pub fn center(&self) -> (r: (usize, usize))
        requires
            self.x + self.width / 2 <= usize::MAX,
            self.y + self.height / 2 <= usize::MAX,
        ensures
            r.0 == room_center(*self).0,
            r.1 == room_center(*self).1,
    {
        (self.x + self.width / 2, self.y + self.height / 2)
    }

    pub fn intersects(&self, other: &Room) -> (r: bool)
        requires
            other.x + other.width + 1 <= usize::MAX,
            self.x + self.width + 1 <= usize::MAX,
            other.y + other.height + 1 <= usize::MAX,
            self.y + self.height + 1 <= usize::MAX,
        ensures
            r == rooms_intersect(*self, *other),
    {
        self.x < other.x + other.width + 1 && self.x + self.width + 1 > other.x && self.y < other.y
            + other.height + 1 && self.y + self.height + 1 > other.y
    }
}


/// The dungeon grid: a `width` x `height` matrix of tiles, the rooms that were
/// carved into it in generation order, and the fog-of-war matrix.
pub struct GameMap {
    pub width: usize,
    pub height: usize,
    pub tiles: Vec<Vec<Tile>>,
    pub rooms: Vec<Room>,
    pub revealed: Vec<Vec<bool>>,
}

impl GameMap {
    /// Both matrices have `height` rows of `width` cells, and every room lies in the grid.
    pub open spec fn wf(&self) -> bool {
        &&& self.tiles@.len() == self.height
        &&& self.revealed@.len() == self.height
        &&& forall|y: int| 0 <= y < self.height ==> #[trigger] self.tiles@[y]@.len() == self.width
        &&& forall|y: int| 0 <= y < self.height ==> #[trigger] self.revealed@[y]@.len() == self.width
        &&& forall|i: int|
            0 <= i < self.rooms@.len() ==> room_fits(
                #[trigger] self.rooms@[i],
                self.width as int,
                self.height as int,
            )
    }

    pub open spec fn in_bounds(&self, x: int, y: int) -> bool {
        0 <= x < self.width && 0 <= y < self.height
    }

    pub open spec fn tile(&self, x: int, y: int) -> Tile {
        self.tiles@[y]@[x]
    }

    pub open spec fn walkable_at(&self, x: int, y: int) -> bool {
        self.in_bounds(x, y) && walkable(self.tile(x, y))
    }

    pub open spec fn revealed_at(&self, x: int, y: int) -> bool {
        self.in_bounds(x, y) && self.revealed@[y]@[x]
    }

    pub fn new(width: usize, height: usize) -> (r: GameMap)
        ensures
            r.wf(),
            r.width == width,
            r.height == height,
            r.rooms@.len() == 0,
            forall|x: int, y: int| r.in_bounds(x, y) ==> r.tile(x, y) == Tile::Wall,
            forall|x: int, y: int| !#[trigger] r.revealed_at(x, y),
    {
        let mut tiles: Vec<Vec<Tile>> = Vec::new();
        let mut revealed: Vec<Vec<bool>> = Vec::new();
        let mut j: usize = 0;
        while j < height
            invariant
                j <= height,
                tiles@.len() == j,
                revealed@.len() == j,
                forall|y: int| 0 <= y < j ==> #[trigger] tiles@[y]@ == Seq::new(width as nat, |i: int| Tile::Wall),
                forall|y: int| 0 <= y < j ==> #[trigger] revealed@[y]@ == Seq::new(width as nat, |i: int| false),
            decreases height - j,
        {
            let mut row: Vec<Tile> = Vec::new();
            let mut seen: Vec<bool> = Vec::new();
            let mut i: usize = 0;
            while i < width
                invariant
                    i <= width,
                    row@ == Seq::new(i as nat, |k: int| Tile::Wall),
                    seen@ == Seq::new(i as nat, |k: int| false),
                decreases width - i,
            {
                row.push(Tile::Wall);
                seen.push(false);
                i += 1;
                assert(row@ =~= Seq::new(i as nat, |k: int| Tile::Wall));
                assert(seen@ =~= Seq::new(i as nat, |k: int| false));
            }
            tiles.push(row);
            revealed.push(seen);
            j += 1;
        }
        GameMap { width, height, tiles, rooms: Vec::new(), revealed }
    }

    pub fn get_tile(&self, x: usize, y: usize) -> (r: Option<&Tile>)
        requires
            self.wf(),
        ensures
            match r {
                Some(t) => self.in_bounds(x as int, y as int) && *t == self.tile(x as int, y as int),
                None => !self.in_bounds(x as int, y as int),
            },
    {
        if y < self.height && x < self.width {
            Some(&self.tiles[y][x])
        } else {
            None
        }
    }

    pub fn is_walkable(&self, x: usize, y: usize) -> (r: bool)
        requires
            self.wf(),
        ensures
            r == self.walkable_at(x as int, y as int),
    {
        match self.get_tile(x, y) {
            Some(t) => t.is_walkable(),
            None => false,
        }
    }

    pub fn is_door(&self, x: usize, y: usize) -> (r: bool)
        requires
            self.wf(),
        ensures
            r == (self.in_bounds(x as int, y as int) && self.tile(x as int, y as int) == Tile::Door),
    {
        match self.get_tile(x, y) {
            Some(t) => *t == Tile::Door,
            None => false,
        }
    }

    pub fn is_corridor(&self, x: usize, y: usize) -> (r: bool)
        requires
            self.wf(),
        ensures
            r == (self.in_bounds(x as int, y as int) && self.tile(x as int, y as int)
                == Tile::Corridor),
    {
        match self.get_tile(x, y) {
            Some(t) => *t == Tile::Corridor,
            None => false,
        }
    }

    pub fn is_potion(&self, x: usize, y: usize) -> (r: bool)
        requires
            self.wf(),
        ensures
            r == (self.in_bounds(x as int, y as int) && self.tile(x as int, y as int)
                == Tile::Potion),
    {
        match self.get_tile(x, y) {
            Some(t) => *t == Tile::Potion,
            None => false,
        }
    }

    pub fn is_revealed(&self, x: usize, y: usize) -> (r: bool)
        requires
            self.wf(),
        ensures
            r == self.revealed_at(x as int, y as int),
    {
        if y < self.height && x < self.width {
            self.revealed[y][x]
        } else {
            false
        }
    }
}


/// `b` has the grid size, rooms and fog of `a`; its tiles may differ.
pub open spec fn same_but_tiles(a: GameMap, b: GameMap) -> bool {
    &&& b.width == a.width
    &&& b.height == a.height
    &&& b.rooms@ == a.rooms@
    &&& b.revealed@ == a.revealed@
}

/// Every wall of `b` was a wall of `a` and every wall of `a` is still one.
pub open spec fn same_walls(a: GameMap, b: GameMap) -> bool {
    forall|x: int, y: int|
        a.in_bounds(x, y) ==> (#[trigger] b.tile(x, y) == Tile::Wall) == (a.tile(x, y) == Tile::Wall)
}

/// Every cell that can be stepped on in `a` can still be stepped on in `b`.
pub open spec fn walkable_kept(a: GameMap, b: GameMap) -> bool {
    forall|x: int, y: int| #[trigger] a.walkable_at(x, y) ==> b.walkable_at(x, y)
}

/// A tile may go from `t0` to `t` by carving: it is kept, or becomes floor, or a wall
/// becomes corridor; floor stays floor.
pub open spec fn carve_step(t0: Tile, t: Tile) -> bool {
    &&& (t0 == Tile::Floor ==> t == Tile::Floor)
    &&& (t == t0 || t == Tile::Floor || (t0 == Tile::Wall && t == Tile::Corridor))
}

/// Every cell of `b` comes from the same cell of `a` by carving.
pub open spec fn only_carved(a: GameMap, b: GameMap) -> bool {
    forall|x: int, y: int| a.in_bounds(x, y) ==> #[trigger] carve_step(a.tile(x, y), b.tile(x, y))
}

impl GameMap {
    /// Writes one tile.
    pub(crate) fn set_tile(&mut self, x: usize, y: usize, t: Tile)
        requires
            old(self).wf(),
            old(self).in_bounds(x as int, y as int),
        ensures
            final(self).wf(),
            same_but_tiles(*old(self), *final(self)),
            forall|a: int, b: int|
                old(self).in_bounds(a, b) ==> #[trigger] final(self).tile(a, b) == if a == x && b
                    == y {
                    t
                } else {
                    old(self).tile(a, b)
                },
    {
        self.tiles[y][x] = t;
    }

    /// Turns every cell of the room into floor.
    pub fn carve_room(&mut self, room: &Room)
        requires
            old(self).wf(),
            room_fits(*room, old(self).width as int, old(self).height as int),
        ensures
            final(self).wf(),
            same_but_tiles(*old(self), *final(self)),
            forall|a: int, b: int|
                old(self).in_bounds(a, b) ==> #[trigger] final(self).tile(a, b) == if room_contains(
                    *room,
                    a,
                    b,
                ) {
                    Tile::Floor
                } else {
                    old(self).tile(a, b)
                },
            walkable_kept(*old(self), *final(self)),
            only_carved(*old(self), *final(self)),
            forall|a: int, b: int| room_contains(*room, a, b) ==> #[trigger] final(self).walkable_at(a, b),
    {
        let ghost start = *self;
        let mut y: usize = room.y;
        while y < room.y + room.height
            invariant
                self.wf(),
                same_but_tiles(start, *self),
                room.y <= y <= room.y + room.height,
                room_fits(*room, self.width as int, self.height as int),
                forall|a: int, b: int|
                    start.in_bounds(a, b) ==> #[trigger] self.tile(a, b) == if room_contains(
                        *room,
                        a,
                        b,
                    ) && b < y {
                        Tile::Floor
                    } else {
                        start.tile(a, b)
                    },
            decreases room.y + room.height - y,
        {
            let mut x: usize = room.x;
            while x < room.x + room.width
                invariant
                    self.wf(),
                    same_but_tiles(start, *self),
                    room.y <= y < room.y + room.height,
                    room.x <= x <= room.x + room.width,
                    room_fits(*room, self.width as int, self.height as int),
                    forall|a: int, b: int|
                        start.in_bounds(a, b) ==> #[trigger] self.tile(a, b) == if room_contains(
                            *room,
                            a,
                            b,
                        ) && (b < y || (b == y && a < x)) {
                            Tile::Floor
                        } else {
                            start.tile(a, b)
                        },
                decreases room.x + room.width - x,
            {
                self.set_tile(x, y, Tile::Floor);
                x += 1;
            }
            y += 1;
        }
        proof {
            assert forall|a: int, b: int| start.in_bounds(a, b) implies #[trigger] carve_step(start.tile(a, b), self.tile(a, b)) by {
                let _ = self.tile(a, b);
            }
            assert forall|a: int, b: int| #[trigger] start.walkable_at(a, b) implies self.walkable_at(a, b) by {
                let _ = self.tile(a, b);
            }
            assert forall|a: int, b: int| room_contains(*room, a, b) implies #[trigger] self.walkable_at(a, b) by {
                let _ = self.tile(a, b);
            }
        }
    }

    /// Turns the walls of row `y` between columns `x1` and `x2` (both included) into
    /// corridor; cells outside the grid are skipped and other tiles are kept.
    pub fn carve_horizontal_corridor(&mut self, x1: usize, x2: usize, y: usize)
        requires
            old(self).wf(),
        ensures
            final(self).wf(),
            same_but_tiles(*old(self), *final(self)),
            forall|a: int, b: int|
                old(self).in_bounds(a, b) ==> #[trigger] final(self).tile(a, b) == if b == y && (
                x1 <= a <= x2 || x2 <= a <= x1) && old(self).tile(a, b) == Tile::Wall {
                    Tile::Corridor
                } else {
                    old(self).tile(a, b)
                },
            walkable_kept(*old(self), *final(self)),
            only_carved(*old(self), *final(self)),
            (x1 < old(self).width && x2 < old(self).width && y < old(self).height) ==> forall|a: int|
                (x1 <= a <= x2 || x2 <= a <= x1) ==> #[trigger] final(self).walkable_at(a, y as int),
    {
        let ghost start = *self;
        let lo = if x1 < x2 { x1 } else { x2 };
        let hi = if x1 < x2 { x2 } else { x1 };
        let mut x: usize = lo;
        while x <= hi
            invariant_except_break
                forall|a: int, b: int|
                    start.in_bounds(a, b) ==> #[trigger] self.tile(a, b) == if b == y && lo <= a
                        < x && start.tile(a, b) == Tile::Wall {
                        Tile::Corridor
                    } else {
                        start.tile(a, b)
                    },
            invariant
                self.wf(),
                same_but_tiles(start, *self),
                lo <= x,
                x <= hi + 1,
                lo == if x1 < x2 { x1 } else { x2 },
                hi == if x1 < x2 { x2 } else { x1 },
            ensures
                forall|a: int, b: int|
                    start.in_bounds(a, b) ==> #[trigger] self.tile(a, b) == if b == y && lo <= a
                        <= hi && start.tile(a, b) == Tile::Wall {
                        Tile::Corridor
                    } else {
                        start.tile(a, b)
                    },
            decreases hi + 1 - x,
        {
            if y < self.height && x < self.width && self.tiles[y][x] == Tile::Wall {
                self.set_tile(x, y, Tile::Corridor);
            }
            if x == hi {
                break;
            }
            x += 1;
        }
        proof {
            assert forall|a: int, b: int| start.in_bounds(a, b) implies #[trigger] carve_step(start.tile(a, b), self.tile(a, b)) by {
                let _ = self.tile(a, b);
            }
            assert forall|a: int, b: int| #[trigger] start.walkable_at(a, b) implies self.walkable_at(a, b) by {
                let _ = self.tile(a, b);
            }
            assert forall|a: int| (x1 <= a <= x2 || x2 <= a <= x1) && x1 < start.width && x2 < start.width && y < start.height implies #[trigger] self.walkable_at(a, y as int) by {
                let _ = self.tile(a, y as int);
            }
        }
    }

    /// Turns the walls of column `x` between rows `y1` and `y2` (both included) into
    /// corridor; cells outside the grid are skipped and other tiles are kept.
    pub fn carve_vertical_corridor(&mut self, y1: usize, y2: usize, x: usize)
        requires
            old(self).wf(),
        ensures
            final(self).wf(),
            same_but_tiles(*old(self), *final(self)),
            forall|a: int, b: int|
                old(self).in_bounds(a, b) ==> #[trigger] final(self).tile(a, b) == if a == x && (
                y1 <= b <= y2 || y2 <= b <= y1) && old(self).tile(a, b) == Tile::Wall {
                    Tile::Corridor
                } else {
                    old(self).tile(a, b)
                },
            walkable_kept(*old(self), *final(self)),
            only_carved(*old(self), *final(self)),
            (y1 < old(self).height && y2 < old(self).height && x < old(self).width) ==> forall|b: int|
                (y1 <= b <= y2 || y2 <= b <= y1) ==> #[trigger] final(self).walkable_at(x as int, b),
    {
        let ghost start = *self;
        let lo = if y1 < y2 { y1 } else { y2 };
        let hi = if y1 < y2 { y2 } else { y1 };
        let mut y: usize = lo;
        while y <= hi
            invariant_except_break
                forall|a: int, b: int|
                    start.in_bounds(a, b) ==> #[trigger] self.tile(a, b) == if a == x && lo <= b
                        < y && start.tile(a, b) == Tile::Wall {
                        Tile::Corridor
                    } else {
                        start.tile(a, b)
                    },
            invariant
                self.wf(),
                same_but_tiles(start, *self),
                lo <= y,
                y <= hi + 1,
                lo == if y1 < y2 { y1 } else { y2 },
                hi == if y1 < y2 { y2 } else { y1 },
            ensures
                forall|a: int, b: int|
                    start.in_bounds(a, b) ==> #[trigger] self.tile(a, b) == if a == x && lo <= b
                        <= hi && start.tile(a, b) == Tile::Wall {
                        Tile::Corridor
                    } else {
                        start.tile(a, b)
                    },
            decreases hi + 1 - y,
        {
            if y < self.height && x < self.width && self.tiles[y][x] == Tile::Wall {
                self.set_tile(x, y, Tile::Corridor);
            }
            if y == hi {
                break;
            }
            y += 1;
        }
        proof {
            assert forall|a: int, b: int| start.in_bounds(a, b) implies #[trigger] carve_step(start.tile(a, b), self.tile(a, b)) by {
                let _ = self.tile(a, b);
            }
            assert forall|a: int, b: int| #[trigger] start.walkable_at(a, b) implies self.walkable_at(a, b) by {
                let _ = self.tile(a, b);
            }
            assert forall|b: int| (y1 <= b <= y2 || y2 <= b <= y1) && y1 < start.height && y2 < start.height && x < start.width implies #[trigger] self.walkable_at(x as int, b) by {
                let _ = self.tile(x as int, b);
            }
        }
    }

    /// Index of the first room that contains `(x, y)`.
    pub fn room_at(&self, x: usize, y: usize) -> (r: Option<usize>)
        ensures
            match r {
                Some(i) => i < self.rooms@.len() && room_contains(self.rooms@[i as int], x as int, y as int)
                    && forall|j: int| 0 <= j < i ==> !room_contains(#[trigger] self.rooms@[j], x as int, y as int),
                None => forall|j: int| 0 <= j < self.rooms@.len() ==> !room_contains(#[trigger] self.rooms@[j], x as int, y as int),
            },
    {
        let mut i: usize = 0;
        while i < self.rooms.len()
            invariant
                i <= self.rooms@.len(),
                forall|j: int| 0 <= j < i ==> !room_contains(#[trigger] self.rooms@[j], x as int, y as int),
            decreases self.rooms@.len() - i,
        {
            let room = &self.rooms[i];
            if x >= room.x && (x - room.x) < room.width && y >= room.y && (y - room.y) < room.height {
                return Some(i);
            }
            i += 1;
        }
        None
    }

    /// Turns a potion at `(x, y)` into floor; any other cell is left alone.
    pub fn pickup_potion(&mut self, x: usize, y: usize)
        requires
            old(self).wf(),
        ensures
            final(self).wf(),
            same_but_tiles(*old(self), *final(self)),
            forall|a: int, b: int|
                old(self).in_bounds(a, b) ==> #[trigger] final(self).tile(a, b) == if a == x && b
                    == y && old(self).tile(a, b) == Tile::Potion {
                    Tile::Floor
                } else {
                    old(self).tile(a, b)
                },
    {
        if y < self.height && x < self.width && self.tiles[y][x] == Tile::Potion {
            self.set_tile(x, y, Tile::Floor);
        }
    }

    /// Where the player starts: the center of the first room, or the middle of the
    /// grid when there is no room.
    pub fn player_spawn(&self) -> (r: (usize, usize))
        requires
            self.wf(),
        ensures
            self.rooms@.len() > 0 ==> r.0 == room_center(self.rooms@[0]).0 && r.1 == room_center(
                self.rooms@[0],
            ).1,
            self.rooms@.len() == 0 ==> r == (self.width / 2, self.height / 2),
    {
        if self.rooms.len() > 0 {
            proof {
                assert(room_fits(self.rooms@[0], self.width as int, self.height as int));
            }
            self.rooms[0].center()
        } else {
            (self.width / 2, self.height / 2)
        }
    }

    /// The centers of every room but the first, in room order.
    pub fn enemy_spawn_points(&self) -> (r: Vec<(usize, usize)>)
        requires
            self.wf(),
        ensures
            self.rooms@.len() == 0 ==> r@.len() == 0,
            self.rooms@.len() > 0 ==> r@.len() == self.rooms@.len() - 1,
            forall|i: int|
                0 <= i < r@.len() ==> (#[trigger] r@[i]).0 == room_center(self.rooms@[i + 1]).0
                    && r@[i].1 == room_center(self.rooms@[i + 1]).1,
    {
        let mut points: Vec<(usize, usize)> = Vec::new();
        let mut i: usize = 1;
        while i < self.rooms.len()
            invariant
                1 <= i,
                self.wf(),
                self.rooms@.len() > 0 ==> i <= self.rooms@.len(),
                self.rooms@.len() == 0 ==> i == 1,
                points@.len() == i - 1,
                forall|k: int|
                    0 <= k < points@.len() ==> (#[trigger] points@[k]).0 == room_center(self.rooms@[k + 1]).0
                        && points@[k].1 == room_center(self.rooms@[k + 1]).1,
            decreases self.rooms@.len() - i,
        {
            proof {
                assert(room_fits(self.rooms@[i as int], self.width as int, self.height as int));
            }
            points.push(self.rooms[i].center());
            i += 1;
        }
        points
    }
}

} // verus!
