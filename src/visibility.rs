use vstd::prelude::*;
use crate::map::{tile_glyph, room_fits, GameMap, Tile};

verus! {

/// Every cell revealed in `a` is revealed in `b`.
pub open spec fn revealed_kept(a: GameMap, b: GameMap) -> bool {
    forall|x: int, y: int| #[trigger] a.revealed_at(x, y) ==> b.revealed_at(x, y)
}

/// `b` is `a` with, in addition, every grid cell revealed whose column lies in
/// `[x0, x1]` and whose row lies in `[y0, y1]`.
pub open spec fn box_revealed(a: GameMap, b: GameMap, x0: int, x1: int, y0: int, y1: int) -> bool {
    &&& b.width == a.width
    &&& b.height == a.height
    &&& b.tiles@ == a.tiles@
    &&& b.rooms@ == a.rooms@
    &&& forall|x: int, y: int|
        #[trigger] b.revealed_at(x, y) == (a.revealed_at(x, y) || (a.in_bounds(x, y) && x0 <= x
            <= x1 && y0 <= y <= y1))
}

/// The cell is in the grid and holds anything but a wall.
pub open spec fn open_at(m: GameMap, x: int, y: int) -> bool {
    m.in_bounds(x, y) && m.tile(x, y) != Tile::Wall
}

/// One of the eight cells around `(x, y)` is open.
pub open spec fn borders_open(m: GameMap, x: int, y: int) -> bool {
    ||| open_at(m, x - 1, y - 1)
    ||| open_at(m, x, y - 1)
    ||| open_at(m, x + 1, y - 1)
    ||| open_at(m, x - 1, y)
    ||| open_at(m, x + 1, y)
    ||| open_at(m, x - 1, y + 1)
    ||| open_at(m, x, y + 1)
    ||| open_at(m, x + 1, y + 1)
}

/// A wall of the grid next to (diagonals included) an open cell: a wall that is drawn.
pub open spec fn border_wall(m: GameMap, x: int, y: int) -> bool {
    m.in_bounds(x, y) && m.tile(x, y) == Tile::Wall && borders_open(m, x, y)
}

/// Which orthogonal neighbours of `(x, y)` are border walls: up 1, down 2, left 4, right 8.
pub open spec fn wall_mask(m: GameMap, x: int, y: int) -> int {
    (if border_wall(m, x, y - 1) { 1int } else { 0int }) + (if border_wall(m, x, y + 1) {
        2int
    } else {
        0int
    }) + (if border_wall(m, x - 1, y) { 4int } else { 0int }) + (if border_wall(m, x + 1, y) {
        8int
    } else {
        0int
    })
}

/// Box-drawing glyph of a border wall, by its mask.
pub open spec fn wall_glyph(mask: int) -> char {
    if mask == 0 { '#' }
    else if mask == 1 { '│' }
    else if mask == 2 { '│' }
    else if mask == 3 { '│' }
    else if mask == 4 { '─' }
    else if mask == 5 { '┘' }
    else if mask == 6 { '┐' }
    else if mask == 7 { '┤' }
    else if mask == 8 { '─' }
    else if mask == 9 { '└' }
    else if mask == 10 { '┌' }
    else if mask == 11 { '├' }
    else if mask == 12 { '─' }
    else if mask == 13 { '┴' }
    else if mask == 14 { '┬' }
    else { '┼' }
}

/// What the cell shows: blank while hidden, blank for a wall with no open cell
/// around it, a connected wall glyph for other walls, else the tile's own glyph.
pub open spec fn display_glyph(m: GameMap, x: int, y: int) -> char {
    if !m.revealed_at(x, y) {
        ' '
    } else if m.tile(x, y) == Tile::Wall {
        if borders_open(m, x, y) {
            wall_glyph(wall_mask(m, x, y))
        } else {
            ' '
        }
    } else {
        tile_glyph(m.tile(x, y))
    }
}

impl GameMap {
    /// Reveals a single cell; outside the grid nothing happens.
    pub fn reveal_at(&mut self, x: usize, y: usize)
        requires
            old(self).wf(),
        ensures
            final(self).wf(),
            box_revealed(*old(self), *final(self), x as int, x as int, y as int, y as int),
    {
        if y < self.height && x < self.width {
            self.set_revealed(x, y);
        }
    }

    fn set_revealed(&mut self, x: usize, y: usize)
        requires
            old(self).wf(),
            old(self).in_bounds(x as int, y as int),
        ensures
            final(self).wf(),
            final(self).width == old(self).width,
            final(self).height == old(self).height,
            final(self).tiles@ == old(self).tiles@,
            final(self).rooms@ == old(self).rooms@,
            forall|a: int, b: int|
                #[trigger] final(self).revealed_at(a, b) == (old(self).revealed_at(a, b) || (a == x
                    && b == y)),
    {
        self.revealed[y][x] = true;
    }

    /// Reveals every grid cell with column in `[x0, x1)` and row in `[y0, y1)`.
    fn reveal_box(&mut self, x0: usize, x1: usize, y0: usize, y1: usize)
        requires
            old(self).wf(),
            x1 <= old(self).width,
            y1 <= old(self).height,
        ensures
            final(self).wf(),
            box_revealed(*old(self), *final(self), x0 as int, x1 - 1, y0 as int, y1 - 1),
    {
        let ghost start = *self;
        let mut y: usize = y0;
        while y < y1
            invariant
                self.wf(),
                start.wf(),
                x1 <= self.width,
                y1 <= self.height,
                y0 <= y1 ==> y0 <= y <= y1,
                y0 > y1 ==> y == y0,
                box_revealed(start, *self, x0 as int, x1 - 1, y0 as int, y - 1),
            decreases y1 - y,
        {
            let mut x: usize = x0;
            while x < x1
                invariant
                    self.wf(),
                    start.wf(),
                    x1 <= self.width,
                    y0 <= y < y1 <= self.height,
                    x0 <= x1 ==> x0 <= x <= x1,
                    x0 > x1 ==> x == x0,
                    self.width == start.width,
                    self.height == start.height,
                    self.tiles@ == start.tiles@,
                    self.rooms@ == start.rooms@,
                    forall|a: int, b: int| #[trigger] self.revealed_at(a, b) == (
                        start.revealed_at(a, b) || (start.in_bounds(a, b) && x0 <= a <= x1 - 1
                            && y0 <= b <= y - 1) || (b == y && x0 <= a < x)),
                decreases x1 - x,
            {
                self.set_revealed(x, y);
                x += 1;
            }
            y += 1;
        }
    }

    /// Reveals the 3 x 3 block centered on `(x, y)`, clipped to the grid.
    pub fn reveal_surroundings(&mut self, x: usize, y: usize)
        requires
            old(self).wf(),
        ensures
            final(self).wf(),
            box_revealed(*old(self), *final(self), x - 1, x + 1, y - 1, y + 1),
    {
        let x0 = if x > 0 { x - 1 } else { 0 };
        let y0 = if y > 0 { y - 1 } else { 0 };
        let x1 = if x < self.width && x + 1 < self.width { x + 2 } else { self.width };
        let y1 = if y < self.height && y + 1 < self.height { y + 2 } else { self.height };
        self.reveal_box(x0, x1, y0, y1);
    }

    /// Reveals room `room_idx` and the ring of cells around it, clipped to the grid;
    /// an index past the last room changes nothing.
    pub fn reveal_room(&mut self, room_idx: usize)
        requires
            old(self).wf(),
        ensures
            final(self).wf(),
            room_idx < old(self).rooms@.len() ==> box_revealed(
                *old(self),
                *final(self),
                old(self).rooms@[room_idx as int].x - 1,
                old(self).rooms@[room_idx as int].x + old(self).rooms@[room_idx as int].width,
                old(self).rooms@[room_idx as int].y - 1,
                old(self).rooms@[room_idx as int].y + old(self).rooms@[room_idx as int].height,
            ),
            room_idx >= old(self).rooms@.len() ==> *final(self) == *old(self),
    {
        if room_idx >= self.rooms.len() {
            return;
        }
        let room = self.rooms[room_idx];
        proof {
            assert(room_fits(self.rooms@[room_idx as int], self.width as int, self.height as int));
        }
        let start_x = room.x.saturating_sub(1);
        let start_y = room.y.saturating_sub(1);
        let end_x = if room.x + room.width < self.width { room.x + room.width + 1 } else { self.width };
        let end_y = if room.y + room.height < self.height { room.y + room.height + 1 } else { self.height };
        self.reveal_box(start_x, end_x, start_y, end_y);
    }
}

impl GameMap {
    fn is_open(&self, x: usize, y: usize) -> (r: bool)
        requires
            self.wf(),
        ensures
            r == open_at(*self, x as int, y as int),
    {
        y < self.height && x < self.width && self.tiles[y][x] != Tile::Wall
    }

    /// One of the eight cells around `(x, y)` is in the grid and not a wall.
    fn is_border_wall(&self, x: usize, y: usize) -> (r: bool)
        requires
            self.wf(),
            x < self.width,
            y < self.height,
        ensures
            r == borders_open(*self, x as int, y as int),
    {
        let up = y > 0 && ((x > 0 && self.is_open(x - 1, y - 1)) || self.is_open(x, y - 1)
            || self.is_open(x + 1, y - 1));
        let level = (x > 0 && self.is_open(x - 1, y)) || self.is_open(x + 1, y);
        let down = (x > 0 && self.is_open(x - 1, y + 1)) || self.is_open(x, y + 1) || self.is_open(
            x + 1,
            y + 1,
        );
        up || level || down
    }

    /// `(x, y)` is a wall of the grid that is drawn.
    fn is_border_wall_at(&self, x: usize, y: usize) -> (r: bool)
        requires
            self.wf(),
        ensures
            r == border_wall(*self, x as int, y as int),
    {
        if x >= self.width || y >= self.height {
            return false;
        }
        if self.tiles[y][x] != Tile::Wall {
            return false;
        }
        self.is_border_wall(x, y)
    }

    fn wall_char(mask: usize) -> (r: char)
        requires
            mask < 16,
        ensures
            r == wall_glyph(mask as int),
    {
        match mask {
            0 => '#',
            1 => '│',
            2 => '│',
            3 => '│',
            4 => '─',
            5 => '┘',
            6 => '┐',
            7 => '┤',
            8 => '─',
            9 => '└',
            10 => '┌',
            11 => '├',
            12 => '─',
            13 => '┴',
            14 => '┬',
            _ => '┼',
        }
    }

    /// Box-drawing glyph for a wall, joined to the border walls above, below, left and right.
    fn compute_wall_char(&self, x: usize, y: usize) -> (r: char)
        requires
            self.wf(),
            x < self.width,
            y < self.height,
        ensures
            r == wall_glyph(wall_mask(*self, x as int, y as int)),
    {
        let mut mask: usize = 0;
        if y > 0 && self.is_border_wall_at(x, y - 1) {
            mask = mask + 1;
        }
        if self.is_border_wall_at(x, y + 1) {
            mask = mask + 2;
        }
        if x > 0 && self.is_border_wall_at(x - 1, y) {
            mask = mask + 4;
        }
        if self.is_border_wall_at(x + 1, y) {
            mask = mask + 8;
        }
        Self::wall_char(mask)
    }

    /// The glyph the cell shows, fog of war and wall joins included.
    pub fn get_tile_char(&self, x: usize, y: usize) -> (r: char)
        requires
            self.wf(),
        ensures
            r == display_glyph(*self, x as int, y as int),
    {
        if !self.is_revealed(x, y) {
            return ' ';
        }
        match self.get_tile(x, y) {
            Some(Tile::Wall) => {
                if self.is_border_wall(x, y) {
                    self.compute_wall_char(x, y)
                } else {
                    ' '
                }
            },
            Some(tile) => tile.to_char(),
            None => ' ',
        }
    }
}

} // verus!
