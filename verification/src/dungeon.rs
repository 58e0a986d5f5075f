//! Dungeon tiles, rooms and the tile map.

use rand::rngs::StdRng;
use vstd::prelude::*;

use crate::dice::draw;

verus! {

pub const MAP_WIDTH: usize = 81;
pub const MAP_HEIGHT: usize = 28;

/// What one cell of the map holds.
#[derive(Clone, Copy, PartialEq, Eq, Debug, Structural)]
pub enum Tile {
    Wall,
    Floor,
    Corridor,
    Stair,
    Potion,
    Chest,
    LichChest,
}

impl Tile {
    /// The byte that stands for this tile on the wire.
    pub open spec fn byte_of(self) -> u8 {
        match self {
            Tile::Wall => 0,
            Tile::Floor => 1,
            Tile::Corridor => 2,
            Tile::Stair => 3,
            Tile::Potion => 4,
            Tile::Chest => 5,
            Tile::LichChest => 6,
        }
    }

    /// The tile that a wire byte stands for; unknown bytes read as a wall.
    pub open spec fn from_byte(b: u8) -> Tile {
        if b == 1 {
            Tile::Floor
        } else if b == 2 {
            Tile::Corridor
        } else if b == 3 {
            Tile::Stair
        } else if b == 4 {
            Tile::Potion
        } else if b == 5 {
            Tile::Chest
        } else if b == 6 {
            Tile::LichChest
        } else {
            Tile::Wall
        }
    }

    /// Every tile but a wall can be walked on.
    pub open spec fn passable(self) -> bool {
        self != Tile::Wall
    }

    /// The wire byte of this tile.
    pub fn to_byte(&self) -> (b: u8)
        ensures
            b == self.byte_of(),
    {
        match self {
            Tile::Wall => 0,
            Tile::Floor => 1,
            Tile::Corridor => 2,
            Tile::Stair => 3,
            Tile::Potion => 4,
            Tile::Chest => 5,
            Tile::LichChest => 6,
        }
    }
}

impl From<u8> for Tile {
    fn from(b: u8) -> (t: Tile) {
        if b == 1 {
            Tile::Floor
        } else if b == 2 {
            Tile::Corridor
        } else if b == 3 {
            Tile::Stair
        } else if b == 4 {
            Tile::Potion
        } else if b == 5 {
            Tile::Chest
        } else if b == 6 {
            Tile::LichChest
        } else {
            Tile::Wall
        }
    }
}

impl vstd::std_specs::convert::FromSpecImpl<u8> for Tile {
    open spec fn obeys_from_spec() -> bool {
        true
    }

    open spec fn from_spec(b: u8) -> Tile {
        Tile::from_byte(b)
    }
}

/// Reading back the byte of a tile gives the tile again.
pub proof fn lemma_tile_byte_round_trip(t: Tile)
    ensures
        Tile::from_byte(t.byte_of()) == t,
{
}

/// A rectangular room: top-left corner `(x, y)`, width `w`, height `h`.
#[derive(Clone, Copy, PartialEq, Eq, Debug, Structural)]
pub struct Room {
    pub x: usize,
    pub y: usize,
    pub w: usize,
    pub h: usize,
}

impl Room {
    /// The cell at the middle of the room (rounded towards the top-left).
    pub open spec fn mid(self) -> (int, int) {
        (self.x + self.w / 2, self.y + self.h / 2)
    }

    /// Whether `(x, y)` lies inside the room.
    pub open spec fn contains(self, x: int, y: int) -> bool {
        self.x <= x < self.x + self.w && self.y <= y < self.y + self.h
    }

    /// Two rooms overlap when their rectangles, each grown by one cell to the
    /// right and below, intersect (sums saturate at `usize::MAX`).
    pub open spec fn overlap(self, other: Room) -> bool {
        &&& self.x < other.x.saturating_add(other.w).saturating_add(1)
        &&& self.x.saturating_add(self.w).saturating_add(1) > other.x
        &&& self.y < other.y.saturating_add(other.h).saturating_add(1)
        &&& self.y.saturating_add(self.h).saturating_add(1) > other.y
    }

    /// The room lies strictly inside the map, away from its outer border.
    pub open spec fn inside_map(self) -> bool {
        &&& 1 <= self.x
        &&& 1 <= self.y
        &&& 1 <= self.w
        &&& 1 <= self.h
        &&& self.x + self.w < MAP_WIDTH
        &&& self.y + self.h < MAP_HEIGHT
    }

    pub fn new(x: usize, y: usize, w: usize, h: usize) -> (r: Room)
        ensures
            r == (Room { x, y, w, h }),
    {
        Room { x, y, w, h }
    }

    /// The middle cell of the room.
    pub fn center(&self) -> (c: (usize, usize))
        requires
            self.x + self.w / 2 <= usize::MAX,
            self.y + self.h / 2 <= usize::MAX,
        ensures
            c.0 == self.mid().0,
            c.1 == self.mid().1,
    {
        (self.x + self.w / 2, self.y + self.h / 2)
    }

    /// Whether the two rooms overlap or touch.
    pub fn overlaps(&self, other: &Room) -> (b: bool)
        ensures
            b == self.overlap(*other),
    {
        self.x < other.x.saturating_add(other.w).saturating_add(1)
            && self.x.saturating_add(self.w).saturating_add(1) > other.x
            && self.y < other.y.saturating_add(other.h).saturating_add(1)
            && self.y.saturating_add(self.h).saturating_add(1) > other.y
    }
}

/// Overlap does not depend on the order of the two rooms.
pub proof fn lemma_overlap_symmetric(a: Room, b: Room)
    ensures
        a.overlap(b) == b.overlap(a),
{
}

/// Rooms that do not overlap share no cell.
pub proof fn lemma_apart_rooms_share_no_cell(a: Room, b: Room, x: int, y: int)
    requires
        !a.overlap(b),
        x < usize::MAX,
        y < usize::MAX,
    ensures
        !(a.contains(x, y) && b.contains(x, y)),
{
}

/// Whether `(x, y)` is a cell of the map.
pub open spec fn on_map(x: int, y: int) -> bool {
    0 <= x < MAP_WIDTH && 0 <= y < MAP_HEIGHT
}

/// A grid of tiles, indexed `[y][x]`.
pub type Grid = Seq<Seq<Tile>>;

/// The tile of a grid at `(x, y)`.
pub open spec fn cell(g: Grid, x: int, y: int) -> Tile {
    g[y][x]
}

/// The grid with `(x, y)` set to `t` when that cell is on the map.
pub open spec fn grid_set(g: Grid, x: int, y: int, t: Tile) -> Grid {
    if on_map(x, y) {
        g.update(y, g[y].update(x, t))
    } else {
        g
    }
}

/// A grid of the map's size.
pub open spec fn full_grid(g: Grid) -> bool {
    &&& g.len() == MAP_HEIGHT
    &&& forall|y: int| 0 <= y < MAP_HEIGHT ==> #[trigger] g[y].len() == MAP_WIDTH
}

/// The map's size, all walls.
pub open spec fn wall_grid() -> Grid {
    Seq::new(MAP_HEIGHT as nat, |y: int| Seq::new(MAP_WIDTH as nat, |x: int| Tile::Wall))
}

/// The tile map (`Map` in the game's own words) and the rooms that were carved into it.
pub struct DungeonMap {
    pub tiles: Vec<Vec<Tile>>,
    pub rooms: Vec<Room>,
}

impl DungeonMap {
    /// The tiles as a grid.
    pub open spec fn grid(&self) -> Grid {
        self.tiles@.map_values(|row: Vec<Tile>| row@)
    }

    /// The tile at `(x, y)`.
    pub open spec fn tile_at(&self, x: int, y: int) -> Tile {
        self.tiles@[y]@[x]
    }

    /// What `get` reads at `(x, y)`: the tile there, or a wall off the map.
    pub open spec fn read(&self, x: int, y: int) -> Tile {
        if on_map(x, y) { self.tile_at(x, y) } else { Tile::Wall }
    }

    /// Whether `(x, y)` is on the map and not a wall.
    pub open spec fn walkable_at(&self, x: int, y: int) -> bool {
        on_map(x, y) && self.tile_at(x, y).passable()
    }

    /// The map has 28 rows of 81 tiles and every room lies inside it.
    pub open spec fn wf(&self) -> bool {
        &&& self.tiles@.len() == MAP_HEIGHT
        &&& forall|y: int| 0 <= y < MAP_HEIGHT ==> #[trigger] self.tiles@[y]@.len() == MAP_WIDTH
        &&& forall|i: int| 0 <= i < self.rooms@.len() ==> #[trigger] self.rooms@[i].inside_map()
    }

    /// This map is `before` with `(x, y)` set to `t`: a cell off the map
    /// changes nothing.
    pub open spec fn is_set_of(&self, before: DungeonMap, x: int, y: int, t: Tile) -> bool {
        forall|i: int, j: int| on_map(i, j) ==> #[trigger] self.tile_at(i, j) == (
            if i == x && j == y { t } else { before.tile_at(i, j) })
    }

    /// The map holds the tiles of `g` at every cell.
    pub open spec fn holds(&self, g: Grid) -> bool {
        forall|x: int, y: int| on_map(x, y) ==> #[trigger] self.tile_at(x, y) == cell(g, x, y)
    }

    /// An empty map: all walls, no rooms.
    pub fn new() -> (m: DungeonMap)
        ensures
            m.wf(),
            m.rooms@.len() == 0,
            forall|x: int, y: int| on_map(x, y) ==> #[trigger] m.tile_at(x, y) == Tile::Wall,
    {
        let mut tiles: Vec<Vec<Tile>> = Vec::new();
        let mut y: usize = 0;
        while y < MAP_HEIGHT
            invariant
                y <= MAP_HEIGHT,
                tiles@.len() == y,
                forall|j: int| 0 <= j < y ==> #[trigger] tiles@[j]@.len() == MAP_WIDTH,
                forall|i: int, j: int| 0 <= j < y && 0 <= i < MAP_WIDTH ==> #[trigger] tiles@[j]@[i] == Tile::Wall,
            decreases MAP_HEIGHT - y,
        {
            let mut row: Vec<Tile> = Vec::new();
            let mut x: usize = 0;
            while x < MAP_WIDTH
                invariant
                    x <= MAP_WIDTH,
                    row@.len() == x,
                    forall|i: int| 0 <= i < x ==> #[trigger] row@[i] == Tile::Wall,
                decreases MAP_WIDTH - x,
            {
                row.push(Tile::Wall);
                x = x + 1;
            }
            tiles.push(row);
            y = y + 1;
        }
        DungeonMap { tiles, rooms: Vec::new() }
    }

    /// The tile at `(x, y)`, or a wall when the cell is off the map.
    pub fn get(&self, x: usize, y: usize) -> (t: Tile)
        requires
            self.wf(),
        ensures
            t == self.read(x as int, y as int),
    {
        if x >= MAP_WIDTH || y >= MAP_HEIGHT {
            return Tile::Wall;
        }
        self.tiles[y][x]
    }

    /// Puts `tile` at `(x, y)`; a cell off the map is left alone.
    pub fn set(&mut self, x: usize, y: usize, tile: Tile)
        requires
            old(self).wf(),
        ensures
            final(self).wf(),
            final(self).rooms@ == old(self).rooms@,
            final(self).is_set_of(*old(self), x as int, y as int, tile),
            final(self).grid() == grid_set(old(self).grid(), x as int, y as int, tile),
    {
        proof {
            lemma_grid_cells(self);
        }
        if x >= MAP_WIDTH || y >= MAP_HEIGHT {
            return;
        }
        self.tiles[y][x] = tile;
        proof {
            lemma_grid_cells(self);
            let g = grid_set(old(self).grid(), x as int, y as int, tile);
            assert(self.grid() =~~= g);
        }
    }

    /// Whether `(x, y)` is on the map and not a wall.
    pub fn is_walkable(&self, x: usize, y: usize) -> (b: bool)
        requires
            self.wf(),
        ensures
            b == self.walkable_at(x as int, y as int),
    {
        if x >= MAP_WIDTH || y >= MAP_HEIGHT {
            return false;
        }
        match self.tiles[y][x] {
            Tile::Floor | Tile::Corridor | Tile::Stair | Tile::Potion | Tile::Chest | Tile::LichChest => true,
            Tile::Wall => false,
        }
    }
}

/// The grid of a well-formed map is of the map's size and holds its tiles.
pub proof fn lemma_grid_cells(m: &DungeonMap)
    requires
        m.wf(),
    ensures
        full_grid(m.grid()),
        m.holds(m.grid()),
{
}

/// A well-formed map that holds the tiles of a grid of the map's size has
/// that grid.
pub proof fn lemma_grid_is(m: &DungeonMap, g: Grid)
    requires
        m.wf(),
        full_grid(g),
        m.holds(g),
    ensures
        m.grid() == g,
{
    assert forall|y: int| 0 <= y < MAP_HEIGHT implies #[trigger] m.grid()[y] == g[y] by {
        assert(m.grid()[y] =~= g[y]) by {
            assert forall|x: int| 0 <= x < MAP_WIDTH implies m.grid()[y][x] == g[y][x] by {
                assert(m.tile_at(x, y) == cell(g, x, y));
            }
        }
    }
    assert(m.grid() =~= g);
}

/// After `set`, `get` at the same cell reads the tile written, when the cell
/// is on the map; off the map it reads a wall.
pub proof fn lemma_get_after_set(m1: DungeonMap, m2: DungeonMap, x: int, y: int, t: Tile)
    requires
        m1.wf(),
        m2.wf(),
        m2.is_set_of(m1, x, y, t),
    ensures
        m2.read(x, y) == (if on_map(x, y) { t } else { Tile::Wall }),
        forall|i: int, j: int| !(i == x && j == y) ==> #[trigger] m2.read(i, j) == m1.read(i, j),
{
}

} // verus!

verus! {

/// The grid with room `r` floored.
pub open spec fn fill_room(g: Grid, r: Room) -> Grid {
    Seq::new(MAP_HEIGHT as nat, |y: int| Seq::new(MAP_WIDTH as nat, |x: int|
        if r.contains(x, y) { Tile::Floor } else { cell(g, x, y) }))
}

/// The grid with a horizontal corridor along row `y` between columns `x1` and
/// `x2`: walls there become corridor, anything else stays.
pub open spec fn carve_row(g: Grid, x1: int, x2: int, y: int) -> Grid {
    Seq::new(MAP_HEIGHT as nat, |j: int| Seq::new(MAP_WIDTH as nat, |i: int|
        if j == y && (x1 <= i <= x2 || x2 <= i <= x1) && cell(g, i, j) == Tile::Wall {
            Tile::Corridor
        } else {
            cell(g, i, j)
        }))
}

/// The grid with a vertical corridor along column `x` between rows `y1` and
/// `y2`: walls there become corridor, anything else stays.
pub open spec fn carve_column(g: Grid, y1: int, y2: int, x: int) -> Grid {
    Seq::new(MAP_HEIGHT as nat, |j: int| Seq::new(MAP_WIDTH as nat, |i: int|
        if i == x && (y1 <= j <= y2 || y2 <= j <= y1) && cell(g, i, j) == Tile::Wall {
            Tile::Corridor
        } else {
            cell(g, i, j)
        }))
}

/// The tiles that a sequence of rooms lays out on a map of walls: each room
/// is floored in turn and joined to the room before it by an L-shaped
/// corridor, first along the previous room's middle row to the new room's
/// middle column, then along that column to the new room's middle row.
pub open spec fn lay_out(rooms: Seq<Room>) -> Grid
    decreases rooms.len(),
{
    if rooms.len() == 0 {
        wall_grid()
    } else {
        let r = rooms.last();
        let filled = fill_room(lay_out(rooms.drop_last()), r);
        if rooms.len() == 1 {
            filled
        } else {
            let p = rooms[rooms.len() - 2].mid();
            let c = r.mid();
            carve_column(carve_row(filled, p.0, c.0, p.1), p.1, c.1, c.0)
        }
    }
}

/// A room of the size that generation draws: 4 to 10 wide, 4 to 8 tall,
/// starting at column and row 1 or later and ending at least two cells before
/// the map's right and bottom edges.
pub open spec fn drawn_room(r: Room) -> bool {
    &&& 4 <= r.w <= 10
    &&& 4 <= r.h <= 8
    &&& r.inside_map()
    &&& r.x + r.w <= MAP_WIDTH - 2
    &&& r.y + r.h <= MAP_HEIGHT - 2
}

/// No room overlaps an earlier one.
pub open spec fn rooms_apart(rooms: Seq<Room>) -> bool {
    forall|i: int, j: int| 0 <= i < j < rooms.len() ==> !(#[trigger] rooms[i]).overlap(#[trigger] rooms[j])
}

impl DungeonMap {
    /// What a generated map looks like: between one and ten rooms of drawn
    /// size, none overlapping an earlier one, and tiles that are exactly the
    /// layout of those rooms.
    pub open spec fn generated(&self) -> bool {
        &&& self.wf()
        &&& 1 <= self.rooms@.len() <= 10
        &&& forall|i: int| 0 <= i < self.rooms@.len() ==> drawn_room(#[trigger] self.rooms@[i])
        &&& rooms_apart(self.rooms@)
        &&& self.holds(lay_out(self.rooms@))
    }
}

/// Floors every cell of `room`.
fn floor_room(map: &mut DungeonMap, room: Room)
    requires
        old(map).wf(),
        room.inside_map(),
    ensures
        final(map).wf(),
        final(map).rooms@ == old(map).rooms@,
        forall|x: int, y: int| on_map(x, y) ==> #[trigger] final(map).tile_at(x, y) == (
            if room.contains(x, y) { Tile::Floor } else { old(map).tile_at(x, y) }),
{
    let ghost before = *map;
    let mut ry = room.y;
    while ry < room.y + room.h
        invariant
            map.wf(),
            map.rooms@ == before.rooms@,
            room.inside_map(),
            room.y <= ry <= room.y + room.h,
            forall|x: int, y: int| on_map(x, y) ==> #[trigger] map.tile_at(x, y) == (
                if room.contains(x, y) && y < ry { Tile::Floor } else { before.tile_at(x, y) }),
        decreases room.y + room.h - ry,
    {
        let mut rx = room.x;
        while rx < room.x + room.w
            invariant
                map.wf(),
                map.rooms@ == before.rooms@,
                room.inside_map(),
                room.y <= ry < room.y + room.h,
                room.x <= rx <= room.x + room.w,
                forall|x: int, y: int| on_map(x, y) ==> #[trigger] map.tile_at(x, y) == (
                    if room.contains(x, y) && (y < ry || (y == ry && x < rx)) { Tile::Floor }
                    else { before.tile_at(x, y) }),
            decreases room.x + room.w - rx,
        {
            map.set(rx, ry, Tile::Floor);
            rx = rx + 1;
        }
        ry = ry + 1;
    }
}

fn carve_h_corridor(map: &mut DungeonMap, x1: usize, x2: usize, y: usize)
    requires
        old(map).wf(),
        x1 < MAP_WIDTH,
        x2 < MAP_WIDTH,
    ensures
        final(map).wf(),
        final(map).rooms@ == old(map).rooms@,
        forall|i: int, j: int| on_map(i, j) ==> #[trigger] final(map).tile_at(i, j) == (
            if j == y && (x1 <= i <= x2 || x2 <= i <= x1) && old(map).tile_at(i, j) == Tile::Wall {
                Tile::Corridor
            } else {
                old(map).tile_at(i, j)
            }),
{
    let ghost before = *map;
    let (start, end) = if x1 < x2 { (x1, x2) } else { (x2, x1) };
    let mut x = start;
    while x <= end
        invariant
            map.wf(),
            map.rooms@ == before.rooms@,
            start <= x <= end + 1,
            end < MAP_WIDTH,
            start == x1 || start == x2,
            end == x1 || end == x2,
            start <= end,
            forall|i: int, j: int| on_map(i, j) ==> #[trigger] map.tile_at(i, j) == (
                if j == y && start <= i < x && before.tile_at(i, j) == Tile::Wall {
                    Tile::Corridor
                } else {
                    before.tile_at(i, j)
                }),
        decreases end + 1 - x,
    {
        if map.get(x, y) == Tile::Wall {
            map.set(x, y, Tile::Corridor);
        }
        x = x + 1;
    }
}

fn carve_v_corridor(map: &mut DungeonMap, y1: usize, y2: usize, x: usize)
    requires
        old(map).wf(),
        y1 < MAP_HEIGHT,
        y2 < MAP_HEIGHT,
    ensures
        final(map).wf(),
        final(map).rooms@ == old(map).rooms@,
        forall|i: int, j: int| on_map(i, j) ==> #[trigger] final(map).tile_at(i, j) == (
            if i == x && (y1 <= j <= y2 || y2 <= j <= y1) && old(map).tile_at(i, j) == Tile::Wall {
                Tile::Corridor
            } else {
                old(map).tile_at(i, j)
            }),
{
    let ghost before = *map;
    let (start, end) = if y1 < y2 { (y1, y2) } else { (y2, y1) };
    let mut y = start;
    while y <= end
        invariant
            map.wf(),
            map.rooms@ == before.rooms@,
            start <= y <= end + 1,
            end < MAP_HEIGHT,
            start == y1 || start == y2,
            end == y1 || end == y2,
            start <= end,
            forall|i: int, j: int| on_map(i, j) ==> #[trigger] map.tile_at(i, j) == (
                if i == x && start <= j < y && before.tile_at(i, j) == Tile::Wall {
                    Tile::Corridor
                } else {
                    before.tile_at(i, j)
                }),
        decreases end + 1 - y,
    {
        if map.get(x, y) == Tile::Wall {
            map.set(x, y, Tile::Corridor);
        }
        y = y + 1;
    }
}

/// A laid-out dungeon has the map's size.
pub proof fn lemma_layout_full(rooms: Seq<Room>)
    ensures
        full_grid(lay_out(rooms)),
    decreases rooms.len(),
{
    if rooms.len() > 0 {
        lemma_layout_full(rooms.drop_last());
    }
}

/// A laid-out dungeon holds only walls, floor and corridor.
pub proof fn lemma_layout_tiles(rooms: Seq<Room>, x: int, y: int)
    requires
        on_map(x, y),
    ensures
        cell(lay_out(rooms), x, y) == Tile::Wall || cell(lay_out(rooms), x, y) == Tile::Floor
            || cell(lay_out(rooms), x, y) == Tile::Corridor,
    decreases rooms.len(),
{
    if rooms.len() > 0 {
        lemma_layout_tiles(rooms.drop_last(), x, y);
    }
}

/// Every cell of every room is floor in the layout: corridors only ever
/// replace walls.
pub proof fn lemma_layout_rooms_floored(rooms: Seq<Room>, k: int, x: int, y: int)
    requires
        0 <= k < rooms.len(),
        rooms[k].contains(x, y),
        on_map(x, y),
    ensures
        cell(lay_out(rooms), x, y) == Tile::Floor,
    decreases rooms.len(),
{
    if k < rooms.len() - 1 {
        assert(rooms.drop_last()[k] == rooms[k]);
        lemma_layout_rooms_floored(rooms.drop_last(), k, x, y);
    }
}

/// Whether any room of `rooms` overlaps `room`.
fn overlaps_any(rooms: &Vec<Room>, room: &Room) -> (b: bool)
    ensures
        b == exists|i: int| 0 <= i < rooms@.len() && (#[trigger] rooms@[i]).overlap(*room),
{
    let mut i: usize = 0;
    while i < rooms.len()
        invariant
            i <= rooms@.len(),
            forall|k: int| 0 <= k < i ==> !(#[trigger] rooms@[k]).overlap(*room),
        decreases rooms@.len() - i,
    {
        if rooms[i].overlaps(room) {
            return true;
        }
        i = i + 1;
    }
    false
}

proof fn lemma_mid_inside(r: Room)
    requires
        drawn_room(r),
    ensures
        r.contains(r.mid().0, r.mid().1),
        on_map(r.mid().0, r.mid().1),
{
}

/// One attempt at a dungeon: draws a room count of 6 to 10 and then makes up
/// to 50 attempts at a room, keeping each that overlaps no earlier room. The
/// second result counts the attempts made: the map falls short of six rooms
/// only when all 50 were used.
fn try_generate(rng: &mut StdRng) -> (r: (DungeonMap, Ghost<nat>))
    ensures
        r.0.generated(),
        r.1@ <= 50,
        r.0.rooms@.len() >= 6 || r.1@ == 50,
{
    let mut map = DungeonMap::new();
    let num_rooms = draw(rng, 6, 11);
    proof {
        assert(map.holds(lay_out(map.rooms@)));
    }
    let mut attempt: usize = 0;
    while attempt < 50
        invariant
            map.wf(),
            6 <= num_rooms <= 10,
            map.rooms@.len() <= num_rooms,
            attempt == 0 ==> map.rooms@.len() == 0,
            attempt > 0 ==> map.rooms@.len() >= 1,
            map.rooms@.len() <= attempt,
            attempt <= 50,
            forall|i: int| 0 <= i < map.rooms@.len() ==> drawn_room(#[trigger] map.rooms@[i]),
            rooms_apart(map.rooms@),
            map.holds(lay_out(map.rooms@)),
        ensures
            map.rooms@.len() >= 1,
            attempt <= 50,
            map.rooms@.len() >= num_rooms || attempt == 50,
        decreases 50 - attempt,
    {
        if map.rooms.len() >= num_rooms {
            break;
        }
        let w = draw(rng, 4, 11);
        let h = draw(rng, 4, 9);
        let x = draw(rng, 1, MAP_WIDTH - w - 1);
        let y = draw(rng, 1, MAP_HEIGHT - h - 1);
        let room = Room::new(x, y, w, h);

        if overlaps_any(&map.rooms, &room) {
            attempt = attempt + 1;
            continue;
        }
        let ghost old_rooms = map.rooms@;
        let ghost laid = lay_out(old_rooms);
        let ghost filled = fill_room(laid, room);
        floor_room(&mut map, room);
        proof {
            assert forall|i: int, j: int| on_map(i, j) implies #[trigger] map.tile_at(i, j) == cell(filled, i, j) by {
                assert(cell(filled, i, j) == (if room.contains(i, j) { Tile::Floor } else { cell(laid, i, j) }));
            }
        }
        let ghost floored = map;
        let n = map.rooms.len();
        if n > 0 {
            let prev = map.rooms[n - 1];
            proof {
                lemma_mid_inside(prev);
                lemma_mid_inside(room);
            }
            let (px, py) = prev.center();
            let (cx, cy) = room.center();
            carve_h_corridor(&mut map, px, cx, py);
            let ghost rowed = map;
            carve_v_corridor(&mut map, py, cy, cx);
            proof {
                let row = carve_row(filled, px as int, cx as int, py as int);
                assert forall|i: int, j: int| on_map(i, j) implies #[trigger] rowed.tile_at(i, j) == cell(row, i, j) by {
                    assert(floored.tile_at(i, j) == cell(filled, i, j));
                }
                let col = carve_column(row, py as int, cy as int, cx as int);
                assert forall|i: int, j: int| on_map(i, j) implies #[trigger] map.tile_at(i, j) == cell(col, i, j) by {
                    assert(rowed.tile_at(i, j) == cell(row, i, j));
                }
            }
        }
        let ghost carved = map;
        map.rooms.push(room);
        proof {
            let rooms = map.rooms@;
            assert(map.tiles@ == carved.tiles@);
            assert forall|i: int, j: int| on_map(i, j) implies #[trigger] map.tile_at(i, j) == carved.tile_at(i, j) by {}
            assert(rooms.drop_last() =~= old_rooms);
            assert(rooms.last() == room);
            if n == 0 {
                assert(map.holds(filled));
            } else {
                assert(rooms[rooms.len() - 2] == old_rooms[n - 1]);
                let p = old_rooms[n - 1].mid();
                let c = room.mid();
                let row = carve_row(filled, p.0, c.0, p.1);
                assert(map.holds(carve_column(row, p.1, c.1, c.0)));
            }
            assert(map.holds(lay_out(rooms)));
            assert forall|i: int, j: int| 0 <= i < j < rooms.len() implies !(#[trigger] rooms[i]).overlap(#[trigger] rooms[j]) by {
                if j == rooms.len() - 1 {
                    assert(rooms[i] == old_rooms[i]);
                } else {
                    assert(rooms[i] == old_rooms[i]);
                    assert(rooms[j] == old_rooms[j]);
                }
            }
            assert forall|i: int| 0 <= i < rooms.len() implies drawn_room(#[trigger] rooms[i]) by {
                if i < n {
                    assert(rooms[i] == old_rooms[i]);
                }
            }
        }
        attempt = attempt + 1;
    }
    (map, Ghost(attempt as nat))
}

/// Generates a dungeon: up to ten attempts are made at a map of four rooms or
/// more, and the first such map is kept; if all ten fall short, one more
/// attempt is kept whatever it holds.
pub fn generate(rng: &mut StdRng) -> (map: DungeonMap)
    ensures
        map.generated(),
{
    let mut i: usize = 0;
    while i < 10
        invariant
            i <= 10,
        decreases 10 - i,
    {
        let (map, _) = try_generate(rng);
        if map.rooms.len() >= 4 {
            return map;
        }
        i = i + 1;
    }
    try_generate(rng).0
}

} // verus!
