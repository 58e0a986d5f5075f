//! Stocking a fresh dungeon level: monsters, potions and chests.

use rand::rngs::StdRng;
use vstd::prelude::*;

use crate::combat::trunc_div;
use crate::dice::draw;
use crate::dungeon::{
    cell, full_grid, grid_set, lay_out, lemma_grid_cells, lemma_grid_is, lemma_layout_full, lemma_layout_rooms_floored,
    on_map, rooms_apart, DungeonMap, Grid, Room, Tile, MAP_HEIGHT, MAP_WIDTH,
};
use crate::entity::{Monster, MonsterKind};

verus! {

/// Whether `(x, y)` is on the map and not a wall.
pub open spec fn walkable(g: Grid, x: int, y: int) -> bool {
    on_map(x, y) && cell(g, x, y).passable()
}

/// No monster of `ms`, living or dead, stands at `(x, y)`.
pub open spec fn unoccupied(ms: Seq<Monster>, x: int, y: int) -> bool {
    forall|i: int| 0 <= i < ms.len() ==> !((#[trigger] ms[i]).x == x && ms[i].y == y)
}

/// A walkable cell that no monster of `ms` stands on.
pub open spec fn open_cell(g: Grid, ms: Seq<Monster>, x: int, y: int) -> bool {
    walkable(g, x, y) && unoccupied(ms, x, y)
}

/// `(x, y)` is the first open cell in reading order: rows top to bottom, each
/// row left to right.
pub open spec fn first_open_cell(g: Grid, ms: Seq<Monster>, x: int, y: int) -> bool {
    &&& open_cell(g, ms, x, y)
    &&& forall|i: int, j: int| (j < y || (j == y && i < x)) ==> !#[trigger] open_cell(g, ms, i, j)
}

/// Multiplayer monsters have half again their hit points, rounded up.
pub open spec fn scaled_hp(hp: int) -> int {
    trunc_div(hp * 3 + 1, 2)
}

/// A freshly spawned monster of `kind` at `(x, y)`, scaled in multiplayer.
pub open spec fn fresh_monster(kind: MonsterKind, x: int, y: int, multiplayer: bool) -> Monster {
    let hp = if multiplayer { scaled_hp(kind.hp_at_spawn() as int) } else { kind.hp_at_spawn() as int };
    Monster { x: x as usize, y: y as usize, kind, hp: hp as i32, max_hp: hp as i32, alive: true, teleported: false }
}

/// The three monsters that every level holds, in spawning order.
pub open spec fn regular_kind(i: int) -> MonsterKind {
    if i == 0 {
        MonsterKind::Goblin
    } else if i == 1 {
        MonsterKind::Mage
    } else {
        MonsterKind::Rat
    }
}

/// The room that the `i`-th regular monster is meant for: the rooms after the
/// first in turn, or the only room.
pub open spec fn room_for(i: int, n: int) -> int {
    if n > 1 { (i % (n - 1)) + 1 } else { 0 }
}

/// The chance, in percent, that a Lich guards a level.
pub open spec fn lich_chance(level: int) -> int {
    if level == 9 { 30 } else if level == 10 { 90 } else { 0 }
}

/// The monsters of a fresh level on the tiles `g` of the rooms `rooms`:
/// a Goblin, a Mage and a Rat, each on a free cell of the room meant for it or,
/// failing that, on the first open cell (with four rooms or more each always
/// gets a cell of its own room, the second, third and fourth); then, only on levels 9 and 10, maybe
/// a Lich on a free walkable cell of the last room or on the first open cell.
pub open spec fn monsters_spawned(g: Grid, rooms: Seq<Room>, multiplayer: bool, level: int, ms: Seq<Monster>) -> bool {
    &&& ms.len() == 3 || (ms.len() == 4 && lich_chance(level) > 0)
    &&& forall|i: int| 0 <= i < 3 ==> #[trigger] regular_placed(g, rooms, multiplayer, ms, i)
    &&& ms.len() == 4 ==> lich_placed(g, rooms, multiplayer, ms)
}

pub open spec fn regular_placed(g: Grid, rooms: Seq<Room>, multiplayer: bool, ms: Seq<Monster>, i: int) -> bool {
    let m = ms[i];
    let earlier = ms.take(i);
    &&& m == fresh_monster(regular_kind(i), m.x as int, m.y as int, multiplayer)
    &&& ((rooms[room_for(i, rooms.len() as int)].contains(m.x as int, m.y as int) && unoccupied(earlier, m.x as int, m.y as int))
        || first_open_cell(g, earlier, m.x as int, m.y as int))
    &&& rooms.len() >= 4 ==> rooms[room_for(i, rooms.len() as int)].contains(m.x as int, m.y as int)
}

pub open spec fn lich_placed(g: Grid, rooms: Seq<Room>, multiplayer: bool, ms: Seq<Monster>) -> bool {
    let m = ms[3];
    let earlier = ms.take(3);
    &&& m == fresh_monster(MonsterKind::Lich, m.x as int, m.y as int, multiplayer)
    &&& ((rooms.last().contains(m.x as int, m.y as int) && open_cell(g, earlier, m.x as int, m.y as int))
        || first_open_cell(g, earlier, m.x as int, m.y as int))
}

/// A cell away from the map's border.
pub open spec fn interior(x: int, y: int) -> bool {
    1 <= x < MAP_WIDTH - 1 && 1 <= y < MAP_HEIGHT - 1
}

/// The grid with every cell of `cells` set to `t`, in order.
pub open spec fn placed_all(g: Grid, cells: Seq<(int, int)>, t: Tile) -> Grid
    decreases cells.len(),
{
    if cells.len() == 0 {
        g
    } else {
        let c = cells.last();
        grid_set(placed_all(g, cells.drop_last(), t), c.0, c.1, t)
    }
}

/// No cell of `ps` is `(x, y)`.
pub open spec fn off_cells(ps: Seq<(usize, usize)>, x: int, y: int) -> bool {
    forall|k: int| 0 <= k < ps.len() ==> !((#[trigger] ps[k]).0 == x && ps[k].1 == y)
}

/// A cell a potion may be put on: away from the border, walkable, free of
/// monsters and not one of the players' cells `ps`.
pub open spec fn potion_spot(g: Grid, ms: Seq<Monster>, ps: Seq<(usize, usize)>, x: int, y: int) -> bool {
    interior(x, y) && open_cell(g, ms, x, y) && off_cells(ps, x, y)
}

/// A cell a chest may be put on: away from the border, plain floor or
/// corridor, and free of monsters.
pub open spec fn chest_spot(g: Grid, ms: Seq<Monster>, x: int, y: int) -> bool {
    &&& interior(x, y)
    &&& (cell(g, x, y) == Tile::Floor || cell(g, x, y) == Tile::Corridor)
    &&& unoccupied(ms, x, y)
}

/// `after` is `before` with at most two potions put on potion spots.
pub open spec fn potions_placed(before: Grid, ms: Seq<Monster>, ps: Seq<(usize, usize)>, after: Grid) -> bool {
    exists|cells: Seq<(int, int)>| #[trigger] potions_at(before, ms, ps, cells, after)
}

pub open spec fn potions_at(before: Grid, ms: Seq<Monster>, ps: Seq<(usize, usize)>, cells: Seq<(int, int)>, after: Grid) -> bool {
    &&& cells.len() <= 2
    &&& forall|k: int| 0 <= k < cells.len() ==> potion_spot(before, ms, ps, (#[trigger] cells[k]).0, cells[k].1)
    &&& after == placed_all(before, cells, Tile::Potion)
}

/// `after` is `before` with at most two chests put on distinct chest spots.
pub open spec fn chests_placed(before: Grid, ms: Seq<Monster>, after: Grid) -> bool {
    exists|cells: Seq<(int, int)>| #[trigger] chests_at(before, ms, cells, after)
}

pub open spec fn chests_at(before: Grid, ms: Seq<Monster>, cells: Seq<(int, int)>, after: Grid) -> bool {
    &&& cells.len() <= 2
    &&& forall|k: int| 0 <= k < cells.len() ==> chest_spot(before, ms, (#[trigger] cells[k]).0, cells[k].1)
    &&& forall|k: int, l: int| 0 <= k < l < cells.len() ==> #[trigger] cells[k] != #[trigger] cells[l]
    &&& after == placed_all(before, cells, Tile::Chest)
}

/// Raises a freshly spawned monster's hit points by half, rounding up.
fn scale_for_multiplayer(monster: &mut Monster)
    requires
        -700_000_000 <= old(monster).hp <= 700_000_000,
    ensures
        *final(monster) == (Monster {
            hp: scaled_hp(old(monster).hp as int) as i32,
            max_hp: scaled_hp(old(monster).hp as int) as i32,
            ..*old(monster)
        }),
{
    monster.hp = (monster.hp * 3 + 1) / 2;
    monster.max_hp = monster.hp;
}

fn fresh(x: usize, y: usize, kind: MonsterKind, multiplayer: bool) -> (m: Monster)
    ensures
        m == fresh_monster(kind, x as int, y as int, multiplayer),
{
    let mut m = Monster::new(x, y, kind);
    if multiplayer {
        scale_for_multiplayer(&mut m);
    }
    m
}

/// Whether `(x, y)` is one of the cells `ps`.
fn on_cells(ps: &Vec<(usize, usize)>, x: usize, y: usize) -> (b: bool)
    ensures
        b == !off_cells(ps@, x as int, y as int),
{
    let mut i: usize = 0;
    while i < ps.len()
        invariant
            i <= ps@.len(),
            forall|k: int| 0 <= k < i ==> !((#[trigger] ps@[k]).0 == x && ps@[k].1 == y),
        decreases ps@.len() - i,
    {
        if ps[i].0 == x && ps[i].1 == y {
            assert(ps@[i as int].0 == x && ps@[i as int].1 == y);
            return true;
        }
        i = i + 1;
    }
    false
}

/// Whether a monster of `ms`, living or dead, stands at `(x, y)`.
fn occupied(ms: &Vec<Monster>, x: usize, y: usize) -> (b: bool)
    ensures
        b == !unoccupied(ms@, x as int, y as int),
{
    let mut i: usize = 0;
    while i < ms.len()
        invariant
            i <= ms@.len(),
            forall|k: int| 0 <= k < i ==> !((#[trigger] ms@[k]).x == x && ms@[k].y == y),
        decreases ms@.len() - i,
    {
        if ms[i].x == x && ms[i].y == y {
            assert(ms@[i as int].x == x && ms@[i as int].y == y);
            return true;
        }
        i = i + 1;
    }
    false
}

/// The first open cell in reading order, if any.
fn first_open(map: &DungeonMap, ms: &Vec<Monster>) -> (c: Option<(usize, usize)>)
    requires
        map.wf(),
    ensures
        c matches Some(p) ==> first_open_cell(map.grid(), ms@, p.0 as int, p.1 as int),
        c is None ==> forall|x: int, y: int| !#[trigger] open_cell(map.grid(), ms@, x, y),
{
    proof {
        lemma_grid_cells(map);
    }
    let ghost g = map.grid();
    let mut y: usize = 0;
    while y < MAP_HEIGHT
        invariant
            map.wf(),
            g == map.grid(),
            map.holds(g),
            y <= MAP_HEIGHT,
            forall|i: int, j: int| j < y ==> !#[trigger] open_cell(g, ms@, i, j),
        decreases MAP_HEIGHT - y,
    {
        let mut x: usize = 0;
        while x < MAP_WIDTH
            invariant
                map.wf(),
                g == map.grid(),
                map.holds(g),
                y < MAP_HEIGHT,
                x <= MAP_WIDTH,
                forall|i: int, j: int| (j < y || (j == y && i < x)) ==> !#[trigger] open_cell(g, ms@, i, j),
            decreases MAP_WIDTH - x,
        {
            if map.is_walkable(x, y) && !occupied(ms, x, y) {
                return Some((x, y));
            }
            proof {
                assert(map.tile_at(x as int, y as int) == cell(g, x as int, y as int));
            }
            x = x + 1;
        }
        y = y + 1;
    }
    None
}

/// With at most three monsters about, the first room of a generated map
/// always has an open cell: its top row is floor and at least four wide.
proof fn lemma_open_cell_exists(map: &DungeonMap, ms: Seq<Monster>)
    requires
        map.generated(),
        ms.len() <= 3,
    ensures
        exists|x: int, y: int| #[trigger] open_cell(map.grid(), ms, x, y),
{
    let rooms = map.rooms@;
    let r = rooms[0];
    lemma_layout_full(rooms);
    lemma_grid_is(map, lay_out(rooms));
    let g = map.grid();
    let (x0, y0) = (r.x as int, r.y as int);
    lemma_layout_rooms_floored(rooms, 0, x0, y0);
    lemma_layout_rooms_floored(rooms, 0, x0 + 1, y0);
    lemma_layout_rooms_floored(rooms, 0, x0 + 2, y0);
    lemma_layout_rooms_floored(rooms, 0, x0 + 3, y0);
    if open_cell(g, ms, x0, y0) {
    } else if open_cell(g, ms, x0 + 1, y0) {
    } else if open_cell(g, ms, x0 + 2, y0) {
    } else {
        assert(walkable(g, x0 + 3, y0));
        let i0 = choose|i: int| 0 <= i < ms.len() && (#[trigger] ms[i]).x == x0 && ms[i].y == y0;
        let i1 = choose|i: int| 0 <= i < ms.len() && (#[trigger] ms[i]).x == x0 + 1 && ms[i].y == y0;
        let i2 = choose|i: int| 0 <= i < ms.len() && (#[trigger] ms[i]).x == x0 + 2 && ms[i].y == y0;
        assert(ms[i0].x == x0 && ms[i1].x == x0 + 1 && ms[i2].x == x0 + 2);
        assert(open_cell(g, ms, x0 + 3, y0));
    }
}

/// A cell of the grid after putting `t` on `cells`: `t` where a cell of
/// `cells` lies, else what was there.
pub proof fn lemma_placed_cell(g: Grid, cells: Seq<(int, int)>, t: Tile, x: int, y: int)
    requires
        full_grid(g),
        on_map(x, y),
    ensures
        full_grid(placed_all(g, cells, t)),
        cell(placed_all(g, cells, t), x, y) == (if cells.contains((x, y)) { t } else { cell(g, x, y) }),
    decreases cells.len(),
{
    if cells.len() > 0 {
        let rest = cells.drop_last();
        lemma_placed_cell(g, rest, t, x, y);
        let c = cells.last();
        if cells.contains((x, y)) {
            if c != (x, y) {
                let k = choose|k: int| 0 <= k < cells.len() && cells[k] == (x, y);
                assert(rest[k] == (x, y));
            }
        } else {
            assert forall|k: int| 0 <= k < rest.len() implies rest[k] != (x, y) by {
                assert(rest[k] == cells[k]);
            }
        }
        let p = placed_all(g, rest, t);
        assert forall|j: int| 0 <= j < MAP_HEIGHT implies #[trigger] placed_all(g, cells, t)[j].len() == MAP_WIDTH by {
            lemma_placed_cell(g, rest, t, 0, j);
        }
    }
}

/// Spawns the monsters of a fresh level on a generated map (see
/// `monsters_spawned`).
pub fn spawn_monsters(map: &DungeonMap, rng: &mut StdRng, multiplayer: bool, level: u8) -> (ms: Vec<Monster>)
    requires
        map.generated(),
    ensures
        monsters_spawned(map.grid(), map.rooms@, multiplayer, level as int, ms@),
{
    let ghost g = map.grid();
    let ghost rooms = map.rooms@;
    let n = map.rooms.len();
    let mut monsters: Vec<Monster> = Vec::new();
    let mut i: usize = 0;
    while i < 3
        invariant
            map.generated(),
            g == map.grid(),
            rooms == map.rooms@,
            n == rooms.len(),
            i <= 3,
            monsters@.len() == i,
            forall|k: int| 0 <= k < i ==> #[trigger] regular_placed(g, rooms, multiplayer, monsters@, k),
        decreases 3 - i,
    {
        proof {
            if n >= 4 {
                vstd::arithmetic::div_mod::lemma_small_mod(i as nat, (n - 1) as nat);
            }
        }
        let kind = if i == 0 {
            MonsterKind::Goblin
        } else if i == 1 {
            MonsterKind::Mage
        } else {
            MonsterKind::Rat
        };
        let room_idx = if n > 1 { (i % (n - 1)) + 1 } else { 0 };
        let room = map.rooms[room_idx];
        proof {
            assert(room.inside_map());
        }
        let ghost before = monsters@;
        proof {
            if n >= 4 {
                assert forall|k: int| 0 <= k < i implies rooms[k + 1].contains(#[trigger] before[k].x as int, before[k].y as int) by {
                    vstd::arithmetic::div_mod::lemma_small_mod(k as nat, (n - 1) as nat);
                    assert(regular_placed(g, rooms, multiplayer, before, k));
                }
            }
        }
        let mut placed = false;
        let mut attempt: usize = 0;
        while attempt < 20 && !placed
            invariant
                room.inside_map(),
                room == rooms[room_idx as int],
                attempt <= 20,
                !placed ==> monsters@ == before,
                placed ==> monsters@.len() == before.len() + 1 && monsters@.drop_last() == before
                    && regular_placed(g, rooms, multiplayer, monsters@, i as int),
                before.len() == i,
                i < 3,
                n == rooms.len(),
                room_idx == room_for(i as int, n as int),
                kind == regular_kind(i as int),
                rooms_apart(rooms),
                n >= 4 ==> room_idx == i + 1,
                n >= 4 ==> forall|k: int| 0 <= k < i ==> rooms[k + 1].contains(#[trigger] before[k].x as int, before[k].y as int),
                n >= 4 ==> attempt == 0 || placed,
            decreases 20 - attempt,
        {
            let mx = draw(rng, room.x, room.x + room.w);
            let my = draw(rng, room.y, room.y + room.h);
            proof {
                if n >= 4 && attempt == 0 {
                    assert forall|k: int| 0 <= k < monsters@.len() implies !((#[trigger] monsters@[k]).x == mx && monsters@[k].y == my) by {
                        assert(monsters@[k] == before[k]);
                        assert(!rooms[k + 1].overlap(rooms[i + 1]));
                        crate::dungeon::lemma_apart_rooms_share_no_cell(rooms[k + 1], rooms[i + 1], mx as int, my as int);
                    }
                }
            }
            if !occupied(&monsters, mx, my) {
                monsters.push(fresh(mx, my, kind, multiplayer));
                placed = true;
                proof {
                    assert(monsters@.drop_last() =~= before);
                    assert(monsters@.take(i as int) =~= before);
                }
            }
            attempt = attempt + 1;
        }
        if !placed {
            match first_open(map, &monsters) {
                Some((x, y)) => {
                    monsters.push(fresh(x, y, kind, multiplayer));
                    proof {
                        assert(monsters@.drop_last() =~= before);
                        assert(monsters@.take(i as int) =~= before);
                    }
                },
                None => {
                    proof {
                        lemma_open_cell_exists(map, monsters@);
                    }
                },
            }
        }
        proof {
            assert forall|k: int| 0 <= k < i + 1 implies #[trigger] regular_placed(g, rooms, multiplayer, monsters@, k) by {
                if k < i {
                    assert(monsters@.take(k) =~= before.take(k));
                    assert(monsters@[k] == before[k]);
                    assert(regular_placed(g, rooms, multiplayer, before, k));
                }
            }
        }
        i = i + 1;
    }
    let chance: usize = if level == 9 { 30 } else if level == 10 { 90 } else { 0 };
    if chance > 0 && draw(rng, 0, 100) < chance {
        match place_lich(map, rng, &monsters) {
            Some(lich) => {
                let mut lich = lich;
                if multiplayer {
                    scale_for_multiplayer(&mut lich);
                }
                let ghost before = monsters@;
                monsters.push(lich);
                proof {
                    assert(monsters@.take(3) =~= before);
                    assert forall|k: int| 0 <= k < 3 implies #[trigger] regular_placed(g, rooms, multiplayer, monsters@, k) by {
                        assert(monsters@.take(k) =~= before.take(k));
                        assert(monsters@[k] == before[k]);
                        assert(regular_placed(g, rooms, multiplayer, before, k));
                    }
                }
            },
            None => {},
        }
    }
    monsters
}

/// Places a Lich: up to 30 random tries at a free walkable cell of the last
/// room, then the first open cell; `None` only when no cell is open.
fn place_lich(map: &DungeonMap, rng: &mut StdRng, monsters: &Vec<Monster>) -> (lich: Option<Monster>)
    requires
        map.generated(),
        monsters@.len() <= 3,
    ensures
        lich matches Some(m) && m == fresh_monster(MonsterKind::Lich, m.x as int, m.y as int, false)
            && ((map.rooms@.last().contains(m.x as int, m.y as int) && open_cell(map.grid(), monsters@, m.x as int, m.y as int))
                || first_open_cell(map.grid(), monsters@, m.x as int, m.y as int)),
{
    proof {
        lemma_grid_cells(map);
    }
    let n = map.rooms.len();
    let room = map.rooms[n - 1];
    proof {
        assert(room.inside_map());
    }
    let mut attempt: usize = 0;
    while attempt < 30
        invariant
            map.generated(),
            map.holds(map.grid()),
            room == map.rooms@.last(),
            room.inside_map(),
            attempt <= 30,
        decreases 30 - attempt,
    {
        let lx = draw(rng, room.x, room.x + room.w);
        let ly = draw(rng, room.y, room.y + room.h);
        if map.is_walkable(lx, ly) && !occupied(monsters, lx, ly) {
            proof {
                assert(map.tile_at(lx as int, ly as int) == cell(map.grid(), lx as int, ly as int));
            }
            return Some(Monster::new(lx, ly, MonsterKind::Lich));
        }
        attempt = attempt + 1;
    }
    match first_open(map, monsters) {
        Some((x, y)) => Some(Monster::new(x, y, MonsterKind::Lich)),
        None => {
            proof {
                lemma_open_cell_exists(map, monsters@);
            }
            None
        },
    }
}

/// Scatters potions: a roll of 0 to 99 asks for two (below 40), one (below
/// 60) or none, and up to 200 random tries are made at potion spots.
pub fn spawn_potions(map: &mut DungeonMap, rng: &mut StdRng, monsters: &Vec<Monster>, players: &Vec<(usize, usize)>)
    requires
        old(map).wf(),
    ensures
        final(map).wf(),
        final(map).rooms@ == old(map).rooms@,
        potions_placed(old(map).grid(), monsters@, players@, final(map).grid()),
{
    proof {
        lemma_grid_cells(map);
    }
    let ghost g0 = map.grid();
    let ghost mut cells: Seq<(int, int)> = Seq::empty();
    let roll = draw(rng, 0, 100);
    let count: usize = if roll < 40 { 2 } else if roll < 60 { 1 } else { 0 };
    let mut placed: usize = 0;
    let mut attempts: usize = 0;
    while placed < count && attempts < 200
        invariant
            map.wf(),
            map.rooms@ == old(map).rooms@,
            full_grid(g0),
            count <= 2,
            placed <= count,
            cells.len() == placed,
            attempts <= 200,
            forall|k: int| 0 <= k < cells.len() ==> potion_spot(g0, monsters@, players@, (#[trigger] cells[k]).0, cells[k].1),
            map.grid() == placed_all(g0, cells, Tile::Potion),
        decreases 200 - attempts,
    {
        attempts = attempts + 1;
        let x = draw(rng, 1, MAP_WIDTH - 1);
        let y = draw(rng, 1, MAP_HEIGHT - 1);
        proof {
            lemma_grid_cells(map);
            lemma_placed_cell(g0, cells, Tile::Potion, x as int, y as int);
        }
        if !map.is_walkable(x, y) {
            continue;
        }
        if occupied(monsters, x, y) {
            continue;
        }
        if on_cells(players, x, y) {
            continue;
        }
        proof {
            assert(map.tile_at(x as int, y as int) == cell(map.grid(), x as int, y as int));
            assert(potion_spot(g0, monsters@, players@, x as int, y as int));
        }
        map.set(x, y, Tile::Potion);
        proof {
            let old_cells = cells;
            cells = cells.push((x as int, y as int));
            assert(cells.drop_last() =~= old_cells);
        }
        placed = placed + 1;
    }
    assert(potions_at(g0, monsters@, players@, cells, map.grid()));
}

/// Puts chests: one or two are asked for, and up to 200 random tries are made
/// at chest spots.
pub fn spawn_chests(map: &mut DungeonMap, rng: &mut StdRng, monsters: &Vec<Monster>)
    requires
        old(map).wf(),
    ensures
        final(map).wf(),
        final(map).rooms@ == old(map).rooms@,
        chests_placed(old(map).grid(), monsters@, final(map).grid()),
{
    proof {
        lemma_grid_cells(map);
    }
    let ghost g0 = map.grid();
    let ghost mut cells: Seq<(int, int)> = Seq::empty();
    let count = draw(rng, 1, 3);
    let mut placed: usize = 0;
    let mut attempts: usize = 0;
    while placed < count && attempts < 200
        invariant
            map.wf(),
            map.rooms@ == old(map).rooms@,
            full_grid(g0),
            count <= 2,
            placed <= count,
            cells.len() == placed,
            attempts <= 200,
            forall|k: int| 0 <= k < cells.len() ==> chest_spot(g0, monsters@, (#[trigger] cells[k]).0, cells[k].1),
            forall|k: int, l: int| 0 <= k < l < cells.len() ==> #[trigger] cells[k] != #[trigger] cells[l],
            map.grid() == placed_all(g0, cells, Tile::Chest),
        decreases 200 - attempts,
    {
        attempts = attempts + 1;
        let x = draw(rng, 1, MAP_WIDTH - 1);
        let y = draw(rng, 1, MAP_HEIGHT - 1);
        proof {
            lemma_grid_cells(map);
            lemma_placed_cell(g0, cells, Tile::Chest, x as int, y as int);
        }
        if !map.is_walkable(x, y) {
            continue;
        }
        let t = map.get(x, y);
        if t == Tile::Potion || t == Tile::Stair || t == Tile::Chest || t == Tile::LichChest {
            continue;
        }
        if occupied(monsters, x, y) {
            continue;
        }
        proof {
            assert(map.tile_at(x as int, y as int) == cell(map.grid(), x as int, y as int));
            assert(!cells.contains((x as int, y as int)));
            assert(chest_spot(g0, monsters@, x as int, y as int));
        }
        map.set(x, y, Tile::Chest);
        proof {
            let old_cells = cells;
            cells = cells.push((x as int, y as int));
            assert(cells.drop_last() =~= old_cells);
            assert forall|k: int, l: int| 0 <= k < l < cells.len() implies #[trigger] cells[k] != #[trigger] cells[l] by {
                if l == cells.len() - 1 {
                    assert(old_cells[k] == cells[k]);
                    assert(old_cells.contains(cells[k]));
                } else {
                    assert(old_cells[k] == cells[k] && old_cells[l] == cells[l]);
                }
            }
        }
        placed = placed + 1;
    }
    assert(chests_at(g0, monsters@, cells, map.grid()));
}

/// Multiplayer monsters have half again their hit points, rounded up: twice
/// the scaled count is three times the unscaled count, or one more.
pub proof fn lemma_scaling_rounds_half_up(hp: int)
    requires
        hp >= 0,
    ensures
        2 * scaled_hp(hp) == 3 * hp || 2 * scaled_hp(hp) == 3 * hp + 1,
        scaled_hp(hp) >= hp,
{
}

/// Stocking a level puts no stairs on it: a layout holds only walls, floor and
/// corridor, and potions and chests are all that is added.
pub proof fn lemma_stocking_places_no_stairs(rooms: Seq<Room>, ms: Seq<Monster>, ps: Seq<(usize, usize)>, g: Grid, x: int, y: int)
    requires
        potions_placed(lay_out(rooms), ms, ps, g),
        on_map(x, y),
    ensures
        forall|h: Grid| #[trigger] chests_placed(g, ms, h) ==> cell(h, x, y) != Tile::Stair,
        cell(g, x, y) != Tile::Stair,
{
    let base = lay_out(rooms);
    lemma_layout_full(rooms);
    crate::dungeon::lemma_layout_tiles(rooms, x, y);
    let pc = choose|cells: Seq<(int, int)>| #[trigger] potions_at(base, ms, ps, cells, g);
    lemma_placed_cell(base, pc, Tile::Potion, x, y);
    assert forall|h: Grid| #[trigger] chests_placed(g, ms, h) implies cell(h, x, y) != Tile::Stair by {
        let cc = choose|cells: Seq<(int, int)>| #[trigger] chests_at(g, ms, cells, h);
        lemma_placed_cell(g, cc, Tile::Chest, x, y);
    }
}

} // verus!
