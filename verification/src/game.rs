//! The game: its state, its rules and every move the players and monsters make.

use rand::rngs::StdRng;
use vstd::prelude::*;

use crate::combat::{
    d6, hp_in_range, larger, lemma_damage_bands, monster_attack_result, monster_damage, player_attack_result, resolve_monster_attack, resolve_player_attack,
    roll_d6, trunc_div,
};
use crate::dice::{draw, entropy_rng};
use crate::dungeon::{
    cell, drawn_room, full_grid, generate, grid_set, lay_out, lemma_grid_cells, lemma_grid_is, lemma_layout_full, on_map, rooms_apart,
    DungeonMap, Grid, Room, Tile, MAP_HEIGHT, MAP_WIDTH,
};
use crate::spawn::{
    chests_placed, lich_placed, monsters_spawned, potions_placed, regular_placed, room_for, spawn_chests, spawn_monsters,
    spawn_potions,
};
use crate::entity::{Monster, MonsterKind, Player};
use crate::protocol::{NetGameState, NetMonster, NetPlayer, NetScene};
use crate::text::{i32_string, int_text, nat_text, u8_string};

verus! {

/// Where the game stands.
#[derive(Clone, Copy, PartialEq, Eq, Debug, Structural)]
pub enum GameState {
    Playing,
    GameOver,
    Victory,
    ConfirmQuit,
    Disconnected,
}

impl GameState {
    /// The byte that stands for this state on the wire.
    pub open spec fn byte_of(self) -> u8 {
        match self {
            GameState::Playing => 0,
            GameState::GameOver => 1,
            GameState::Victory => 2,
            GameState::ConfirmQuit => 3,
            GameState::Disconnected => 4,
        }
    }

    /// The wire byte of this state.
    pub fn to_byte(&self) -> (b: u8)
        ensures
            b == self.byte_of(),
    {
        match self {
            GameState::Playing => 0,
            GameState::GameOver => 1,
            GameState::Victory => 2,
            GameState::ConfirmQuit => 3,
            GameState::Disconnected => 4,
        }
    }
}

/// A running game. `status_msg` is the first player's status line and
/// `status_msg2` the second player's.
pub struct Game {
    pub state: GameState,
    pub map: DungeonMap,
    pub player: Player,
    pub player2: Option<Player>,
    pub monsters: Vec<Monster>,
    pub level: u8,
    pub status_msg: String,
    pub status_msg2: String,
    pub multiplayer: bool,
    pub rng: StdRng,
}

/// Everything of a game but its random number generator, as plain values.
#[verifier::ext_equal]
pub struct Scene {
    pub state: GameState,
    pub grid: Grid,
    pub rooms: Seq<Room>,
    pub player: Player,
    pub player2: Option<Player>,
    pub monsters: Seq<Monster>,
    pub level: u8,
    pub msg: Seq<char>,
    pub msg2: Seq<char>,
    pub multiplayer: bool,
}

impl View for Game {
    type V = Scene;

    open spec fn view(&self) -> Scene {
        Scene {
            state: self.state,
            grid: self.map.grid(),
            rooms: self.map.rooms@,
            player: self.player,
            player2: self.player2,
            monsters: self.monsters@,
            level: self.level,
            msg: self.status_msg@,
            msg2: self.status_msg2@,
            multiplayer: self.multiplayer,
        }
    }
}

/// A coordinate far from the ends of `i32`. Positions are stepped and
/// compared as `i32` (a player's step, a monster's distance to its target,
/// and one more cell for the second player's spawn); every cell of the map
/// lies far below this bound, so only a hand-made game can exceed it.
pub open spec fn coord_in_range(c: usize) -> bool {
    c <= 1_000_000
}

/// Hit points within `b` of zero.
pub open spec fn hp_within(hp: int, b: int) -> bool {
    -b <= hp <= b
}

pub open spec fn player_within(p: Player, b: int) -> bool {
    &&& coord_in_range(p.x)
    &&& coord_in_range(p.y)
    &&& hp_within(p.hp as int, b)
    &&& hp_within(p.max_hp as int, b)
}

pub open spec fn monster_within(m: Monster, b: int) -> bool {
    &&& coord_in_range(m.x)
    &&& coord_in_range(m.y)
    &&& hp_within(m.hp as int, b)
    &&& hp_within(m.max_hp as int, b)
}

/// The bound on hit points that every move of a player starts from. A move
/// changes a count by a few points at most (a blow takes at most 14, a kill
/// adds one maximum hit point, a heal or respawn sets a count to at most its
/// maximum), so a game within this bound stays within `loose()`; the real
/// counts of a game are a few hundred at most.
pub open spec fn tight() -> int {
    1_000_000_000
}

/// The bound on hit points that a move of a player keeps within, and that
/// the monsters' turn starts from. In that turn each blow takes at most 14
/// hit points and a player brought to zero or below respawns or ends the
/// game, so no count leaves `hp_in_range` (within 2e9 of zero, inside `i32`).
pub open spec fn loose() -> int {
    1_500_000_000
}

pub open spec fn monster_in_range(m: Monster) -> bool {
    monster_within(m, tight())
}

impl Scene {
    /// Every position lies far from the ends of `i32`, and every hit point
    /// count within `b` of zero.
    pub open spec fn within(self, b: int) -> bool {
        &&& player_within(self.player, b)
        &&& (self.player2 matches Some(p) ==> player_within(p, b))
        &&& forall|i: int| 0 <= i < self.monsters.len() ==> monster_within(#[trigger] self.monsters[i], b)
    }

    /// The numbers of the game are small enough for any move of a player.
    pub open spec fn in_range(self) -> bool {
        self.within(tight())
    }

    /// The numbers of the game are small enough for the monsters' turn, or
    /// the game is lost.
    pub open spec fn settled(self) -> bool {
        self.state == GameState::GameOver || self.within(loose())
    }

    /// The tile at `(x, y)`, or a wall off the map.
    pub open spec fn tile(self, x: int, y: int) -> Tile {
        if on_map(x, y) { cell(self.grid, x, y) } else { Tile::Wall }
    }

    pub open spec fn walkable(self, x: int, y: int) -> bool {
        on_map(x, y) && cell(self.grid, x, y).passable()
    }

    /// Whether a living monster stands at `(x, y)`.
    pub open spec fn monster_at(self, x: int, y: int) -> bool {
        exists|i: int| 0 <= i < self.monsters.len() && (#[trigger] self.monsters[i]).living()
            && self.monsters[i].x == x && self.monsters[i].y == y
    }

    /// Whether any monster is alive.
    pub open spec fn any_alive(self) -> bool {
        exists|i: int| 0 <= i < self.monsters.len() && (#[trigger] self.monsters[i]).living()
    }

    pub open spec fn with_tile(self, x: int, y: int, t: Tile) -> Scene {
        Scene { grid: grid_set(self.grid, x, y, t), ..self }
    }

    pub open spec fn with_msg(self, m: Seq<char>) -> Scene {
        Scene { msg: m, ..self }
    }

    pub open spec fn with_msg2(self, m: Seq<char>) -> Scene {
        Scene { msg2: m, ..self }
    }

    /// Where the opening player stands.
    pub open spec fn opener_pos(self, is_p2: bool) -> (int, int) {
        if is_p2 {
            (self.player2.unwrap().x as int, self.player2.unwrap().y as int)
        } else {
            (self.player.x as int, self.player.y as int)
        }
    }

    /// Both players (those present) back at full hit points.
    pub open spec fn healed(self) -> Scene {
        Scene {
            player: Player { hp: self.player.max_hp, ..self.player },
            player2: match self.player2 {
                Some(p) => Some(Player { hp: p.max_hp, ..p }),
                None => None,
            },
            ..self
        }
    }
}

/// Where players start and come back: the middle of the first room, or
/// `(1, 1)` on a map without rooms.
pub open spec fn spawn_point(rooms: Seq<Room>) -> (int, int) {
    if rooms.len() > 0 { rooms[0].mid() } else { (1, 1) }
}

/// The first player back at the spawn point with half the maximum hit points
/// (at least one).
pub open spec fn respawn1(s: Scene) -> Scene {
    let (rx, ry) = spawn_point(s.rooms);
    let half = trunc_div(s.player.max_hp as int, 2);
    Scene {
        player: Player { x: rx as usize, y: ry as usize, hp: (if half >= 1 { half } else { 1 }) as i32, ..s.player },
        ..s
    }
}

pub open spec fn p2_respawned_text() -> Seq<char> {
    "P2 was defeated and respawned!"@
}

/// The second player, if present, back one cell right of the spawn point with
/// half the maximum hit points; the first player's status line tells of it.
pub open spec fn respawn2(s: Scene) -> Scene {
    let (rx, ry) = spawn_point(s.rooms);
    Scene {
        player2: match s.player2 {
            Some(p) => Some(Player { x: (rx + 1) as usize, y: ry as usize, hp: trunc_div(p.max_hp as int, 2) as i32, ..p }),
            None => None,
        },
        msg: p2_respawned_text(),
        ..s
    }
}

pub open spec fn lich_heal_text() -> Seq<char> {
    "The Lich's essence becomes a healing light! All players are fully restored!"@
}

/// Opening the chest that a slain Lich leaves: everyone is healed and the
/// chest becomes floor.
pub open spec fn lich_chest_opened(s: Scene, is_p2: bool) -> Scene {
    let (x, y) = s.opener_pos(is_p2);
    s.healed().with_msg(lich_heal_text()).with_msg2(lich_heal_text()).with_tile(x, y, Tile::Floor)
}

pub open spec fn food_text(s: Scene) -> Seq<char> {
    if s.player2.is_some() {
        "The chest contains food! Both players are fully healed!"@
    } else {
        "The chest contains food! You are fully healed! ("@ + int_text(s.player.max_hp as int) + " HP)"@
    }
}

pub open spec fn trap_defeat_text() -> Seq<char> {
    "The chest was a trap! You were defeated and respawned!"@
}

pub open spec fn trap_perish_text() -> Seq<char> {
    "The chest was a trap! You have perished in Dagger Deep."@
}

pub open spec fn trap_text(damage: int, hp: int) -> Seq<char> {
    "The chest was a trap! You take "@ + int_text(damage) + " damage! ("@ + int_text(larger(hp, 0)) + " HP left)"@
}

pub open spec fn empty_chest_text() -> Seq<char> {
    "The chest was empty."@
}

/// Opening a chest, given a roll of 0 to 99 and a die for a trap's damage:
/// below 40 it holds food that heals everyone; below 65 it is a trap that
/// hurts the opener, who respawns (or, alone, perishes) at zero hit points or
/// below; otherwise it is empty. The chest becomes floor where the opener
/// stood.
pub open spec fn chest_opened(s: Scene, is_p2: bool, roll: int, dmg: int) -> Scene {
    let (x, y) = s.opener_pos(is_p2);
    let after = if roll < 40 {
        let food = food_text(s);
        s.healed().with_msg(food).with_msg2(food)
    } else if roll < 65 {
        if is_p2 {
            let p = s.player2.unwrap();
            let hp = p.hp - dmg;
            let hurt = Scene { player2: Some(Player { hp: hp as i32, ..p }), ..s };
            if hp <= 0 {
                respawn2(hurt).with_msg2(trap_defeat_text())
            } else {
                hurt.with_msg2(trap_text(dmg, hp))
            }
        } else {
            let hp = s.player.hp - dmg;
            let hurt = Scene { player: Player { hp: hp as i32, ..s.player }, ..s };
            if hp <= 0 {
                if s.multiplayer {
                    respawn1(hurt).with_msg(trap_defeat_text())
                } else {
                    Scene { state: GameState::GameOver, ..hurt }.with_msg(trap_perish_text())
                }
            } else {
                hurt.with_msg(trap_text(dmg, hp))
            }
        }
    } else if is_p2 {
        s.with_msg2(empty_chest_text())
    } else {
        s.with_msg(empty_chest_text())
    };
    after.with_tile(x, y, Tile::Floor)
}

/// A cell where the stairs may appear: walkable, not under the first player,
/// and not already stairs, a potion or a chest.
pub open spec fn stair_candidate(s: Scene, x: int, y: int) -> bool {
    &&& s.walkable(x, y)
    &&& !(x == s.player.x && y == s.player.y)
    &&& cell(s.grid, x, y) != Tile::Stair
    &&& cell(s.grid, x, y) != Tile::Potion
    &&& cell(s.grid, x, y) != Tile::Chest
    &&& cell(s.grid, x, y) != Tile::LichChest
}

pub open spec fn stair_text() -> Seq<char> {
    "The way down is revealed..."@
}

/// Revealing the stairs: while a monster lives nothing happens; otherwise the
/// stairs appear on some candidate cell, or under the first player when no
/// cell is a candidate.
pub open spec fn stair_revealed(pre: Scene, post: Scene) -> bool {
    if pre.any_alive() {
        post == pre
    } else {
        exists|x: int, y: int| #[trigger] stair_placed(pre, post, x, y)
    }
}

/// The stairs appear at `(x, y)`: a candidate cell, or the first player's cell
/// when no cell is a candidate.
pub open spec fn stair_placed(pre: Scene, post: Scene, x: int, y: int) -> bool {
    &&& (stair_candidate(pre, x, y) || (
        (forall|i: int, j: int| !#[trigger] stair_candidate(pre, i, j))
        && x == pre.player.x && y == pre.player.y))
    &&& post == pre.with_tile(x, y, Tile::Stair).with_msg(stair_text())
}

/// A cell the Lich may vanish to: walkable, free of both players and of every
/// other living monster.
pub open spec fn teleport_candidate(s: Scene, idx: int, x: int, y: int) -> bool {
    &&& s.walkable(x, y)
    &&& !(x == s.player.x && y == s.player.y)
    &&& (s.player2 matches Some(p) ==> !(x == p.x && y == p.y))
    &&& forall|i: int| 0 <= i < s.monsters.len() && i != idx && (#[trigger] s.monsters[i]).living()
        ==> !(s.monsters[i].x == x && s.monsters[i].y == y)
}

/// The monster at `idx` vanishes to some candidate cell and is marked as
/// teleported; with no candidate, nothing happens.
pub open spec fn teleported(pre: Scene, idx: int, post: Scene) -> bool {
    if forall|x: int, y: int| !#[trigger] teleport_candidate(pre, idx, x, y) {
        post == pre
    } else {
        exists|x: int, y: int| #[trigger] teleported_to(pre, idx, post, x, y)
    }
}

/// The monster at `idx` moved to the candidate cell `(x, y)`, marked as
/// teleported.
pub open spec fn teleported_to(pre: Scene, idx: int, post: Scene, x: int, y: int) -> bool {
    &&& teleport_candidate(pre, idx, x, y)
    &&& post == Scene {
        monsters: pre.monsters.update(idx, Monster { x: x as usize, y: y as usize, teleported: true, ..pre.monsters[idx] }),
        ..pre
    }
}

/// One level deeper, saturating at 255.
pub open spec fn deeper(level: u8) -> u8 {
    if level < 255 { (level + 1) as u8 } else { 255 }
}

pub open spec fn level_text(level: u8) -> Seq<char> {
    "Level "@ + nat_text(level as nat) + ". Deeper into Dagger Deep..."@
}

pub open spec fn welcome_text() -> Seq<char> {
    "Welcome to Dagger Deep!"@
}

/// The dungeon of the scene is freshly stocked for `level`: the rooms are
/// those of a generated map, the monsters are spawned on its layout, and the
/// tiles are that layout with potions and then chests put on it.
pub open spec fn level_stocked(s: Scene, level: int) -> bool {
    let rooms = s.rooms;
    let base = lay_out(rooms);
    &&& 1 <= rooms.len() <= 10
    &&& forall|i: int| 0 <= i < rooms.len() ==> drawn_room(#[trigger] rooms[i])
    &&& rooms_apart(rooms)
    &&& monsters_spawned(base, rooms, s.multiplayer, level, s.monsters)
    &&& exists|g: Grid| #[trigger] potions_placed(base, s.monsters, player_cells(s.player, s.player2), g) && chests_placed(g, s.monsters, s.grid)
}

/// The cells the players stand on: the first player's, then the second
/// player's if present.
pub open spec fn player_cells(p: Player, p2: Option<Player>) -> Seq<(usize, usize)> {
    match p2 {
        Some(q) => seq![(p.x, p.y), (q.x, q.y)],
        None => seq![(p.x, p.y)],
    }
}

/// The second player, if present, moved one cell right of `(x, y)`.
pub open spec fn p2_beside(p2: Option<Player>, x: int, y: int) -> Option<Player> {
    match p2 {
        Some(p) => Some(Player { x: (x + 1) as usize, y: y as usize, ..p }),
        None => None,
    }
}

/// Going down the stairs: a new dungeon, freshly stocked for the next level,
/// with the players (hit points kept) at its spawn point.
pub open spec fn next_level_entered(pre: Scene, post: Scene) -> bool {
    let level = deeper(pre.level);
    let (px, py) = spawn_point(post.rooms);
    &&& post.level == level
    &&& level_stocked(post, level as int)
    &&& post.player == Player { x: px as usize, y: py as usize, ..pre.player }
    &&& post.player2 == p2_beside(pre.player2, px, py)
    &&& post.msg == level_text(level)
    &&& post.msg2 == level_text(level)
    &&& post.state == pre.state
    &&& post.multiplayer == pre.multiplayer
}

/// A new game: level 1 freshly stocked, the players at full health at its
/// spawn point (the second one, in multiplayer, one cell to the right).
pub open spec fn game_started(s: Scene, multiplayer: bool) -> bool {
    let (px, py) = spawn_point(s.rooms);
    &&& s.state == GameState::Playing
    &&& s.level == 1
    &&& s.multiplayer == multiplayer
    &&& level_stocked(s, 1)
    &&& s.player == Player { x: px as usize, y: py as usize, hp: 20, max_hp: 20 }
    &&& s.player2 == (if multiplayer { p2_beside(Some(Player { x: 0, y: 0, hp: 20, max_hp: 20 }), px, py) } else { None })
    &&& s.msg == welcome_text()
    &&& s.msg2 == welcome_text()
}

impl Scene {
    /// The moving player: the second one when `is_p2`, else the first.
    pub open spec fn mover(self, is_p2: bool) -> Player {
        if is_p2 { self.player2.unwrap() } else { self.player }
    }

    /// A step that goes nowhere: there is no second player to move, or the
    /// target cell is off the map or a wall.
    pub open spec fn blocked(self, is_p2: bool, dx: int, dy: int) -> bool {
        (is_p2 && self.player2 is None) || !self.walkable(self.mover(is_p2).x + dx, self.mover(is_p2).y + dy)
    }

    pub open spec fn with_mover(self, is_p2: bool, p: Player) -> Scene {
        if is_p2 { Scene { player2: Some(p), ..self } } else { Scene { player: p, ..self } }
    }

    /// The moving player's own status line set to `m`.
    pub open spec fn with_own_msg(self, is_p2: bool, m: Seq<char>) -> Scene {
        if is_p2 { self.with_msg2(m) } else { self.with_msg(m) }
    }

    /// `idx` is the first living monster standing at `(x, y)`.
    pub open spec fn first_monster_at(self, x: int, y: int, idx: int) -> bool {
        &&& 0 <= idx < self.monsters.len()
        &&& self.monsters[idx].living()
        &&& self.monsters[idx].x == x && self.monsters[idx].y == y
        &&& forall|k: int| 0 <= k < idx ==> !((#[trigger] self.monsters[k]).living() && self.monsters[k].x == x && self.monsters[k].y == y)
    }
}

pub open spec fn vanish_text() -> Seq<char> {
    "The Lich vanishes in a flash of dark magic!"@
}

pub open spec fn defeat_text() -> Seq<char> {
    "You were defeated and respawned!"@
}

pub open spec fn potion_text(hp: int) -> Seq<char> {
    "You drank a potion and feel restored! ("@ + int_text(hp) + " HP)"@
}

pub open spec fn stairs_down_text() -> Seq<char> {
    "The stairs lead deeper into the dungeon..."@
}

/// The Lich flees once: when still alive after a blow, not yet teleported,
/// and down to a quarter of its maximum hit points or fewer.
pub open spec fn lich_flees(m: Monster) -> bool {
    m.kind == MonsterKind::Lich && !m.teleported && m.hp <= trunc_div(m.max_hp as int, 4)
}

/// The moving player attacks the monster at `idx`, standing on `(x, y)`, with
/// the rolls `hit` and `dmg`: a slain monster (a Lich leaves its chest) may
/// reveal the stairs; a Lich that flees vanishes; any other survivor strikes
/// back, and a player brought down respawns, except the first player alone,
/// whose game is over.
pub open spec fn fought(pre: Scene, is_p2: bool, idx: int, x: int, y: int, hit: int, dmg: int, post: Scene) -> bool {
    let (p1, m1, atk) = player_attack_result(pre.mover(is_p2), pre.monsters[idx], hit, dmg);
    let s1 = Scene { monsters: pre.monsters.update(idx, m1), ..pre.with_mover(is_p2, p1) };
    if !m1.living() {
        slain(s1, is_p2, m1, atk, x, y, post)
    } else if lich_flees(m1) {
        fled(s1, idx, atk, post)
    } else {
        exists|h: int, d1: int, d2: int| d6(h) && d6(d1) && d6(d2) && #[trigger] struck_back(s1, is_p2, m1, atk, h, d1, d2, post)
    }
}

/// The monster `m` was slain at `(x, y)`: a Lich leaves its chest there, the
/// attacker's status line tells of the blow, and the stairs may be revealed.
pub open spec fn slain(s1: Scene, is_p2: bool, m: Monster, atk: Seq<char>, x: int, y: int, post: Scene) -> bool {
    let s2 = if m.kind == MonsterKind::Lich { s1.with_tile(x, y, Tile::LichChest) } else { s1 };
    stair_revealed(s2.with_own_msg(is_p2, atk), post)
}

/// The Lich at `idx` flees: it vanishes and both status lines tell of it.
pub open spec fn fled(s1: Scene, idx: int, atk: Seq<char>, post: Scene) -> bool {
    let text = atk + " "@ + vanish_text();
    exists|s3: Scene| #[trigger] teleported(s1, idx, s3) && post == s3.with_msg(text).with_msg2(text)
}

/// The surviving monster `m` strikes back at the moving player with the rolls
/// `h`, `d1`, `d2`.
pub open spec fn struck_back(s1: Scene, is_p2: bool, m: Monster, atk: Seq<char>, h: int, d1: int, d2: int, post: Scene) -> bool {
    let (p2, def, died) = monster_attack_result(m, s1.mover(is_p2), h, d1, d2, s1.multiplayer, s1.level as int);
    let s3 = s1.with_mover(is_p2, p2).with_own_msg(is_p2, atk + " "@ + def);
    post == (if !died {
        s3
    } else if is_p2 {
        respawn2(s3).with_msg2(defeat_text())
    } else if s3.multiplayer {
        respawn1(s3).with_msg(defeat_text())
    } else {
        Scene { state: GameState::GameOver, ..s3 }
    })
}

/// The moving player has stepped onto `(x, y)` (already moved in `moved`):
/// a potion heals fully and is used up, a chest or a Lich's chest is opened,
/// and stairs lead down a level, or to victory from level 10.
pub open spec fn arrived(moved: Scene, is_p2: bool, x: int, y: int, post: Scene) -> bool {
    let t = cell(moved.grid, x, y);
    if t == Tile::Potion {
        let p = moved.mover(is_p2);
        post == moved.with_mover(is_p2, Player { hp: p.max_hp, ..p }).with_tile(x, y, Tile::Floor)
            .with_own_msg(is_p2, potion_text(p.max_hp as int))
    } else if t == Tile::Chest {
        exists|roll: int, dmg: int| 0 <= roll < 100 && d6(dmg) && post == #[trigger] chest_opened(moved, is_p2, roll, dmg)
    } else if t == Tile::LichChest {
        post == lich_chest_opened(moved, is_p2)
    } else if t == Tile::Stair {
        if moved.level == 10 {
            post == Scene { state: GameState::Victory, ..moved }
        } else {
            next_level_entered(moved.with_msg(stairs_down_text()), post)
        }
    } else {
        post == moved
    }
}

/// A step of the moving player by `(dx, dy)`: nothing off the map or into a
/// wall (or for an absent second player); an attack on the first living
/// monster in the way; else the step and whatever lies there.
pub open spec fn stepped(pre: Scene, is_p2: bool, dx: int, dy: int, post: Scene) -> bool {
    if is_p2 && pre.player2.is_none() {
        post == pre
    } else {
        let p = pre.mover(is_p2);
        let nx = p.x + dx;
        let ny = p.y + dy;
        if !pre.walkable(nx, ny) {
            post == pre
        } else if pre.monster_at(nx, ny) {
            exists|idx: int, hit: int, dmg: int| pre.first_monster_at(nx, ny, idx) && d6(hit) && d6(dmg)
                && #[trigger] fought(pre, is_p2, idx, nx, ny, hit, dmg, post)
        } else {
            arrived(pre.with_mover(is_p2, Player { x: nx as usize, y: ny as usize, ..p }), is_p2, nx, ny, post)
        }
    }
}

pub open spec fn sign(v: int) -> int {
    if v > 0 { 1 } else if v < 0 { -1 } else { 0 }
}

pub open spec fn abs(v: int) -> int {
    if v < 0 { -v } else { v }
}

/// The player a monster at `(mx, my)` chases: the second player when strictly
/// closer (in steps along the axes) than the first, else the first.
pub open spec fn chase_target(mx: int, my: int, px: int, py: int, p2pos: Option<(int, int)>) -> (int, int) {
    match p2pos {
        Some((qx, qy)) => if abs(qx - mx) + abs(qy - my) < abs(px - mx) + abs(py - my) { (qx, qy) } else { (px, py) },
        None => (px, py),
    }
}

/// One step towards `(tx, ty)` along the axis of the greater distance,
/// preferring the horizontal on a tie.
pub open spec fn chase_step(mx: int, my: int, tx: int, ty: int) -> (int, int) {
    let dx = tx - mx;
    let dy = ty - my;
    if abs(dx) >= abs(dy) { (sign(dx), 0) } else { (0, sign(dy)) }
}

/// The turn of the monster at `i`, with the players' positions taken when the
/// monsters' turn began (`(px, py)` and `p2pos`) and the dice `r` for an
/// attack. A living monster steps towards its target unless the step leaves
/// the map, meets a wall or a living monster; stepping onto the first player's
/// starting cell attacks the first player, onto the second player's current
/// cell attacks the second player. The flag is set when the first player, alone,
/// is brought down: the game is over and the remaining monsters do not act.
pub open spec fn monster_turn(s: Scene, i: int, px: int, py: int, p2pos: Option<(int, int)>, r: (int, int, int)) -> (Scene, bool) {
    let m = s.monsters[i];
    let (tx, ty) = chase_target(m.x as int, m.y as int, px, py, p2pos);
    let (sx, sy) = chase_step(m.x as int, m.y as int, tx, ty);
    let nx = m.x + sx;
    let ny = m.y + sy;
    if !m.living() || nx < 0 || ny < 0 || !s.walkable(nx, ny) || s.monster_at(nx, ny) {
        (s, false)
    } else if nx == px && ny == py {
        monster_hits_first(s, m, r)
    } else if s.player2 is Some && s.player2.unwrap().x == nx && s.player2.unwrap().y == ny {
        (monster_hits_second(s, m, r), false)
    } else {
        (Scene { monsters: s.monsters.update(i, Monster { x: nx as usize, y: ny as usize, ..m }), ..s }, false)
    }
}

/// The monster `m` attacks the first player with the dice `r`; a player
/// brought down respawns in multiplayer, and alone ends the game (the flag).
pub open spec fn monster_hits_first(s: Scene, m: Monster, r: (int, int, int)) -> (Scene, bool) {
    let (p, text, died) = monster_attack_result(m, s.player, r.0, r.1, r.2, s.multiplayer, s.level as int);
    let hit = Scene { player: p, ..s }.with_msg(text);
    if !died {
        (hit, false)
    } else if s.multiplayer {
        (respawn1(hit).with_msg(defeat_text()), false)
    } else {
        (Scene { state: GameState::GameOver, ..hit }, true)
    }
}

/// The monster `m` attacks the second player with the dice `r`; a player
/// brought down respawns.
pub open spec fn monster_hits_second(s: Scene, m: Monster, r: (int, int, int)) -> Scene {
    let (p, text, died) = monster_attack_result(m, s.player2.unwrap(), r.0, r.1, r.2, s.multiplayer, s.level as int);
    let hit = Scene { player2: Some(p), ..s }.with_msg2(text);
    if !died { hit } else { respawn2(hit).with_msg2(defeat_text()) }
}

/// The first `rolls.len()` monster turns, in order, each with its dice; once
/// the game is over the rest are skipped.
pub open spec fn monster_turns(pre: Scene, px: int, py: int, p2pos: Option<(int, int)>, rolls: Seq<(int, int, int)>) -> (Scene, bool)
    decreases rolls.len(),
{
    if rolls.len() == 0 {
        (pre, false)
    } else {
        let (s, over) = monster_turns(pre, px, py, p2pos, rolls.drop_last());
        if over { (s, true) } else { monster_turn(s, rolls.len() - 1, px, py, p2pos, rolls.last()) }
    }
}

/// Where the second player stood, if present.
pub open spec fn p2_position(s: Scene) -> Option<(int, int)> {
    match s.player2 {
        Some(p) => Some((p.x as int, p.y as int)),
        None => None,
    }
}

/// The monsters' turn: every monster in order takes its turn (see
/// `monster_turn`), for some dice, until all have acted or the game is over.
pub open spec fn monsters_moved(pre: Scene, post: Scene) -> bool {
    exists|rolls: Seq<(int, int, int)>| #[trigger] monsters_moved_with(pre, post, rolls)
}

pub open spec fn monsters_moved_with(pre: Scene, post: Scene, rolls: Seq<(int, int, int)>) -> bool {
    let (s, over) = monster_turns(pre, pre.player.x as int, pre.player.y as int, p2_position(pre), rolls);
    &&& rolls.len() <= pre.monsters.len()
    &&& forall|k: int| 0 <= k < rolls.len() ==> d6((#[trigger] rolls[k]).0) && d6(rolls[k].1) && d6(rolls[k].2)
    &&& post == s
    &&& (over || rolls.len() == pre.monsters.len())
}

pub open spec fn net_player(p: Player) -> NetPlayer {
    NetPlayer { x: p.x, y: p.y, hp: p.hp, max_hp: p.max_hp, respawns_left: 0 }
}

pub open spec fn net_monster(m: Monster) -> NetMonster {
    NetMonster { x: m.x, y: m.y, kind: m.kind.byte_of(), hp: m.hp, max_hp: m.max_hp, alive: m.alive, teleported: m.teleported }
}

/// The snapshot of a scene that the host sends: every tile and the state as
/// their wire bytes, the players and monsters field by field (no respawn
/// count is kept, so it reads 0).
pub open spec fn net_of(s: Scene) -> NetScene {
    NetScene {
        tiles: s.grid.map_values(|row: Seq<Tile>| row.map_values(|t: Tile| t.byte_of())),
        player1: net_player(s.player),
        player2: match s.player2 {
            Some(p) => Some(net_player(p)),
            None => None,
        },
        monsters: s.monsters.map_values(|m: Monster| net_monster(m)),
        level: s.level,
        msg: s.msg,
        msg2: s.msg2,
        state: s.state.byte_of(),
    }
}

/// The tiles a snapshot's bytes stand for on the map: cells the snapshot
/// lacks are walls, bytes beyond the map are dropped.
pub open spec fn grid_of_bytes(tiles: Seq<Seq<u8>>) -> Grid {
    Seq::new(MAP_HEIGHT as nat, |y: int| Seq::new(MAP_WIDTH as nat, |x: int|
        if y < tiles.len() && x < tiles[y].len() { Tile::from_byte(tiles[y][x]) } else { Tile::Wall }))
}

pub open spec fn monster_of_net(m: NetMonster) -> Monster {
    Monster { x: m.x, y: m.y, kind: MonsterKind::from_byte(m.kind), hp: m.hp, max_hp: m.max_hp, alive: m.alive, teleported: m.teleported }
}

pub open spec fn state_of_byte(b: u8) -> GameState {
    if b == 1 { GameState::GameOver } else if b == 2 { GameState::Victory } else { GameState::Playing }
}

pub open spec fn solo_text() -> Seq<char> {
    "Host disconnected. Continuing solo!"@
}

/// The solo game the second player continues from a snapshot when the host
/// goes away: the second player becomes the only player; the map (without
/// rooms), the monsters and the level carry over; a lost or won game stays
/// so and anything else is playing. No game without a second player.
pub open spec fn solo_of(n: NetScene) -> Option<Scene> {
    match n.player2 {
        None => None,
        Some(p) => Some(Scene {
            state: state_of_byte(n.state),
            grid: grid_of_bytes(n.tiles),
            rooms: Seq::empty(),
            player: Player { x: p.x, y: p.y, hp: p.hp, max_hp: p.max_hp },
            player2: None,
            monsters: n.monsters.map_values(|m: NetMonster| monster_of_net(m)),
            level: n.level,
            msg: solo_text(),
            msg2: Seq::empty(),
            multiplayer: false,
        }),
    }
}

/// A lost, won or running game keeps its state through a snapshot; a game
/// waiting for a quit confirmation or disconnected continues as running.
pub open spec fn solo_state(st: GameState) -> GameState {
    match st {
        GameState::GameOver => GameState::GameOver,
        GameState::Victory => GameState::Victory,
        _ => GameState::Playing,
    }
}

/// When the host goes away, the second player continues exactly where the
/// last snapshot left off: the same tiles, the same monsters and level, with
/// the second player as the only player.
pub proof fn lemma_solo_continues_snapshot(s: Scene)
    requires
        full_grid(s.grid),
        s.player2 is Some,
    ensures
        solo_of(net_of(s)) == Some(Scene {
            state: solo_state(s.state),
            grid: s.grid,
            rooms: Seq::empty(),
            player: s.player2.unwrap(),
            player2: None,
            monsters: s.monsters,
            level: s.level,
            msg: solo_text(),
            msg2: Seq::empty(),
            multiplayer: false,
        }),
{
    let n = net_of(s);
    let gb = grid_of_bytes(n.tiles);
    assert(gb =~~= s.grid) by {
        assert forall|y: int| 0 <= y < MAP_HEIGHT implies #[trigger] gb[y] =~= s.grid[y] by {
            assert forall|x: int| 0 <= x < MAP_WIDTH implies gb[y][x] == s.grid[y][x] by {
                crate::dungeon::lemma_tile_byte_round_trip(s.grid[y][x]);
            }
        }
    }
    let back = n.monsters.map_values(|m: NetMonster| monster_of_net(m));
    assert(back =~= s.monsters) by {
        assert forall|i: int| 0 <= i < s.monsters.len() implies #[trigger] back[i] == s.monsters[i] by {
            crate::entity::lemma_monster_kind_byte_round_trip(s.monsters[i].kind);
        }
    }
    let expected = Scene {
        state: solo_state(s.state),
        grid: s.grid,
        rooms: Seq::empty(),
        player: s.player2.unwrap(),
        player2: None,
        monsters: s.monsters,
        level: s.level,
        msg: solo_text(),
        msg2: Seq::empty(),
        multiplayer: false,
    };
    assert(solo_of(n).unwrap() =~~= expected);
}

/// A freshly stocked level has no stairs: they appear only once its monsters
/// are all dead (see `stair_revealed`).
pub proof fn lemma_fresh_level_has_no_stairs(s: Scene, level: int, x: int, y: int)
    requires
        level_stocked(s, level),
        on_map(x, y),
    ensures
        cell(s.grid, x, y) != Tile::Stair,
{
    let base = lay_out(s.rooms);
    let g = choose|g: Grid| #[trigger] potions_placed(base, s.monsters, player_cells(s.player, s.player2), g) && chests_placed(g, s.monsters, s.grid);
    crate::spawn::lemma_stocking_places_no_stairs(s.rooms, s.monsters, player_cells(s.player, s.player2), g, x, y);
}

/// A monster's turn changes no other monster, and the monster itself moves
/// only when alive, by one cell along one axis, onto a walkable cell where no
/// living monster stood.
pub proof fn lemma_monster_turn_moves_one_free_cell(s: Scene, i: int, px: int, py: int, p2pos: Option<(int, int)>, r: (int, int, int))
    requires
        0 <= i < s.monsters.len(),
    ensures
        ({
            let post = monster_turn(s, i, px, py, p2pos, r).0;
            let (m, n) = (s.monsters[i], post.monsters[i]);
            &&& post.monsters.len() == s.monsters.len()
            &&& forall|j: int| 0 <= j < s.monsters.len() && j != i ==> #[trigger] post.monsters[j] == s.monsters[j]
            &&& (n.x != m.x || n.y != m.y) ==> {
                &&& m.living()
                &&& abs(n.x - m.x) + abs(n.y - m.y) == 1
                &&& s.walkable(n.x as int, n.y as int)
                &&& !s.monster_at(n.x as int, n.y as int)
            }
        }),
{
    let post = monster_turn(s, i, px, py, p2pos, r).0;
    let m = s.monsters[i];
    let (tx, ty) = chase_target(m.x as int, m.y as int, px, py, p2pos);
    let (sx, sy) = chase_step(m.x as int, m.y as int, tx, ty);
    assert(abs(sx) + abs(sy) <= 1);
}

/// In multiplayer nobody loses the game: a fallen player respawns, so the
/// monsters' turn never ends a running game.
pub proof fn lemma_monster_turns_never_lose_multiplayer(pre: Scene, px: int, py: int, p2pos: Option<(int, int)>, rolls: Seq<(int, int, int)>)
    requires
        pre.multiplayer,
    ensures
        monster_turns(pre, px, py, p2pos, rolls).0.state == pre.state,
        !monster_turns(pre, px, py, p2pos, rolls).1,
        monster_turns(pre, px, py, p2pos, rolls).0.multiplayer,
    decreases rolls.len(),
{
    if rolls.len() > 0 {
        lemma_monster_turns_never_lose_multiplayer(pre, px, py, p2pos, rolls.drop_last());
    }
}

/// No two living monsters share a cell.
pub open spec fn monsters_apart(s: Scene) -> bool {
    forall|i: int, j: int| 0 <= i < s.monsters.len() && 0 <= j < s.monsters.len() && i != j
        && (#[trigger] s.monsters[i]).living() && (#[trigger] s.monsters[j]).living()
        ==> !(s.monsters[i].x == s.monsters[j].x && s.monsters[i].y == s.monsters[j].y)
}

/// Every living monster stands on a walkable cell.
pub open spec fn monsters_on_floor(s: Scene) -> bool {
    forall|i: int| 0 <= i < s.monsters.len() && (#[trigger] s.monsters[i]).living()
        ==> s.walkable(s.monsters[i].x as int, s.monsters[i].y as int)
}

/// No living monster stands on the first player's cell.
pub open spec fn off_first_player(s: Scene) -> bool {
    forall|i: int| 0 <= i < s.monsters.len() && (#[trigger] s.monsters[i]).living()
        ==> !(s.monsters[i].x == s.player.x && s.monsters[i].y == s.player.y)
}

/// `b` is `a`, except maybe where it stands; it moved only if `a` was alive,
/// and then by one cell along one axis.
pub open spec fn moved_at_most_one(a: Monster, b: Monster) -> bool {
    &&& b == Monster { x: b.x, y: b.y, ..a }
    &&& (b.x != a.x || b.y != a.y) ==> a.living() && abs(b.x - a.x) + abs(b.y - a.y) == 1
}

/// What the first `rolls.len()` monster turns keep: the tiles, the monsters
/// apart and on walkable cells, alone the first player where it stood and
/// free of monsters; each monster moved at most one cell, and those not yet
/// come are untouched.
proof fn lemma_turns_keep(pre: Scene, px: int, py: int, p2pos: Option<(int, int)>, rolls: Seq<(int, int, int)>)
    requires
        rolls.len() <= pre.monsters.len(),
        monsters_apart(pre),
        monsters_on_floor(pre),
        !pre.multiplayer && pre.player2 is None ==> px == pre.player.x && py == pre.player.y && off_first_player(pre),
    ensures
        ({
            let s = monster_turns(pre, px, py, p2pos, rolls).0;
            &&& s.grid == pre.grid
            &&& s.multiplayer == pre.multiplayer
            &&& s.monsters.len() == pre.monsters.len()
            &&& monsters_apart(s)
            &&& monsters_on_floor(s)
            &&& !pre.multiplayer && pre.player2 is None ==> s.player2 is None && s.player.x == pre.player.x
                && s.player.y == pre.player.y && off_first_player(s)
            &&& forall|k: int| 0 <= k < pre.monsters.len() ==> moved_at_most_one(pre.monsters[k], #[trigger] s.monsters[k])
            &&& forall|k: int| rolls.len() <= k < pre.monsters.len() ==> #[trigger] s.monsters[k] == pre.monsters[k]
        }),
    decreases rolls.len(),
{
    if rolls.len() > 0 {
        let rest = rolls.drop_last();
        lemma_turns_keep(pre, px, py, p2pos, rest);
        let (s, over) = monster_turns(pre, px, py, p2pos, rest);
        if !over {
            let i = rolls.len() - 1;
            let t = monster_turn(s, i, px, py, p2pos, rolls.last()).0;
            lemma_monster_turn_moves_one_free_cell(s, i, px, py, p2pos, rolls.last());
            assert(s.monsters[i] == pre.monsters[i]);
            let m = s.monsters[i];
            let (tx, ty) = chase_target(m.x as int, m.y as int, px, py, p2pos);
            let (sx, sy) = chase_step(m.x as int, m.y as int, tx, ty);
            let nx = m.x + sx;
            let ny = m.y + sy;
            if !m.living() || nx < 0 || ny < 0 || !s.walkable(nx, ny) || s.monster_at(nx, ny) {
            } else if nx == px && ny == py {
            } else if s.player2 is Some && s.player2.unwrap().x == nx && s.player2.unwrap().y == ny {
            } else {
                assert(t.monsters[i].x == nx && t.monsters[i].y == ny);
                assert forall|a: int, b: int| 0 <= a < t.monsters.len() && 0 <= b < t.monsters.len() && a != b
                    && (#[trigger] t.monsters[a]).living() && (#[trigger] t.monsters[b]).living()
                    implies !(t.monsters[a].x == t.monsters[b].x && t.monsters[a].y == t.monsters[b].y) by {
                    if a == i {
                        assert(s.monsters[b].living());
                    } else if b == i {
                        assert(s.monsters[a].living());
                    } else {
                        assert(s.monsters[a] == t.monsters[a] && s.monsters[b] == t.monsters[b]);
                    }
                }
                assert forall|k: int| 0 <= k < t.monsters.len() && (#[trigger] t.monsters[k]).living()
                    implies t.walkable(t.monsters[k].x as int, t.monsters[k].y as int) by {
                    if k != i {
                        assert(s.monsters[k] == t.monsters[k]);
                    }
                }
                if !pre.multiplayer && pre.player2 is None {
                    assert forall|k: int| 0 <= k < t.monsters.len() && (#[trigger] t.monsters[k]).living()
                        implies !(t.monsters[k].x == t.player.x && t.monsters[k].y == t.player.y) by {
                        if k != i {
                            assert(s.monsters[k] == t.monsters[k]);
                        }
                    }
                }
            }
        }
    }
}

/// The monsters' turn keeps living monsters apart and on walkable cells and,
/// in a game for one player alone, off the player's cell; it leaves the tiles as
/// they were, and each monster keeps its kind, hit points and flags and moves
/// at most one cell along one axis, and only while alive.
pub proof fn lemma_monsters_turn_keeps_order(pre: Scene, post: Scene)
    requires
        monsters_moved(pre, post),
        monsters_apart(pre),
        monsters_on_floor(pre),
        !pre.multiplayer && pre.player2 is None ==> off_first_player(pre),
    ensures
        monsters_apart(post),
        monsters_on_floor(post),
        !pre.multiplayer && pre.player2 is None ==> off_first_player(post),
        post.grid == pre.grid,
        post.monsters.len() == pre.monsters.len(),
        forall|k: int| 0 <= k < pre.monsters.len() ==> moved_at_most_one(pre.monsters[k], #[trigger] post.monsters[k]),
{
    let rolls = choose|rolls: Seq<(int, int, int)>| #[trigger] monsters_moved_with(pre, post, rolls);
    lemma_turns_keep(pre, pre.player.x as int, pre.player.y as int, p2_position(pre), rolls);
}

pub open spec fn manhattan(ax: int, ay: int, bx: int, by: int) -> int {
    abs(ax - bx) + abs(ay - by)
}

/// `b` is the monster `a` after its turn, with the players at `(px, py)` and
/// `p2pos`: if it moved, it came exactly one cell nearer, by Manhattan
/// distance, to the player nearer to it (the second player only when strictly
/// nearer).
pub open spec fn came_nearer(a: Monster, b: Monster, px: int, py: int, p2pos: Option<(int, int)>) -> bool {
    (b.x != a.x || b.y != a.y) ==> {
        let d1 = manhattan(a.x as int, a.y as int, px, py);
        match p2pos {
            Some((qx, qy)) => {
                let d2 = manhattan(a.x as int, a.y as int, qx, qy);
                if d2 < d1 {
                    manhattan(b.x as int, b.y as int, qx, qy) == d2 - 1
                } else {
                    manhattan(b.x as int, b.y as int, px, py) == d1 - 1
                }
            },
            None => manhattan(b.x as int, b.y as int, px, py) == d1 - 1,
        }
    }
}

proof fn lemma_step_nears(mx: int, my: int, tx: int, ty: int)
    requires
        chase_step(mx, my, tx, ty) != (0int, 0int),
    ensures
        manhattan(mx + chase_step(mx, my, tx, ty).0, my + chase_step(mx, my, tx, ty).1, tx, ty)
            == manhattan(mx, my, tx, ty) - 1,
{
}

/// Every monster's own turn: a monster that moved came one cell nearer to the
/// nearer player; monsters whose turn has not come are untouched.
proof fn lemma_turns_chase(pre: Scene, px: int, py: int, p2pos: Option<(int, int)>, rolls: Seq<(int, int, int)>)
    requires
        rolls.len() <= pre.monsters.len(),
    ensures
        ({
            let s = monster_turns(pre, px, py, p2pos, rolls).0;
            &&& s.monsters.len() == pre.monsters.len()
            &&& forall|k: int| 0 <= k < pre.monsters.len() ==> came_nearer(pre.monsters[k], #[trigger] s.monsters[k], px, py, p2pos)
            &&& forall|k: int| rolls.len() <= k < pre.monsters.len() ==> #[trigger] s.monsters[k] == pre.monsters[k]
        }),
    decreases rolls.len(),
{
    if rolls.len() > 0 {
        let rest = rolls.drop_last();
        lemma_turns_chase(pre, px, py, p2pos, rest);
        let (s, over) = monster_turns(pre, px, py, p2pos, rest);
        if !over {
            let i = rolls.len() - 1;
            let t = monster_turn(s, i, px, py, p2pos, rolls.last()).0;
            lemma_monster_turn_moves_one_free_cell(s, i, px, py, p2pos, rolls.last());
            assert(s.monsters[i] == pre.monsters[i]);
            let m = s.monsters[i];
            let (tx, ty) = chase_target(m.x as int, m.y as int, px, py, p2pos);
            let (sx, sy) = chase_step(m.x as int, m.y as int, tx, ty);
            if t.monsters[i].x != m.x || t.monsters[i].y != m.y {
                lemma_step_nears(m.x as int, m.y as int, tx, ty);
                assert(t.monsters[i].x == m.x + sx && t.monsters[i].y == m.y + sy);
            }
            assert forall|k: int| 0 <= k < pre.monsters.len() implies came_nearer(pre.monsters[k], #[trigger] t.monsters[k], px, py, p2pos) by {
                if k != i {
                    assert(t.monsters[k] == s.monsters[k]);
                }
            }
        }
    }
}

/// In the monsters' turn every monster that moves comes exactly one cell
/// nearer, by Manhattan distance, to the player nearer to it where the players
/// stood when the turn began: the first player, or the second player only
/// when strictly nearer.
pub proof fn lemma_monsters_chase_the_nearer_player(pre: Scene, post: Scene)
    requires
        monsters_moved(pre, post),
    ensures
        post.monsters.len() == pre.monsters.len(),
        forall|k: int| 0 <= k < pre.monsters.len() ==> came_nearer(pre.monsters[k], #[trigger] post.monsters[k],
            pre.player.x as int, pre.player.y as int, p2_position(pre)),
{
    let rolls = choose|rolls: Seq<(int, int, int)>| #[trigger] monsters_moved_with(pre, post, rolls);
    lemma_turns_chase(pre, pre.player.x as int, pre.player.y as int, p2_position(pre), rolls);
}

/// From level 7 down, every landed hit of a monster other than the Lich costs
/// its target the damage the same dice deal above level 7, plus 2: in the
/// monsters' turn, against either player, and in the strike back after a
/// player's blow. (A target brought down respawns or ends the game instead.)
pub proof fn lemma_deep_hits_in_play(s: Scene, m: Monster, r: (int, int, int), is_p2: bool, atk: Seq<char>, post: Scene)
    requires
        m.kind != MonsterKind::Lich,
        s.level >= 7,
        r.0 >= 4,
        d6(r.1),
        d6(r.2),
        hp_in_range(s.player.hp as int),
        s.player2 matches Some(p) ==> hp_in_range(p.hp as int),
        is_p2 ==> s.player2 is Some,
        struck_back(s, is_p2, m, atk, r.0, r.1, r.2, post),
    ensures
        ({
            let dmg = monster_damage(m.kind, r.1, r.2, s.multiplayer, 1) + 2;
            &&& s.player.hp - dmg > 0 ==> monster_hits_first(s, m, r).0.player.hp == s.player.hp - dmg
            &&& s.player2 matches Some(p) ==> (p.hp - dmg > 0 ==> monster_hits_second(s, m, r).player2.unwrap().hp == p.hp - dmg)
            &&& s.mover(is_p2).hp - dmg > 0 ==> post.mover(is_p2).hp == s.mover(is_p2).hp - dmg
        }),
{
    crate::combat::lemma_deep_levels_add_two(m.kind, r.1, r.2, s.multiplayer, s.level as int, 1);
    lemma_damage_bands(m.kind, r.1, r.2, s.multiplayer, s.level as int);
}

/// In multiplayer a player's step never loses the game: its state is kept,
/// except that the stairs of level 10 win it.
pub proof fn lemma_steps_never_lose_multiplayer(pre: Scene, is_p2: bool, dx: int, dy: int, post: Scene)
    requires
        pre.multiplayer,
        stepped(pre, is_p2, dx, dy, post),
    ensures
        post.state == pre.state || post.state == GameState::Victory,
        post.multiplayer,
{
    if is_p2 && pre.player2.is_none() {
    } else {
        let p = pre.mover(is_p2);
        let nx = p.x + dx;
        let ny = p.y + dy;
        if !pre.walkable(nx, ny) {
        } else if pre.monster_at(nx, ny) {
            let (idx, hit, dmg) = choose|idx: int, hit: int, dmg: int| pre.first_monster_at(nx, ny, idx) && d6(hit) && d6(dmg)
                && #[trigger] fought(pre, is_p2, idx, nx, ny, hit, dmg, post);
            let (p1, m1, atk) = player_attack_result(pre.mover(is_p2), pre.monsters[idx], hit, dmg);
            let s1 = Scene { monsters: pre.monsters.update(idx, m1), ..pre.with_mover(is_p2, p1) };
            if !m1.living() {
                let s2 = if m1.kind == MonsterKind::Lich { s1.with_tile(nx, ny, Tile::LichChest) } else { s1 };
                let s3 = s2.with_own_msg(is_p2, atk);
                if !s3.any_alive() {
                    let (x, y) = choose|x: int, y: int| #[trigger] stair_placed(s3, post, x, y);
                }
            } else if lich_flees(m1) {
                let text = atk + " "@ + vanish_text();
                let s3 = choose|s3: Scene| #[trigger] teleported(s1, idx, s3) && post == s3.with_msg(text).with_msg2(text);
                if !(forall|x: int, y: int| !#[trigger] teleport_candidate(s1, idx, x, y)) {
                    let (x, y) = choose|x: int, y: int| #[trigger] teleported_to(s1, idx, s3, x, y);
                }
            } else {
                let (h, d1, d2) = choose|h: int, d1: int, d2: int| d6(h) && d6(d1) && d6(d2) && #[trigger] struck_back(s1, is_p2, m1, atk, h, d1, d2, post);
            }
        } else {
            let moved = pre.with_mover(is_p2, Player { x: nx as usize, y: ny as usize, ..p });
            let t = cell(moved.grid, nx, ny);
            if t == Tile::Chest {
                let (roll, dmg) = choose|roll: int, dmg: int| 0 <= roll < 100 && d6(dmg) && post == #[trigger] chest_opened(moved, is_p2, roll, dmg);
            }
        }
    }
}

/// Positions and hit points of monsters spawned on a generated map stay small.
proof fn lemma_spawned_in_range(g: Grid, rooms: Seq<Room>, multiplayer: bool, level: int, ms: Seq<Monster>)
    requires
        monsters_spawned(g, rooms, multiplayer, level, ms),
        forall|i: int| 0 <= i < rooms.len() ==> drawn_room(#[trigger] rooms[i]),
        1 <= rooms.len(),
    ensures
        forall|i: int| 0 <= i < ms.len() ==> monster_in_range(#[trigger] ms[i]),
{
    assert forall|i: int| 0 <= i < ms.len() implies monster_in_range(#[trigger] ms[i]) by {
        if i < 3 {
            assert(regular_placed(g, rooms, multiplayer, ms, i));
            let r = room_for(i, rooms.len() as int);
            assert(drawn_room(rooms[r]));
        } else {
            assert(lich_placed(g, rooms, multiplayer, ms));
            assert(drawn_room(rooms[rooms.len() - 1]));
        }
    }
}

impl Game {
    /// The map is well formed and every number lies far from the ends of its
    /// type.
    pub open spec fn inv(&self) -> bool {
        &&& self.map.wf()
        &&& self@.in_range()
    }

    /// The spawn point of the current map.
    fn spawn_point(&self) -> (p: (usize, usize))
        requires
            self.map.wf(),
        ensures
            p.0 == spawn_point(self.map.rooms@).0,
            p.1 == spawn_point(self.map.rooms@).1,
            p.0 + 1 < MAP_WIDTH,
            p.1 < MAP_HEIGHT,
    {
        if self.map.rooms.len() > 0 {
            assert(self.map.rooms@[0].inside_map());
            self.map.rooms[0].center()
        } else {
            (1, 1)
        }
    }

    /// Whether any monster is alive.
    fn any_alive(&self) -> (b: bool)
        ensures
            b == self@.any_alive(),
    {
        let mut i: usize = 0;
        while i < self.monsters.len()
            invariant
                i <= self.monsters@.len(),
                forall|k: int| 0 <= k < i ==> !(#[trigger] self.monsters@[k]).living(),
            decreases self.monsters@.len() - i,
        {
            if self.monsters[i].is_alive() {
                assert(self@.monsters[i as int].living());
                return true;
            }
            i = i + 1;
        }
        false
    }

    fn respawn_player1(&mut self)
        requires
            old(self).map.wf(),
        ensures
            final(self)@ == respawn1(old(self)@),
            final(self).map == old(self).map,
            final(self).player.x < MAP_WIDTH && final(self).player.y < MAP_HEIGHT,
    {
        let (rx, ry) = self.spawn_point();
        self.player.x = rx;
        self.player.y = ry;
        let half = self.player.max_hp / 2;
        self.player.hp = if half >= 1 { half } else { 1 };
        assert(self@ =~~= respawn1(old(self)@));
    }

    fn respawn_player2(&mut self)
        requires
            old(self).map.wf(),
        ensures
            final(self)@ == respawn2(old(self)@),
            final(self).map == old(self).map,
            final(self).player2 matches Some(p) ==> p.x < MAP_WIDTH && p.y < MAP_HEIGHT,
    {
        let (rx, ry) = self.spawn_point();
        match &mut self.player2 {
            Some(p2) => {
                p2.x = rx + 1;
                p2.y = ry;
                p2.hp = p2.max_hp / 2;
            },
            None => {},
        }
        self.status_msg = String::from_str("P2 was defeated and respawned!");
        assert(self@ =~~= respawn2(old(self)@));
    }

    /// Both players (those present) back at full hit points.
    fn heal_all(&mut self)
        ensures
            final(self)@ == old(self)@.healed(),
            final(self).map == old(self).map,
    {
        self.player.hp = self.player.max_hp;
        match &mut self.player2 {
            Some(p2) => {
                p2.hp = p2.max_hp;
            },
            None => {},
        }
        assert(self@ =~~= old(self)@.healed());
    }

    /// Opens the chest a slain Lich left, under the second player when `is_p2`
    /// and else under the first: everyone is fully healed and the chest
    /// becomes floor.
    pub fn open_lich_chest(&mut self, is_p2: bool)
        requires
            old(self).inv(),
            is_p2 ==> old(self).player2.is_some(),
        ensures
            final(self)@ == lich_chest_opened(old(self)@, is_p2),
            final(self).map.wf(),
            final(self)@.settled(),
    {
        let (nx, ny) = if is_p2 {
            let p = self.player2.unwrap();
            (p.x, p.y)
        } else {
            (self.player.x, self.player.y)
        };
        self.heal_all();
        let msg = String::from_str("The Lich's essence becomes a healing light! All players are fully restored!");
        self.status_msg = msg.clone();
        self.status_msg2 = msg;
        self.map.set(nx, ny, Tile::Floor);
        assert(self@ =~~= lich_chest_opened(old(self)@, is_p2));
    }

    /// Opens the chest under the second player when `is_p2`, else under the
    /// first: a roll of 0 to 99 decides between food, a trap and nothing (see
    /// `chest_opened`), and a trap's damage is one die.
    pub fn open_chest(&mut self, is_p2: bool)
        requires
            old(self).inv(),
            is_p2 ==> old(self).player2.is_some(),
        ensures
            exists|roll: int, dmg: int| 0 <= roll < 100 && d6(dmg)
                && final(self)@ == chest_opened(old(self)@, is_p2, roll, dmg),
            final(self).map.wf(),
            final(self)@.settled(),
    {
        let ghost pre = self@;
        let (nx, ny) = if is_p2 {
            let p = self.player2.unwrap();
            (p.x, p.y)
        } else {
            (self.player.x, self.player.y)
        };
        let roll = draw(&mut self.rng, 0, 100);
        let mut damage: i32 = 1;
        if roll < 40 {
            let food_msg = if self.player2.is_some() {
                String::from_str("The chest contains food! Both players are fully healed!")
            } else {
                let mut s = String::from_str("The chest contains food! You are fully healed! (");
                s.append(i32_string(self.player.max_hp).as_str());
                s.append(" HP)");
                s
            };
            self.heal_all();
            self.status_msg = food_msg.clone();
            self.status_msg2 = food_msg;
        } else if roll < 65 {
            damage = roll_d6(&mut self.rng);
            if is_p2 {
                let mut p2 = self.player2.unwrap();
                p2.hp = p2.hp - damage;
                let hp_after = p2.hp;
                self.player2 = Some(p2);
                if hp_after <= 0 {
                    self.respawn_player2();
                    self.status_msg2 = String::from_str("The chest was a trap! You were defeated and respawned!");
                } else {
                    let mut s = String::from_str("The chest was a trap! You take ");
                    s.append(i32_string(damage).as_str());
                    s.append(" damage! (");
                    s.append(i32_string(if hp_after >= 0 { hp_after } else { 0 }).as_str());
                    s.append(" HP left)");
                    self.status_msg2 = s;
                }
            } else {
                self.player.hp = self.player.hp - damage;
                if self.player.hp <= 0 {
                    if self.multiplayer {
                        self.respawn_player1();
                        self.status_msg = String::from_str("The chest was a trap! You were defeated and respawned!");
                    } else {
                        self.state = GameState::GameOver;
                        self.status_msg = String::from_str("The chest was a trap! You have perished in Dagger Deep.");
                    }
                } else {
                    let hp = self.player.hp;
                    let mut s = String::from_str("The chest was a trap! You take ");
                    s.append(i32_string(damage).as_str());
                    s.append(" damage! (");
                    s.append(i32_string(if hp >= 0 { hp } else { 0 }).as_str());
                    s.append(" HP left)");
                    self.status_msg = s;
                }
            }
        } else if is_p2 {
            self.status_msg2 = String::from_str("The chest was empty.");
        } else {
            self.status_msg = String::from_str("The chest was empty.");
        }
        assert(self@.settled());
        self.map.set(nx, ny, Tile::Floor);
        assert(self@ =~~= chest_opened(pre, is_p2, roll as int, damage as int));
    }

    /// When no monster is left alive, reveals the stairs on a random
    /// candidate cell (see `stair_revealed`).
    pub fn try_spawn_stair(&mut self)
        requires
            old(self).map.wf(),
        ensures
            stair_revealed(old(self)@, final(self)@),
            final(self).map.wf(),
            final(self).map.rooms@ == old(self).map.rooms@,
            final(self).player == old(self).player,
            final(self).player2 == old(self).player2,
            final(self).monsters@ == old(self).monsters@,
            final(self).state == old(self).state,
            old(self)@.any_alive() ==> final(self).rng == old(self).rng,
    {
        if self.any_alive() {
            return;
        }
        let ghost pre = self@;
        proof {
            lemma_grid_cells(&self.map);
        }
        broadcast use vstd::seq_lib::lemma_seq_contains_after_push;
        let mut candidates: Vec<(usize, usize)> = Vec::new();
        let mut y: usize = 0;
        while y < MAP_HEIGHT
            invariant
                self@ == pre,
                self.map.wf(),
                self.map.holds(pre.grid),
                y <= MAP_HEIGHT,
                forall|k: int| 0 <= k < candidates@.len() ==> stair_candidate(pre, (#[trigger] candidates@[k]).0 as int, candidates@[k].1 as int),
                forall|i: int, j: int| 0 <= j < y && stair_candidate(pre, i, j) ==>
                    candidates@.contains((i as usize, j as usize)),
            decreases MAP_HEIGHT - y,
        {
            let mut x: usize = 0;
            while x < MAP_WIDTH
                invariant
                    self@ == pre,
                    self.map.wf(),
                    self.map.holds(pre.grid),
                    y < MAP_HEIGHT,
                    x <= MAP_WIDTH,
                    forall|k: int| 0 <= k < candidates@.len() ==> stair_candidate(pre, (#[trigger] candidates@[k]).0 as int, candidates@[k].1 as int),
                    forall|i: int, j: int| (0 <= j < y || (j == y && 0 <= i < x)) && stair_candidate(pre, i, j) ==>
                        candidates@.contains((i as usize, j as usize)),
                decreases MAP_WIDTH - x,
            {
                let ghost before = candidates@;
                let t = self.map.get(x, y);
                if self.map.is_walkable(x, y) && !(x == self.player.x && y == self.player.y)
                    && t != Tile::Stair && t != Tile::Potion && t != Tile::Chest && t != Tile::LichChest
                {
                    candidates.push((x, y));
                    proof {
                        assert(candidates@ == before.push((x, y)));
                    }
                }
                proof {
                    assert forall|i: int, j: int| (0 <= j < y || (j == y && 0 <= i < x + 1)) && stair_candidate(pre, i, j)
                        implies candidates@.contains((i as usize, j as usize)) by {
                        if j == y && i == x {
                            assert(self.map.tile_at(i, j) == cell(pre.grid, i, j));
                            assert(candidates@.len() == before.len() + 1);
                            assert(candidates@[before.len() as int] == (i as usize, j as usize));
                        } else {
                            assert(before.contains((i as usize, j as usize)));
                            let k = choose|k: int| 0 <= k < before.len() && before[k] == (i as usize, j as usize);
                            assert(candidates@[k] == (i as usize, j as usize));
                        }
                    }
                }
                x = x + 1;
            }
            y = y + 1;
        }
        let (sx, sy) = if candidates.len() == 0 {
            proof {
                assert forall|i: int, j: int| !#[trigger] stair_candidate(pre, i, j) by {
                    if stair_candidate(pre, i, j) {
                        assert(candidates@.contains((i as usize, j as usize)));
                    }
                }
            }
            (self.player.x, self.player.y)
        } else {
            let pick = draw(&mut self.rng, 0, candidates.len());
            candidates[pick]
        };
        proof {
            if candidates@.len() > 0 {
                assert(candidates@.contains((sx, sy)));
                assert(stair_candidate(pre, sx as int, sy as int));
            }
        }
        self.map.set(sx, sy, Tile::Stair);
        self.status_msg = String::from_str("The way down is revealed...");
        assert(self@ =~~= pre.with_tile(sx as int, sy as int, Tile::Stair).with_msg(stair_text()));
        assert(stair_placed(pre, self@, sx as int, sy as int));
    }

    /// Moves the monster at `monster_idx` to a random cell that is free of
    /// players and other living monsters, and marks it as teleported (see
    /// `teleported`).
    fn teleport_lich(&mut self, monster_idx: usize)
        requires
            old(self).map.wf(),
            monster_idx < old(self).monsters@.len(),
        ensures
            teleported(old(self)@, monster_idx as int, final(self)@),
            final(self).map == old(self).map,
            final(self).monsters@.len() == old(self).monsters@.len(),
    {
        let ghost pre = self@;
        proof {
            lemma_grid_cells(&self.map);
        }
        broadcast use vstd::seq_lib::lemma_seq_contains_after_push;
        let mut candidates: Vec<(usize, usize)> = Vec::new();
        let mut y: usize = 0;
        while y < MAP_HEIGHT
            invariant
                self@ == pre,
                self.map.wf(),
                self.map.holds(pre.grid),
                monster_idx < pre.monsters.len(),
                y <= MAP_HEIGHT,
                forall|k: int| 0 <= k < candidates@.len() ==> teleport_candidate(pre, monster_idx as int, (#[trigger] candidates@[k]).0 as int, candidates@[k].1 as int),
                forall|i: int, j: int| 0 <= j < y && teleport_candidate(pre, monster_idx as int, i, j) ==>
                    candidates@.contains((i as usize, j as usize)),
            decreases MAP_HEIGHT - y,
        {
            let mut x: usize = 0;
            while x < MAP_WIDTH
                invariant
                    self@ == pre,
                    self.map.wf(),
                    self.map.holds(pre.grid),
                    monster_idx < pre.monsters.len(),
                    y < MAP_HEIGHT,
                    x <= MAP_WIDTH,
                    forall|k: int| 0 <= k < candidates@.len() ==> teleport_candidate(pre, monster_idx as int, (#[trigger] candidates@[k]).0 as int, candidates@[k].1 as int),
                    forall|i: int, j: int| (0 <= j < y || (j == y && 0 <= i < x)) && teleport_candidate(pre, monster_idx as int, i, j) ==>
                        candidates@.contains((i as usize, j as usize)),
                decreases MAP_WIDTH - x,
            {
                let free_of_p2 = match &self.player2 {
                    Some(p) => !(p.x == x && p.y == y),
                    None => true,
                };
                let ghost before = candidates@;
                if self.map.is_walkable(x, y) && !(x == self.player.x && y == self.player.y) && free_of_p2
                    && !self.other_monster_at(monster_idx, x, y)
                {
                    candidates.push((x, y));
                    proof {
                        assert(candidates@ == before.push((x, y)));
                    }
                }
                proof {
                    assert forall|i: int, j: int| (0 <= j < y || (j == y && 0 <= i < x + 1)) && teleport_candidate(pre, monster_idx as int, i, j)
                        implies candidates@.contains((i as usize, j as usize)) by {
                        if j == y && i == x {
                            assert(self.map.tile_at(i, j) == cell(pre.grid, i, j));
                            assert(candidates@.len() == before.len() + 1);
                            assert(candidates@[before.len() as int] == (i as usize, j as usize));
                        } else {
                            assert(before.contains((i as usize, j as usize)));
                            let k = choose|k: int| 0 <= k < before.len() && before[k] == (i as usize, j as usize);
                            assert(candidates@[k] == (i as usize, j as usize));
                        }
                    }
                }
                x = x + 1;
            }
            y = y + 1;
        }
        if candidates.len() == 0 {
            proof {
                assert forall|i: int, j: int| !#[trigger] teleport_candidate(pre, monster_idx as int, i, j) by {
                    if teleport_candidate(pre, monster_idx as int, i, j) {
                        assert(candidates@.contains((i as usize, j as usize)));
                    }
                }
            }
            return;
        }
        let pick = draw(&mut self.rng, 0, candidates.len());
        let (tx, ty) = candidates[pick];
        let mut m = self.monsters[monster_idx];
        m.x = tx;
        m.y = ty;
        m.teleported = true;
        self.monsters.set(monster_idx, m);
        proof {
            assert(teleport_candidate(pre, monster_idx as int, tx as int, ty as int));
        }
        assert(self@ =~~= Scene {
            monsters: pre.monsters.update(monster_idx as int, Monster { x: tx, y: ty, teleported: true, ..pre.monsters[monster_idx as int] }),
            ..pre
        });
        assert(teleported_to(pre, monster_idx as int, self@, tx as int, ty as int));
    }

    /// Whether a living monster other than the one at `skip` stands at `(x, y)`.
    fn other_monster_at(&self, skip: usize, x: usize, y: usize) -> (b: bool)
        ensures
            b == exists|i: int| 0 <= i < self.monsters@.len() && i != skip && (#[trigger] self.monsters@[i]).living()
                && self.monsters@[i].x == x && self.monsters@[i].y == y,
    {
        let mut i: usize = 0;
        while i < self.monsters.len()
            invariant
                i <= self.monsters@.len(),
                forall|k: int| 0 <= k < i && k != skip && (#[trigger] self.monsters@[k]).living()
                    ==> !(self.monsters@[k].x == x && self.monsters@[k].y == y),
            decreases self.monsters@.len() - i,
        {
            if i != skip && self.monsters[i].is_alive() && self.monsters[i].x == x && self.monsters[i].y == y {
                return true;
            }
            i = i + 1;
        }
        false
    }

    /// Installs a freshly generated, freshly stocked dungeon for `level`.
    fn stock_level(&mut self, level: u8)
        requires
            old(self).map.wf(),
        ensures
            final(self).level == level,
            final(self).map.wf(),
            level_stocked(final(self)@, level as int),
            final(self).player == (Player {
                x: spawn_point(final(self).map.rooms@).0 as usize,
                y: spawn_point(final(self).map.rooms@).1 as usize,
                ..old(self).player
            }),
            final(self).player2 == p2_beside(old(self).player2, spawn_point(final(self).map.rooms@).0, spawn_point(final(self).map.rooms@).1),
            final(self).state == old(self).state,
            final(self).multiplayer == old(self).multiplayer,
            final(self).status_msg@ == old(self).status_msg@,
            final(self).status_msg2@ == old(self).status_msg2@,
            forall|i: int| 0 <= i < final(self).monsters@.len() ==> monster_in_range(#[trigger] final(self).monsters@[i]),
            final(self).player.x < MAP_WIDTH && final(self).player.y < MAP_HEIGHT,
    {
        self.level = level;
        self.map = generate(&mut self.rng);
        let ghost rooms = self.map.rooms@;
        proof {
            lemma_layout_full(rooms);
            lemma_grid_is(&self.map, lay_out(rooms));
        }
        let (px, py) = self.spawn_point();
        self.player.x = px;
        self.player.y = py;
        match &mut self.player2 {
            Some(p2) => {
                p2.x = px + 1;
                p2.y = py;
            },
            None => {},
        }
        self.monsters = spawn_monsters(&self.map, &mut self.rng, self.multiplayer, level);
        let mut players: Vec<(usize, usize)> = Vec::new();
        players.push((self.player.x, self.player.y));
        match &self.player2 {
            Some(p2) => players.push((p2.x, p2.y)),
            None => {},
        }
        assert(players@ =~= player_cells(self.player, self.player2));
        let ghost base = self.map.grid();
        spawn_potions(&mut self.map, &mut self.rng, &self.monsters, &players);
        let ghost with_potions = self.map.grid();
        spawn_chests(&mut self.map, &mut self.rng, &self.monsters);
        proof {
            lemma_spawned_in_range(base, rooms, self.multiplayer, level as int, self.monsters@);
            assert(potions_placed(base, self.monsters@, player_cells(self.player, self.player2), with_potions) && chests_placed(with_potions, self.monsters@, self.map.grid()));
            let post = self@;
            assert(potions_placed(lay_out(post.rooms), post.monsters, player_cells(post.player, post.player2), with_potions)
                && chests_placed(with_potions, post.monsters, post.grid));
        }
    }

    /// Goes one level deeper (saturating at 255): see `next_level_entered`.
    pub fn next_level(&mut self)
        requires
            old(self).map.wf(),
        ensures
            next_level_entered(old(self)@, final(self)@),
            final(self).map.wf(),
            old(self)@.in_range() ==> final(self).inv(),
            old(self)@.within(loose()) ==> final(self)@.within(loose()),
    {
        let level = self.level.saturating_add(1);
        self.stock_level(level);
        let ghost s1 = self@;
        let mut msg = String::from_str("Level ");
        msg.append(u8_string(self.level).as_str());
        msg.append(". Deeper into Dagger Deep...");
        self.status_msg = msg;
        self.status_msg2 = self.status_msg.clone();
        let ghost post = self@;
        assert(post.level == deeper(old(self)@.level));
        assert(level_stocked(post, post.level as int)) by {
            let g = choose|g: Grid| #[trigger] potions_placed(lay_out(s1.rooms), s1.monsters, player_cells(s1.player, s1.player2), g)
                && chests_placed(g, s1.monsters, s1.grid);
            assert(potions_placed(lay_out(post.rooms), post.monsters, player_cells(post.player, post.player2), g));
        }
        assert(post.msg == level_text(post.level));
    }

    /// A new game on a fresh dungeon, for one player or, with `multiplayer`,
    /// two (see `game_started`).
    pub fn new(multiplayer: bool) -> (g: Game)
        ensures
            game_started(g@, multiplayer),
            g.inv(),
    {
        let mut rng = entropy_rng();
        let map = generate(&mut rng);
        let mut game = Game {
            state: GameState::Playing,
            map,
            player: Player::new(0, 0),
            player2: if multiplayer { Some(Player::new(0, 0)) } else { None },
            monsters: Vec::new(),
            level: 1,
            status_msg: String::from_str("Welcome to Dagger Deep!"),
            status_msg2: String::from_str("Welcome to Dagger Deep!"),
            multiplayer,
            rng,
        };
        game.stock_level(1);
        game
    }

    /// The first living monster at `(x, y)`, if any.
    fn find_monster_at(&self, x: usize, y: usize) -> (r: Option<usize>)
        ensures
            r matches Some(idx) ==> self@.first_monster_at(x as int, y as int, idx as int),
            r is None ==> !self@.monster_at(x as int, y as int),
    {
        let mut i: usize = 0;
        while i < self.monsters.len()
            invariant
                i <= self.monsters@.len(),
                forall|k: int| 0 <= k < i ==> !((#[trigger] self@.monsters[k]).living() && self@.monsters[k].x == x && self@.monsters[k].y == y),
            decreases self.monsters@.len() - i,
        {
            if self.monsters[i].is_alive() && self.monsters[i].x == x && self.monsters[i].y == y {
                return Some(i);
            }
            i = i + 1;
        }
        None
    }

    /// The moving player.
    fn mover(&self, is_p2: bool) -> (p: Player)
        requires
            is_p2 ==> self.player2.is_some(),
        ensures
            p == self@.mover(is_p2),
    {
        if is_p2 { self.player2.unwrap() } else { self.player }
    }

    fn set_mover(&mut self, is_p2: bool, p: Player)
        ensures
            final(self)@ == old(self)@.with_mover(is_p2, p),
            final(self).map == old(self).map,
            final(self).monsters@ == old(self).monsters@,
    {
        if is_p2 {
            self.player2 = Some(p);
        } else {
            self.player = p;
        }
        assert(self@ =~~= old(self)@.with_mover(is_p2, p));
    }

    fn set_own_msg(&mut self, is_p2: bool, m: String)
        ensures
            final(self)@ == old(self)@.with_own_msg(is_p2, m@),
            final(self).map == old(self).map,
    {
        if is_p2 {
            self.status_msg2 = m;
        } else {
            self.status_msg = m;
        }
        assert(self@ =~~= old(self)@.with_own_msg(is_p2, m@));
    }

    /// The moving player attacks the monster at `idx` on `(x, y)`; see `fought`.
    fn fight(&mut self, is_p2: bool, idx: usize, x: usize, y: usize)
        requires
            old(self).inv(),
            is_p2 ==> old(self).player2.is_some(),
            old(self)@.first_monster_at(x as int, y as int, idx as int),
        ensures
            exists|hit: int, dmg: int| d6(hit) && d6(dmg) && #[trigger] fought(old(self)@, is_p2, idx as int, x as int, y as int, hit, dmg, final(self)@),
            final(self).map.wf(),
            final(self)@.settled(),
    {
        let ghost pre = self@;
        let mut p = self.mover(is_p2);
        let mut mon = self.monsters[idx];
        proof {
            assert(monster_in_range(pre.monsters[idx as int]));
        }
        let atk = resolve_player_attack(&mut p, &mut mon, &mut self.rng);
        let ghost (hit, dmg) = choose|hit: int, dmg: int| d6(hit) && d6(dmg)
            && (p, mon, atk@) == player_attack_result(pre.mover(is_p2), pre.monsters[idx as int], hit, dmg);
        self.set_mover(is_p2, p);
        self.monsters.set(idx, mon);
        let ghost s1 = self@;
        assert(s1 =~~= Scene { monsters: pre.monsters.update(idx as int, mon), ..pre.with_mover(is_p2, p) });
        assert(s1.within(loose()));
        if !mon.is_alive() {
            self.after_slaying(is_p2, mon, atk, x, y);
            assert(fought(pre, is_p2, idx as int, x as int, y as int, hit, dmg, self@));
        } else if mon.kind == MonsterKind::Lich && !mon.teleported && mon.hp <= mon.max_hp / 4 {
            assert(lich_flees(mon));
            self.lich_escape(idx, atk);
            assert(fought(pre, is_p2, idx as int, x as int, y as int, hit, dmg, self@));
        } else {
            assert(!lich_flees(mon));
            self.strike_back(is_p2, mon, atk);
            let ghost post = self@;
            let ghost (h, d1, d2) = choose|h: int, d1: int, d2: int| d6(h) && d6(d1) && d6(d2) && #[trigger] struck_back(s1, is_p2, mon, atk@, h, d1, d2, post);
            assert(struck_back(s1, is_p2, mon, atk@, h, d1, d2, self@));
            let ghost trip = player_attack_result(pre.mover(is_p2), pre.monsters[idx as int], hit, dmg);
            assert(trip.1 == mon);
            assert(trip.2 == atk@);
            assert(fought(pre, is_p2, idx as int, x as int, y as int, hit, dmg, self@));
        }
    }

    fn after_slaying(&mut self, is_p2: bool, m: Monster, atk: String, x: usize, y: usize)
        requires
            old(self).map.wf(),
            old(self)@.within(loose()),
        ensures
            slain(old(self)@, is_p2, m, atk@, x as int, y as int, final(self)@),
            final(self).map.wf(),
            final(self)@.within(loose()),
    {
        if m.kind == MonsterKind::Lich {
            self.map.set(x, y, Tile::LichChest);
        }
        self.set_own_msg(is_p2, atk);
        self.try_spawn_stair();
    }

    fn lich_escape(&mut self, idx: usize, atk: String)
        requires
            old(self).map.wf(),
            old(self)@.within(loose()),
            idx < old(self).monsters@.len(),
        ensures
            fled(old(self)@, idx as int, atk@, final(self)@),
            final(self).map.wf(),
            final(self)@.within(loose()),
    {
        self.teleport_lich(idx);
        let ghost s3 = self@;
        let mut text = atk;
        text.append(" ");
        text.append("The Lich vanishes in a flash of dark magic!");
        self.status_msg = text.clone();
        self.status_msg2 = text;
        assert(self@ =~~= s3.with_msg(atk@ + " "@ + vanish_text()).with_msg2(atk@ + " "@ + vanish_text()));
    }

    fn strike_back(&mut self, is_p2: bool, mon: Monster, atk: String)
        requires
            old(self).map.wf(),
            old(self)@.within(loose()),
            is_p2 ==> old(self).player2.is_some(),
        ensures
            exists|h: int, d1: int, d2: int| d6(h) && d6(d1) && d6(d2) && #[trigger] struck_back(old(self)@, is_p2, mon, atk@, h, d1, d2, final(self)@),
            final(self).map.wf(),
            final(self)@.settled(),
    {
        let ghost s1 = self@;
        let p = self.mover(is_p2);
        let mut q = p;
        let (def, died) = resolve_monster_attack(&mon, &mut q, &mut self.rng, self.multiplayer, self.level);
        let ghost (h, d1, d2) = choose|h: int, d1: int, d2: int| d6(h) && d6(d1) && d6(d2)
            && (q, def@, died) == monster_attack_result(mon, p, h, d1, d2, s1.multiplayer, s1.level as int);
        proof {
            lemma_damage_bands(mon.kind, d1, d2, s1.multiplayer, s1.level as int);
        }
        self.set_mover(is_p2, q);
        let mut text = atk;
        text.append(" ");
        text.append(def.as_str());
        self.set_own_msg(is_p2, text);
        if died {
            if is_p2 {
                self.respawn_player2();
                self.status_msg2 = String::from_str("You were defeated and respawned!");
            } else if self.multiplayer {
                self.respawn_player1();
                self.status_msg = String::from_str("You were defeated and respawned!");
            } else {
                self.state = GameState::GameOver;
            }
        }
        assert(struck_back(s1, is_p2, mon, atk@, h, d1, d2, self@)) by {
            let s3 = s1.with_mover(is_p2, q).with_own_msg(is_p2, atk@ + " "@ + def@);
            if died && !is_p2 && !s1.multiplayer {
                assert(self@ =~~= Scene { state: GameState::GameOver, ..s3 });
            } else if died && is_p2 {
                assert(self@ =~~= respawn2(s3).with_msg2(defeat_text()));
            } else if died {
                assert(self@ =~~= respawn1(s3).with_msg(defeat_text()));
            } else {
                assert(self@ =~~= s3);
            }
        }
    }

    /// A step of the first player (when `is_p2` is false) or of the second.
    fn step(&mut self, is_p2: bool, dx: i32, dy: i32)
        requires
            old(self).inv(),
            !is_p2 || old(self).player2.is_some() ==> i32::MIN <= old(self)@.mover(is_p2).x + dx <= i32::MAX,
            !is_p2 || old(self).player2.is_some() ==> i32::MIN <= old(self)@.mover(is_p2).y + dy <= i32::MAX,
        ensures
            stepped(old(self)@, is_p2, dx as int, dy as int, final(self)@),
            final(self).map.wf(),
            final(self)@.settled(),
            old(self)@.blocked(is_p2, dx as int, dy as int) ==> final(self).rng == old(self).rng,
    {
        let ghost pre = self@;
        if is_p2 && self.player2.is_none() {
            return;
        }
        let p = self.mover(is_p2);
        let nx = p.x as i32 + dx;
        let ny = p.y as i32 + dy;
        if nx < 0 || ny < 0 || nx >= MAP_WIDTH as i32 || ny >= MAP_HEIGHT as i32 {
            return;
        }
        let nx = nx as usize;
        let ny = ny as usize;
        if !self.map.is_walkable(nx, ny) {
            proof {
                lemma_grid_cells(&self.map);
            }
            return;
        }
        proof {
            lemma_grid_cells(&self.map);
        }
        match self.find_monster_at(nx, ny) {
            Some(idx) => {
                self.fight(is_p2, idx, nx, ny);
                return;
            },
            None => {},
        }
        let mut moved = p;
        moved.x = nx;
        moved.y = ny;
        self.set_mover(is_p2, moved);
        let ghost m = self@;
        let t = self.map.get(nx, ny);
        if t == Tile::Potion {
            let mut q = moved;
            q.hp = q.max_hp;
            self.set_mover(is_p2, q);
            self.map.set(nx, ny, Tile::Floor);
            let mut text = String::from_str("You drank a potion and feel restored! (");
            text.append(i32_string(q.hp).as_str());
            text.append(" HP)");
            self.set_own_msg(is_p2, text);
            assert(self@ =~~= m.with_mover(is_p2, Player { hp: moved.max_hp, ..moved }).with_tile(nx as int, ny as int, Tile::Floor)
                .with_own_msg(is_p2, potion_text(moved.max_hp as int)));
        } else if t == Tile::Chest {
            self.open_chest(is_p2);
        } else if t == Tile::LichChest {
            self.open_lich_chest(is_p2);
        } else if t == Tile::Stair {
            if self.level == 10 {
                self.state = GameState::Victory;
                assert(self@ =~~= Scene { state: GameState::Victory, ..m });
            } else {
                self.status_msg = String::from_str("The stairs lead deeper into the dungeon...");
                self.next_level();
            }
        }
    }

    /// Moves the first player by `(dx, dy)`; see `stepped`.
    pub fn move_player(&mut self, dx: i32, dy: i32)
        requires
            old(self).inv(),
            i32::MIN <= old(self).player.x + dx <= i32::MAX,
            i32::MIN <= old(self).player.y + dy <= i32::MAX,
        ensures
            stepped(old(self)@, false, dx as int, dy as int, final(self)@),
            final(self).map.wf(),
            final(self)@.settled(),
            old(self)@.blocked(false, dx as int, dy as int) ==> final(self).rng == old(self).rng,
    {
        self.step(false, dx, dy)
    }

    /// Moves the second player, if present, by `(dx, dy)`; see `stepped`.
    pub fn move_player2(&mut self, dx: i32, dy: i32)
        requires
            old(self).inv(),
            old(self).player2 matches Some(p) ==> i32::MIN <= p.x + dx <= i32::MAX && i32::MIN <= p.y + dy <= i32::MAX,
        ensures
            stepped(old(self)@, true, dx as int, dy as int, final(self)@),
            final(self).map.wf(),
            final(self)@.settled(),
            old(self)@.blocked(true, dx as int, dy as int) ==> final(self).rng == old(self).rng,
    {
        self.step(true, dx, dy)
    }

    /// Whether a living monster stands at `(x, y)`.
    fn monster_stands_at(&self, x: usize, y: usize) -> (b: bool)
        ensures
            b == self@.monster_at(x as int, y as int),
    {
        match self.find_monster_at(x, y) {
            Some(_) => true,
            None => false,
        }
    }

    /// The monster `m` attacks the first player; see `monster_hits_first`.
    fn monster_hits_p1(&mut self, m: Monster) -> (over: bool)
        requires
            old(self).map.wf(),
            old(self)@.within(loose()),
        ensures
            exists|r: (int, int, int)| d6(r.0) && d6(r.1) && d6(r.2) && #[trigger] monster_hits_first(old(self)@, m, r) == (final(self)@, over),
            final(self).monsters@ == old(self).monsters@,
            final(self).map == old(self).map,
            !over ==> final(self)@.within(loose()),
            over ==> final(self).state == GameState::GameOver,
    {
        let ghost before = self@;
        let (msg, died) = resolve_monster_attack(&m, &mut self.player, &mut self.rng, self.multiplayer, self.level);
        let ghost (h, d1, d2) = choose|h: int, d1: int, d2: int| d6(h) && d6(d1) && d6(d2)
            && (self.player, msg@, died) == monster_attack_result(m, before.player, h, d1, d2, before.multiplayer, before.level as int);
        let ghost hit = Scene { player: self.player, ..before }.with_msg(msg@);
        proof {
            lemma_damage_bands(m.kind, d1, d2, before.multiplayer, before.level as int);
            if before.rooms.len() > 0 {
                assert(before.rooms[0].inside_map());
            }
        }
        self.status_msg = msg;
        assert(self@ =~~= hit);
        if died {
            if self.multiplayer {
                self.respawn_player1();
                self.status_msg = String::from_str("You were defeated and respawned!");
                assert(self@ =~~= respawn1(hit).with_msg(defeat_text()));
            } else {
                self.state = GameState::GameOver;
                assert(self@ =~~= Scene { state: GameState::GameOver, ..hit });
                assert(monster_hits_first(before, m, (h, d1, d2)) == (self@, true));
                return true;
            }
        }
        assert(monster_hits_first(before, m, (h, d1, d2)) == (self@, false));
        false
    }

    /// The monster `m` attacks the second player; see `monster_hits_second`.
    fn monster_hits_p2(&mut self, m: Monster)
        requires
            old(self).map.wf(),
            old(self)@.within(loose()),
            old(self).player2.is_some(),
        ensures
            exists|r: (int, int, int)| d6(r.0) && d6(r.1) && d6(r.2) && #[trigger] monster_hits_second(old(self)@, m, r) == final(self)@,
            final(self).monsters@ == old(self).monsters@,
            final(self).map == old(self).map,
            final(self)@.within(loose()),
    {
        let ghost before = self@;
        let mut q = self.player2.unwrap();
        let (msg, died) = resolve_monster_attack(&m, &mut q, &mut self.rng, self.multiplayer, self.level);
        let ghost (h, d1, d2) = choose|h: int, d1: int, d2: int| d6(h) && d6(d1) && d6(d2)
            && (q, msg@, died) == monster_attack_result(m, before.player2.unwrap(), h, d1, d2, before.multiplayer, before.level as int);
        let ghost hit = Scene { player2: Some(q), ..before }.with_msg2(msg@);
        proof {
            lemma_damage_bands(m.kind, d1, d2, before.multiplayer, before.level as int);
            if before.rooms.len() > 0 {
                assert(before.rooms[0].inside_map());
            }
        }
        self.player2 = Some(q);
        self.status_msg2 = msg;
        assert(self@ =~~= hit);
        if died {
            self.respawn_player2();
            self.status_msg2 = String::from_str("You were defeated and respawned!");
            assert(self@ =~~= respawn2(hit).with_msg2(defeat_text()));
        }
        assert(monster_hits_second(before, m, (h, d1, d2)) == self@);
    }

    /// The turn of the monster at `i` (see `monster_turn`); returns whether the
    /// game ended.
    #[verifier::rlimit(40)]
    fn monster_act(&mut self, i: usize, px: usize, py: usize, p2_pos: Option<(usize, usize)>) -> (over: bool)
        requires
            old(self).map.wf(),
            old(self)@.within(loose()),
            i < old(self).monsters@.len(),
            coord_in_range(px) && coord_in_range(py),
            p2_pos matches Some((a, b)) ==> coord_in_range(a) && coord_in_range(b),
        ensures
            exists|r: (int, int, int)| d6(r.0) && d6(r.1) && d6(r.2)
                && #[trigger] monster_turn(old(self)@, i as int, px as int, py as int, opt_pos(p2_pos), r) == (final(self)@, over),
            final(self).monsters@.len() == old(self).monsters@.len(),
            final(self).map.wf(),
            !over ==> final(self)@.within(loose()),
            over ==> final(self).state == GameState::GameOver,
    {
        let ghost before = self@;
        let ghost p2pos = opt_pos(p2_pos);
        let m = self.monsters[i];
        let ghost mut r: (int, int, int) = (1int, 1int, 1int);
        proof {
            assert(monster_within(before.monsters[i as int], loose()));
            lemma_grid_cells(&self.map);
        }
        if !m.is_alive() {
            assert(monster_turn(before, i as int, px as int, py as int, p2pos, r) == (self@, false));
            return false;
        }
        let mx = m.x as i32;
        let my = m.y as i32;
        let (step_x, step_y) = chase(m.x, m.y, px, py, p2_pos);
        if mx + step_x < 0 || my + step_y < 0 {
            assert(monster_turn(before, i as int, px as int, py as int, p2pos, r) == (self@, false));
            return false;
        }
        let nx = (mx + step_x) as usize;
        let ny = (my + step_y) as usize;
        if !self.map.is_walkable(nx, ny) || self.monster_stands_at(nx, ny) {
            assert(monster_turn(before, i as int, px as int, py as int, p2pos, r) == (self@, false));
            return false;
        }
        if nx == px && ny == py {
            let over = self.monster_hits_p1(m);
            proof {
                r = choose|r: (int, int, int)| d6(r.0) && d6(r.1) && d6(r.2) && #[trigger] monster_hits_first(before, m, r) == (self@, over);
            }
            assert(monster_turn(before, i as int, px as int, py as int, p2pos, r) == (self@, over));
            over
        } else if p2_here(&self.player2, nx, ny) {
            self.monster_hits_p2(m);
            proof {
                r = choose|r: (int, int, int)| d6(r.0) && d6(r.1) && d6(r.2) && #[trigger] monster_hits_second(before, m, r) == self@;
            }
            assert(monster_turn(before, i as int, px as int, py as int, p2pos, r) == (self@, false));
            false
        } else {
            let mut moved = m;
            moved.x = nx;
            moved.y = ny;
            self.monsters.set(i, moved);
            assert(self@ =~~= Scene { monsters: before.monsters.update(i as int, Monster { x: nx, y: ny, ..m }), ..before });
            assert(monster_turn(before, i as int, px as int, py as int, p2pos, r) == (self@, false));
            false
        }
    }

    /// The monsters' turn: see `monsters_moved`.
    pub fn move_monsters(&mut self)
        requires
            old(self).map.wf(),
            old(self)@.within(loose()),
        ensures
            monsters_moved(old(self)@, final(self)@),
            final(self).map.wf(),
            final(self)@.settled(),
    {
        let ghost pre = self@;
        let px = self.player.x;
        let py = self.player.y;
        let p2_pos: Option<(usize, usize)> = match &self.player2 {
            Some(p) => Some((p.x, p.y)),
            None => None,
        };
        let ghost p2pos = p2_position(pre);
        assert(opt_pos(p2_pos) == p2pos);
        let ghost mut rolls: Seq<(int, int, int)> = Seq::empty();
        let n = self.monsters.len();
        let mut i: usize = 0;
        while i < n
            invariant
                pre == old(self)@,
                self.map.wf(),
                self@.within(loose()),
                i <= n,
                n == pre.monsters.len(),
                self.monsters@.len() == n,
                rolls.len() == i,
                px == pre.player.x,
                py == pre.player.y,
                coord_in_range(px) && coord_in_range(py),
                opt_pos(p2_pos) == p2pos,
                p2pos == p2_position(pre),
                p2_pos matches Some((a, b)) ==> coord_in_range(a) && coord_in_range(b),
                forall|k: int| 0 <= k < rolls.len() ==> d6((#[trigger] rolls[k]).0) && d6(rolls[k].1) && d6(rolls[k].2),
                monster_turns(pre, px as int, py as int, p2pos, rolls) == (self@, false),
            decreases n - i,
        {
            let ghost before = self@;
            let over = self.monster_act(i, px, py, p2_pos);
            proof {
                let r = choose|r: (int, int, int)| d6(r.0) && d6(r.1) && d6(r.2)
                    && #[trigger] monster_turn(before, i as int, px as int, py as int, p2pos, r) == (self@, over);
                let old_rolls = rolls;
                rolls = rolls.push(r);
                assert(rolls.drop_last() =~= old_rolls);
                assert(monster_turns(pre, px as int, py as int, p2pos, rolls) == (self@, over));
            }
            if over {
                assert(monsters_moved_with(pre, self@, rolls));
                return;
            }
            i = i + 1;
        }
        assert(monsters_moved_with(pre, self@, rolls));
    }

    /// The snapshot of this game that the host sends the client; see `net_of`.
    pub fn to_net_state(&self) -> (n: NetGameState)
        ensures
            n@ == net_of(self@),
    {
        let mut map_tiles: Vec<Vec<u8>> = Vec::new();
        let mut y: usize = 0;
        while y < self.map.tiles.len()
            invariant
                y <= self.map.tiles@.len(),
                map_tiles@.len() == y,
                forall|j: int| 0 <= j < y ==> #[trigger] map_tiles@[j]@ == self.map.tiles@[j]@.map_values(|t: Tile| t.byte_of()),
            decreases self.map.tiles@.len() - y,
        {
            let mut row: Vec<u8> = Vec::new();
            let mut x: usize = 0;
            while x < self.map.tiles[y].len()
                invariant
                    y < self.map.tiles@.len(),
                    x <= self.map.tiles@[y as int]@.len(),
                    row@ == self.map.tiles@[y as int]@.take(x as int).map_values(|t: Tile| t.byte_of()),
                decreases self.map.tiles@[y as int]@.len() - x,
            {
                row.push(self.map.tiles[y][x].to_byte());
                x = x + 1;
                assert(row@ =~= self.map.tiles@[y as int]@.take(x as int).map_values(|t: Tile| t.byte_of()));
            }
            assert(self.map.tiles@[y as int]@.take(x as int) =~= self.map.tiles@[y as int]@);
            map_tiles.push(row);
            y = y + 1;
        }
        let mut monsters: Vec<NetMonster> = Vec::new();
        let mut i: usize = 0;
        while i < self.monsters.len()
            invariant
                i <= self.monsters@.len(),
                monsters@ == self.monsters@.take(i as int).map_values(|m: Monster| net_monster(m)),
            decreases self.monsters@.len() - i,
        {
            let m = self.monsters[i];
            monsters.push(NetMonster {
                x: m.x,
                y: m.y,
                kind: m.kind.to_byte(),
                hp: m.hp,
                max_hp: m.max_hp,
                alive: m.alive,
                teleported: m.teleported,
            });
            i = i + 1;
            assert(monsters@ =~= self.monsters@.take(i as int).map_values(|m: Monster| net_monster(m)));
        }
        assert(self.monsters@.take(i as int) =~= self.monsters@);
        let player2 = match &self.player2 {
            Some(p) => Some(NetPlayer { x: p.x, y: p.y, hp: p.hp, max_hp: p.max_hp, respawns_left: 0 }),
            None => None,
        };
        let n = NetGameState {
            map_tiles,
            player1: NetPlayer { x: self.player.x, y: self.player.y, hp: self.player.hp, max_hp: self.player.max_hp, respawns_left: 0 },
            player2,
            monsters,
            level: self.level,
            status_msg: self.status_msg.clone(),
            status_msg2: self.status_msg2.clone(),
            state: self.state.to_byte(),
        };
        assert(n@.tiles =~~= net_of(self@).tiles);
        assert(n@ =~~= net_of(self@));
        n
    }

    /// The solo game the second player continues from the host's last
    /// snapshot; `None` when the snapshot has no second player. See `solo_of`.
    pub fn from_net_state_solo(state: &NetGameState) -> (g: Option<Game>)
        ensures
            g is None <==> solo_of(state@) is None,
            g matches Some(game) ==> game@ == solo_of(state@).unwrap() && game.map.wf(),
    {
        let p2 = match &state.player2 {
            Some(p) => *p,
            None => return None,
        };
        let mut map = DungeonMap::new();
        let ghost tiles = state@.tiles;
        let mut y: usize = 0;
        while y < state.map_tiles.len()
            invariant
                map.wf(),
                map.rooms@.len() == 0,
                tiles == state@.tiles,
                y <= tiles.len(),
                forall|i: int, j: int| on_map(i, j) ==> #[trigger] map.tile_at(i, j) == (
                    if j < y && i < tiles[j].len() { Tile::from_byte(tiles[j][i]) } else { Tile::Wall }),
            decreases tiles.len() - y,
        {
            let row = &state.map_tiles[y];
            let mut x: usize = 0;
            while x < row.len()
                invariant
                    map.wf(),
                    map.rooms@.len() == 0,
                    tiles == state@.tiles,
                    y < tiles.len(),
                    row@ == tiles[y as int],
                    x <= row@.len(),
                    forall|i: int, j: int| on_map(i, j) ==> #[trigger] map.tile_at(i, j) == (
                        if (j < y && i < tiles[j].len()) || (j == y && i < x) { Tile::from_byte(tiles[j][i]) } else { Tile::Wall }),
                decreases row@.len() - x,
            {
                map.set(x, y, Tile::from(row[x]));
                x = x + 1;
            }
            y = y + 1;
        }
        proof {
            let g = grid_of_bytes(tiles);
            assert(full_grid(g));
            assert forall|i: int, j: int| on_map(i, j) implies #[trigger] map.tile_at(i, j) == cell(g, i, j) by {}
            lemma_grid_is(&map, g);
        }
        let mut monsters: Vec<Monster> = Vec::new();
        let mut i: usize = 0;
        while i < state.monsters.len()
            invariant
                i <= state.monsters@.len(),
                monsters@ == state.monsters@.take(i as int).map_values(|m: NetMonster| monster_of_net(m)),
            decreases state.monsters@.len() - i,
        {
            let m = state.monsters[i];
            monsters.push(Monster {
                x: m.x,
                y: m.y,
                kind: MonsterKind::from(m.kind),
                hp: m.hp,
                max_hp: m.max_hp,
                alive: m.alive,
                teleported: m.teleported,
            });
            i = i + 1;
            assert(monsters@ =~= state.monsters@.take(i as int).map_values(|m: NetMonster| monster_of_net(m)));
        }
        assert(state.monsters@.take(i as int) =~= state.monsters@);
        let game_state = if state.state == 1 {
            GameState::GameOver
        } else if state.state == 2 {
            GameState::Victory
        } else {
            GameState::Playing
        };
        let game = Game {
            state: game_state,
            map,
            player: Player { x: p2.x, y: p2.y, hp: p2.hp, max_hp: p2.max_hp },
            player2: None,
            monsters,
            level: state.level,
            status_msg: String::from_str("Host disconnected. Continuing solo!"),
            status_msg2: String::new(),
            multiplayer: false,
            rng: entropy_rng(),
        };
        assert(game@ =~~= solo_of(state@).unwrap());
        Some(game)
    }
}

/// Positions as mathematical integers.
pub open spec fn opt_pos(p: Option<(usize, usize)>) -> Option<(int, int)> {
    match p {
        Some((a, b)) => Some((a as int, b as int)),
        None => None,
    }
}

/// The step a monster at `(mx, my)` takes towards its target; see
/// `chase_target` and `chase_step`.
fn chase(mx: usize, my: usize, px: usize, py: usize, p2_pos: Option<(usize, usize)>) -> (st: (i32, i32))
    requires
        coord_in_range(mx) && coord_in_range(my),
        coord_in_range(px) && coord_in_range(py),
        p2_pos matches Some((a, b)) ==> coord_in_range(a) && coord_in_range(b),
    ensures
        ({
            let (tx, ty) = chase_target(mx as int, my as int, px as int, py as int, opt_pos(p2_pos));
            (st.0 as int, st.1 as int) == chase_step(mx as int, my as int, tx, ty)
        }),
        -1 <= st.0 <= 1 && -1 <= st.1 <= 1,
{
    let mx = mx as i32;
    let my = my as i32;
    let (tx, ty) = match p2_pos {
        Some((p2x, p2y)) => {
            let d1 = abs_i32(px as i32 - mx) + abs_i32(py as i32 - my);
            let d2 = abs_i32(p2x as i32 - mx) + abs_i32(p2y as i32 - my);
            if d2 < d1 { (p2x, p2y) } else { (px, py) }
        },
        None => (px, py),
    };
    let dx = tx as i32 - mx;
    let dy = ty as i32 - my;
    if abs_i32(dx) >= abs_i32(dy) { (sign_i32(dx), 0i32) } else { (0i32, sign_i32(dy)) }
}

fn abs_i32(v: i32) -> (r: i32)
    requires
        v > i32::MIN,
    ensures
        r == abs(v as int),
{
    if v < 0 { -v } else { v }
}

fn sign_i32(v: i32) -> (r: i32)
    ensures
        r == sign(v as int),
{
    if v > 0 { 1 } else if v < 0 { -1 } else { 0 }
}

fn player_fits(p: &Player) -> (b: bool)
    ensures
        b == player_within(*p, tight()),
{
    p.x <= 1_000_000 && p.y <= 1_000_000
        && -1_000_000_000 <= p.hp && p.hp <= 1_000_000_000
        && -1_000_000_000 <= p.max_hp && p.max_hp <= 1_000_000_000
}

fn monster_fits(m: &Monster) -> (b: bool)
    ensures
        b == monster_within(*m, tight()),
{
    m.x <= 1_000_000 && m.y <= 1_000_000
        && -1_000_000_000 <= m.hp && m.hp <= 1_000_000_000
        && -1_000_000_000 <= m.max_hp && m.max_hp <= 1_000_000_000
}

impl Game {
    /// Whether every position and hit point count of the game lies within
    /// the bounds that a move of a player starts from; see `Scene::in_range`.
    pub fn numbers_fit(&self) -> (b: bool)
        ensures
            b == self@.in_range(),
    {
        if !player_fits(&self.player) {
            return false;
        }
        match &self.player2 {
            Some(p) => {
                if !player_fits(p) {
                    return false;
                }
            },
            None => {},
        }
        let mut i: usize = 0;
        while i < self.monsters.len()
            invariant
                i <= self.monsters@.len(),
                forall|j: int| 0 <= j < i ==> monster_within(#[trigger] self@.monsters[j], tight()),
            decreases self.monsters@.len() - i,
        {
            if !monster_fits(&self.monsters[i]) {
                assert(!monster_within(self@.monsters[i as int], tight()));
                return false;
            }
            i = i + 1;
        }
        true
    }
}

/// Whether the second player is present and stands at `(x, y)`.
fn p2_here(p2: &Option<Player>, x: usize, y: usize) -> (b: bool)
    ensures
        b == (p2 is Some && p2.unwrap().x == x && p2.unwrap().y == y),
{
    match p2 {
        Some(p) => p.x == x && p.y == y,
        None => false,
    }
}

} // verus!
