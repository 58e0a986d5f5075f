//! What the screen shows: the glyph of each map cell, by the priority player,
//! second player, monster, tile; the colour rule of the hit point display; and
//! which overlay covers the map.

use vstd::prelude::*;

use crate::dungeon::{on_map, Tile, MAP_HEIGHT, MAP_WIDTH};
use crate::entity::MonsterKind;
use crate::game::{Game, GameState, Scene};
use crate::protocol::{NetGameState, NetScene};

verus! {

/// What one cell of the dungeon shows.
#[derive(Clone, Copy, PartialEq, Eq, Debug, Structural)]
pub enum Glyph {
    Player1,
    Player2,
    Monster(MonsterKind),
    Tile(Tile),
}

/// The first monster at `(x, y)` that passes `shown`, as an index.
pub open spec fn first_shown_monster(ms: Seq<crate::entity::Monster>, x: int, y: int, k: int) -> bool {
    &&& 0 <= k < ms.len()
    &&& ms[k].living() && ms[k].x == x && ms[k].y == y
    &&& forall|j: int| 0 <= j < k ==> !((#[trigger] ms[j]).living() && ms[j].x == x && ms[j].y == y)
}

/// The glyph of `(x, y)` in a game: the first player, else the second, else
/// the first living monster there, else the tile.
pub open spec fn scene_glyph(s: Scene, x: int, y: int) -> Glyph {
    if s.player.x == x && s.player.y == y {
        Glyph::Player1
    } else if s.player2 is Some && s.player2.unwrap().x == x && s.player2.unwrap().y == y {
        Glyph::Player2
    } else if s.monster_at(x, y) {
        Glyph::Monster(s.monsters[choose|k: int| first_shown_monster(s.monsters, x, y, k)].kind)
    } else {
        Glyph::Tile(s.tile(x, y))
    }
}

/// The tile byte a snapshot holds at `(x, y)`, or 0 (a wall) where it holds none.
pub open spec fn snapshot_byte(n: NetScene, x: int, y: int) -> u8 {
    if 0 <= y < n.tiles.len() && 0 <= x < n.tiles[y].len() { n.tiles[y][x] } else { 0 }
}

pub open spec fn first_alive_net(n: NetScene, x: int, y: int, k: int) -> bool {
    &&& 0 <= k < n.monsters.len()
    &&& n.monsters[k].alive && n.monsters[k].x == x && n.monsters[k].y == y
    &&& forall|j: int| 0 <= j < k ==> !((#[trigger] n.monsters[j]).alive && n.monsters[j].x == x && n.monsters[j].y == y)
}

/// The glyph of `(x, y)` on the client: as in a game, except that a monster
/// shows while its flag says alive.
pub open spec fn snapshot_glyph(n: NetScene, x: int, y: int) -> Glyph {
    if n.player1.x == x && n.player1.y == y {
        Glyph::Player1
    } else if n.player2 is Some && n.player2.unwrap().x == x && n.player2.unwrap().y == y {
        Glyph::Player2
    } else if exists|k: int| first_alive_net(n, x, y, k) {
        Glyph::Monster(MonsterKind::from_byte(n.monsters[choose|k: int| first_alive_net(n, x, y, k)].kind))
    } else {
        Glyph::Tile(Tile::from_byte(snapshot_byte(n, x, y)))
    }
}

impl Game {
    /// What the cell `(x, y)` shows; see `scene_glyph`.
    pub fn glyph_at(&self, x: usize, y: usize) -> (g: Glyph)
        requires
            self.map.wf(),
        ensures
            g == scene_glyph(self@, x as int, y as int),
    {
        if self.player.x == x && self.player.y == y {
            return Glyph::Player1;
        }
        match &self.player2 {
            Some(p) => {
                if p.x == x && p.y == y {
                    return Glyph::Player2;
                }
            },
            None => {},
        }
        let mut k: usize = 0;
        while k < self.monsters.len()
            invariant
                k <= self.monsters@.len(),
                !(self.player.x == x && self.player.y == y),
                !(self@.player2 is Some && self@.player2.unwrap().x == x && self@.player2.unwrap().y == y),
                forall|j: int| 0 <= j < k ==> !((#[trigger] self@.monsters[j]).living() && self@.monsters[j].x == x && self@.monsters[j].y == y),
            decreases self.monsters@.len() - k,
        {
            let m = self.monsters[k];
            if m.is_alive() && m.x == x && m.y == y {
                proof {
                    assert(first_shown_monster(self@.monsters, x as int, y as int, k as int));
                    let c = choose|c: int| first_shown_monster(self@.monsters, x as int, y as int, c);
                    if c < k {
                        assert(self@.monsters[c].living());
                    } else if c > k {
                        assert(!(self@.monsters[k as int].living() && self@.monsters[k as int].x == x && self@.monsters[k as int].y == y));
                    }
                    assert(c == k);
                    assert(self@.monster_at(x as int, y as int));
                    assert(scene_glyph(self@, x as int, y as int) == Glyph::Monster(self@.monsters[c].kind));
                }
                return Glyph::Monster(m.kind);
            }
            k = k + 1;
        }
        proof {
            crate::dungeon::lemma_grid_cells(&self.map);
        }
        Glyph::Tile(self.map.get(x, y))
    }
}

impl NetGameState {
    /// What the cell `(x, y)` shows on the client; see `snapshot_glyph`.
    pub fn glyph_at(&self, x: usize, y: usize) -> (g: Glyph)
        ensures
            g == snapshot_glyph(self@, x as int, y as int),
    {
        if self.player1.x == x && self.player1.y == y {
            return Glyph::Player1;
        }
        match &self.player2 {
            Some(p) => {
                if p.x == x && p.y == y {
                    return Glyph::Player2;
                }
            },
            None => {},
        }
        let mut k: usize = 0;
        while k < self.monsters.len()
            invariant
                k <= self.monsters@.len(),
                !(self.player1.x == x && self.player1.y == y),
                !(self@.player2 is Some && self@.player2.unwrap().x == x && self@.player2.unwrap().y == y),
                forall|j: int| 0 <= j < k ==> !((#[trigger] self@.monsters[j]).alive && self@.monsters[j].x == x && self@.monsters[j].y == y),
            decreases self.monsters@.len() - k,
        {
            let m = self.monsters[k];
            if m.alive && m.x == x && m.y == y {
                proof {
                    assert(first_alive_net(self@, x as int, y as int, k as int));
                    let c = choose|c: int| first_alive_net(self@, x as int, y as int, c);
                    if c < k {
                        assert(self@.monsters[c].alive);
                    } else if c > k {
                        assert(!(self@.monsters[k as int].alive && self@.monsters[k as int].x == x && self@.monsters[k as int].y == y));
                    }
                    assert(c == k);
                }
                return Glyph::Monster(MonsterKind::from(m.kind));
            }
            k = k + 1;
        }
        let b = if y < self.map_tiles.len() && x < self.map_tiles[y].len() { self.map_tiles[y][x] } else { 0 };
        Glyph::Tile(Tile::from(b))
    }
}

/// Hit points show in the warning colour below half the maximum.
pub fn hp_is_low(hp: i32, max_hp: i32) -> (b: bool)
    ensures
        b == (2 * hp < max_hp),
{
    (hp as i64) * 2 < max_hp as i64
}

/// The overlay that covers the client's map for a snapshot's state byte: the
/// end of the game (1), victory (2) or a lost connection (4); none otherwise.
pub fn snapshot_overlay(state: u8) -> (o: Option<GameState>)
    ensures
        o == (if state == 1 {
            Some(GameState::GameOver)
        } else if state == 2 {
            Some(GameState::Victory)
        } else if state == 4 {
            Some(GameState::Disconnected)
        } else {
            None
        }),
{
    if state == 1 {
        Some(GameState::GameOver)
    } else if state == 2 {
        Some(GameState::Victory)
    } else if state == 4 {
        Some(GameState::Disconnected)
    } else {
        None
    }
}

} // verus!
