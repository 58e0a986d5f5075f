//! The messages that host and client exchange, as plain values. Encoding them
//! to bytes is left to the program around the library; see `frame` for how
//! the bytes travel.

use vstd::prelude::*;

verus! {

/// What the client sends the host.
#[derive(Clone, Copy, PartialEq, Eq, Debug, Structural)]
pub enum ClientMsg {
    Move(i32, i32),
    Quit,
}

/// What the host sends the client.
pub enum ServerMsg {
    State(NetGameState),
    Disconnected,
}

/// A snapshot of the whole game, as the host sends it after every turn.
/// `map_tiles` holds the wire byte of each tile, row by row; `state` the wire
/// byte of the game state.
pub struct NetGameState {
    pub map_tiles: Vec<Vec<u8>>,
    pub player1: NetPlayer,
    pub player2: Option<NetPlayer>,
    pub monsters: Vec<NetMonster>,
    pub level: u8,
    pub status_msg: String,
    pub status_msg2: String,
    pub state: u8,
}

#[derive(Clone, Copy, PartialEq, Eq, Debug, Structural)]
pub struct NetPlayer {
    pub x: usize,
    pub y: usize,
    pub hp: i32,
    pub max_hp: i32,
    pub respawns_left: u8,
}

#[derive(Clone, Copy, PartialEq, Eq, Debug, Structural)]
pub struct NetMonster {
    pub x: usize,
    pub y: usize,
    pub kind: u8,
    pub hp: i32,
    pub max_hp: i32,
    pub alive: bool,
    pub teleported: bool,
}

/// A snapshot as plain values.
#[verifier::ext_equal]
pub struct NetScene {
    pub tiles: Seq<Seq<u8>>,
    pub player1: NetPlayer,
    pub player2: Option<NetPlayer>,
    pub monsters: Seq<NetMonster>,
    pub level: u8,
    pub msg: Seq<char>,
    pub msg2: Seq<char>,
    pub state: u8,
}

impl View for NetGameState {
    type V = NetScene;

    open spec fn view(&self) -> NetScene {
        NetScene {
            tiles: self.map_tiles@.map_values(|row: Vec<u8>| row@),
            player1: self.player1,
            player2: self.player2,
            monsters: self.monsters@,
            level: self.level,
            msg: self.status_msg@,
            msg2: self.status_msg2@,
            state: self.state,
        }
    }
}

impl NetGameState {
    /// Whether the snapshot shows a finished game: lost (1) or won (2).
    pub open spec fn finished(&self) -> bool {
        self.state == 1 || self.state == 2
    }

    /// Whether the game in the snapshot is over, lost or won.
    pub fn is_over(&self) -> (b: bool)
        ensures
            b == self.finished(),
    {
        self.state == 1 || self.state == 2
    }
}

impl Clone for NetGameState {
    fn clone(&self) -> (c: NetGameState)
        ensures
            c@ == self@,
    {
        let mut map_tiles: Vec<Vec<u8>> = Vec::new();
        let mut y: usize = 0;
        while y < self.map_tiles.len()
            invariant
                y <= self.map_tiles@.len(),
                map_tiles@.len() == y,
                forall|j: int| 0 <= j < y ==> #[trigger] map_tiles@[j]@ == self.map_tiles@[j]@,
            decreases self.map_tiles@.len() - y,
        {
            map_tiles.push(self.map_tiles[y].clone());
            y = y + 1;
        }
        let mut monsters: Vec<NetMonster> = Vec::new();
        let mut i: usize = 0;
        while i < self.monsters.len()
            invariant
                i <= self.monsters@.len(),
                monsters@ == self.monsters@.take(i as int),
            decreases self.monsters@.len() - i,
        {
            monsters.push(self.monsters[i]);
            i = i + 1;
            assert(monsters@ =~= self.monsters@.take(i as int));
        }
        assert(monsters@ =~= self.monsters@);
        let c = NetGameState {
            map_tiles,
            player1: self.player1,
            player2: self.player2,
            monsters,
            level: self.level,
            status_msg: self.status_msg.clone(),
            status_msg2: self.status_msg2.clone(),
            state: self.state,
        };
        assert(c@.tiles =~= self@.tiles);
        assert(c@ =~~= self@);
        c
    }
}

} // verus!
