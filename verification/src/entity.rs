//! Players and monsters.

use vstd::prelude::*;

verus! {

/// The four kinds of monster that live in the dungeon.
#[derive(Clone, Copy, PartialEq, Eq, Debug, Structural)]
pub enum MonsterKind {
    Goblin,
    Mage,
    Rat,
    Lich,
}

impl MonsterKind {
    /// The byte that stands for this kind on the wire.
    pub open spec fn byte_of(self) -> u8 {
        match self {
            MonsterKind::Goblin => 0,
            MonsterKind::Mage => 1,
            MonsterKind::Rat => 2,
            MonsterKind::Lich => 3,
        }
    }

    /// The kind that a wire byte stands for; unknown bytes read as a Goblin.
    pub open spec fn from_byte(b: u8) -> MonsterKind {
        if b == 1 {
            MonsterKind::Mage
        } else if b == 2 {
            MonsterKind::Rat
        } else if b == 3 {
            MonsterKind::Lich
        } else {
            MonsterKind::Goblin
        }
    }

    pub open spec fn glyph(self) -> char {
        match self {
            MonsterKind::Goblin => 'G',
            MonsterKind::Mage => 'M',
            MonsterKind::Rat => 'R',
            MonsterKind::Lich => 'L',
        }
    }

    pub open spec fn hp_at_spawn(self) -> i32 {
        match self {
            MonsterKind::Goblin => 8,
            MonsterKind::Mage => 12,
            MonsterKind::Rat => 5,
            MonsterKind::Lich => 40,
        }
    }

    pub open spec fn name_text(self) -> Seq<char> {
        match self {
            MonsterKind::Goblin => "Goblin"@,
            MonsterKind::Mage => "Mage"@,
            MonsterKind::Rat => "Rat"@,
            MonsterKind::Lich => "Lich"@,
        }
    }

    /// The wire byte of this kind.
    pub fn to_byte(&self) -> (b: u8)
        ensures
            b == self.byte_of(),
    {
        match self {
            MonsterKind::Goblin => 0,
            MonsterKind::Mage => 1,
            MonsterKind::Rat => 2,
            MonsterKind::Lich => 3,
        }
    }

    /// The character the map shows for this kind.
    pub fn char(&self) -> (c: char)
        ensures
            c == self.glyph(),
    {
        match self {
            MonsterKind::Goblin => 'G',
            MonsterKind::Mage => 'M',
            MonsterKind::Rat => 'R',
            MonsterKind::Lich => 'L',
        }
    }

    /// Hit points of a freshly spawned monster of this kind (before any
    /// multiplayer scaling).
    pub fn starting_hp(&self) -> (hp: i32)
        ensures
            hp == self.hp_at_spawn(),
    {
        match self {
            MonsterKind::Goblin => 8,
            MonsterKind::Mage => 12,
            MonsterKind::Rat => 5,
            MonsterKind::Lich => 40,
        }
    }

    /// The display name of this kind.
    pub fn name(&self) -> (s: &'static str)
        ensures
            s@ == self.name_text(),
    {
        match self {
            MonsterKind::Goblin => "Goblin",
            MonsterKind::Mage => "Mage",
            MonsterKind::Rat => "Rat",
            MonsterKind::Lich => "Lich",
        }
    }
}

impl From<u8> for MonsterKind {
    fn from(b: u8) -> (k: MonsterKind) {
        if b == 1 {
            MonsterKind::Mage
        } else if b == 2 {
            MonsterKind::Rat
        } else if b == 3 {
            MonsterKind::Lich
        } else {
            MonsterKind::Goblin
        }
    }
}

impl vstd::std_specs::convert::FromSpecImpl<u8> for MonsterKind {
    open spec fn obeys_from_spec() -> bool {
        true
    }

    open spec fn from_spec(b: u8) -> MonsterKind {
        MonsterKind::from_byte(b)
    }
}

/// Reading back the byte of a kind gives the kind again.
pub proof fn lemma_monster_kind_byte_round_trip(k: MonsterKind)
    ensures
        MonsterKind::from_byte(k.byte_of()) == k,
{
}

/// A player: a position on the map and hit points.
#[derive(Clone, Copy, Debug)]
pub struct Player {
    pub x: usize,
    pub y: usize,
    pub hp: i32,
    pub max_hp: i32,
}

impl Player {
    /// A player at `(x, y)` with 20 of 20 hit points.
    pub fn new(x: usize, y: usize) -> (p: Player)
        ensures
            p == (Player { x, y, hp: 20, max_hp: 20 }),
    {
        Player { x, y, hp: 20, max_hp: 20 }
    }
}

/// A monster: position, kind, hit points and two flags.
#[derive(Clone, Copy, Debug)]
pub struct Monster {
    pub x: usize,
    pub y: usize,
    pub kind: MonsterKind,
    pub hp: i32,
    pub max_hp: i32,
    pub alive: bool,
    pub teleported: bool,
}

impl Monster {
    /// A monster is alive while its flag is set and its hit points are positive.
    pub open spec fn living(self) -> bool {
        self.alive && self.hp > 0
    }

    /// A fresh monster of `kind` at `(x, y)`, at full starting hit points.
    pub fn new(x: usize, y: usize, kind: MonsterKind) -> (m: Monster)
        ensures
            m == (Monster {
                x,
                y,
                kind,
                hp: kind.hp_at_spawn(),
                max_hp: kind.hp_at_spawn(),
                alive: true,
                teleported: false,
            }),
    {
        let hp = kind.starting_hp();
        Monster { x, y, kind, hp, max_hp: hp, alive: true, teleported: false }
    }

    /// Whether the monster is alive.
    pub fn is_alive(&self) -> (b: bool)
        ensures
            b == self.living(),
    {
        self.alive && self.hp > 0
    }
}

} // verus!
