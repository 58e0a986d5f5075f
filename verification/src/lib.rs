//! Game logic of "Return to Dagger Deep", a terminal roguelike for one or two
//! players: dungeon layout, entities, combat, the game state machine, the wire
//! framing of network messages and the decisions of the interactive loops.

pub mod text;
pub mod entity;
pub mod dungeon;
pub mod dice;
pub mod combat;
pub mod spawn;
pub mod protocol;
pub mod game;
pub mod frame;
pub mod control;
pub mod view;
