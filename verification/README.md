# tui_rogue

"Return to Dagger Deep", a terminal roguelike for one or two players, with its
game logic verified by Verus.

- `src/` is the verified library: dungeon generation (`dungeon`), entities
  (`entity`), dice and combat (`combat`, `dice`), stocking a level (`spawn`),
  the game state machine (`game`), the network snapshot types (`protocol`),
  message framing (`frame`), the decisions of the interactive loops
  (`control`) and what each map cell shows (`view`). Contracts are stated over
  a plain-value model of the game, `Scene`, the view of `Game`.
- `app/` is the terminal program around it: crossterm input, ratatui drawing,
  the start menu, TCP and bincode.
- `tests/` runs the library on concrete values.

Random choices come from `rand`'s `StdRng`; the library states what holds of
every outcome of a draw, and the pure steps that take the drawn values
(`player_attack`, `monster_attack`, the `*_result` spec functions) are stated
exactly.
