# stump

A small tile platformer. The crate is a Verus-verified library with the game's
tile logic; `app/` is the ggez program around it.

- `src/blocks.rs`, `src/position.rs` — block kinds and grid cells.
- `src/tiles.rs` — `TileMap`, the map from cells to tile numbers, with
  row/column/box searches used for collisions.
- `src/text.rs`, `src/level.rs` — the level-file reader (`Info`): whitespace
  separated words, numbers that move the cursor, tile words `none`/`block`.
- `src/world.rs` — the visible and master tile sets of the running game:
  culling, loading the cells that come on screen, taking in a level.
- `src/controls.rs` — the discrete part of the player controller: ground and
  wall contact, climbing, wall jumps.
- `src/simulate.rs` — the fixed-rate simulator and its `Simulatable` trait.
- `app/` — window, input, drawing, file access and the floating-point physics.
