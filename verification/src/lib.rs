//! Tile-world logic of a small platformer: the block kinds, grid positions,
//! the tile map the level lives in, the level-file reader, the visible/master
//! tile bookkeeping of the running game and the discrete part of the player
//! controller (collision look-ups, climbing and wall-jump decisions).
//!
//! Everything that works on floating-point physics or talks to the window,
//! keyboard or file system lives in the program under `app/`.

pub mod blocks;
pub mod position;
pub mod tiles;
pub mod controls;
pub mod text;
pub mod level;
pub mod world;
pub mod simulate;
