use vstd::prelude::*;
use crate::tiles::TileMap;

verus! {

/// A body that moves through the tile world one frame at a time: reading the
/// keys, colliding with the ground and walls, climbing and jumping.
///
/// Each implementation says, through `next_frame`, which states may follow a
/// state after one frame among the given tiles, and its `simulate` is bound to
/// keep to that. An implementation written outside this library is not proved
/// to keep to it: its `simulate` is taken at its word.
pub trait Simulatable {
    /// Whether `next` is a state the body may be in one frame after `self`,
    /// moving among `tiles`.
    spec fn next_frame(&self, tiles: &TileMap, next: &Self) -> bool;

    /// Advances the body by one frame.
    fn simulate(&mut self, tiles: &TileMap)
        ensures
            old(self).next_frame(tiles, final(self)),
    ;

    fn detect_ground(&mut self, tiles: &TileMap);

    fn detect_wall(&mut self, tiles: &TileMap);

    fn detect_falling(&mut self, tiles: &TileMap);

    fn detect_not_climbing(&mut self, tiles: &TileMap);

    fn detect_climbing(&mut self, tiles: &TileMap);

    fn update_movement(&mut self, tiles: &TileMap);

    fn update_climbing(&mut self);

    fn update_motion(&mut self);

    fn update_can_jump(&mut self);

    fn wall_jump(&mut self);

    fn detect_wall_jumpable_walls(&mut self, tiles: &TileMap);

    fn vamonos(&mut self);
}

/// Runs a simulated body at a fixed number of frames per second.
pub struct Simulator<S: Simulatable> {
    pub simulator: S,
    pub fps: u32,
}

impl<S: Simulatable> Simulator<S> {
    /// A simulator for the body, running at 60 frames per second.
    pub fn new(simulator: S) -> (r: Self)
        ensures
            r.simulator == simulator,
            r.fps == 60,
    {
        Self { simulator, fps: 60 }
    }

    /// Advances the body by one frame; the frame rate stays as it is.
    pub fn update(&mut self, tiles: &TileMap)
        ensures
            old(self).simulator.next_frame(tiles, &final(self).simulator),
            final(self).fps == old(self).fps,
    {
        self.simulator.simulate(tiles);
    }
}

} // verus!
