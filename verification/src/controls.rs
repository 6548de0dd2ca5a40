use vstd::prelude::*;
use crate::tiles::{TileMap, has_tile_in, adjacent_wall, adjacent_wall_in_range};

verus! {

/// The discrete state of the player controller: contact with the ground and
/// walls, the climbing side, the keys held this frame, and whether a jump or
/// the wall-jump grace timer is available. The velocities and the position
/// are floating-point and are kept by the game itself.
pub struct Controls {
    pub on_ground: bool,
    pub is_jumping: bool,
    pub is_climbing: bool,
    /// `-1` when the wall is to the right of the player, `1` when it is to
    /// the left, `0` when there is none.
    pub side_climbing: i64,
    pub up_pressed: bool,
    pub down_pressed: bool,
    pub left_pressed: bool,
    pub right_pressed: bool,
    pub jump_pressed: bool,
    pub grab_pressed: bool,
    pub can_jump: bool,
    pub coyote_timer_active: bool,
}

/// What a wall jump asks of the physics: nothing, a jump away from the wall
/// (half a cell per frame sideways and one cell per frame up), or a small push
/// away from the wall that also restarts the wall-jump grace timer.
#[derive(PartialEq, Eq, Structural, Debug)]
pub enum WallJump {
    Nothing,
    Jump,
    Slide,
}

/// The cells that a collision search covers around a rounded coordinate:
/// `round` is `-1` when the coordinate was rounded down, `0` when it was
/// rounded up and anything else when it was already whole. The result is the
/// offsets of the first and last cell, relative to the rounded coordinate.
pub open spec fn span_of(round: i64) -> (i64, i64) {
    if round == -1 {
        (0i64, 1i64)
    } else if round == 0 {
        (-1i64, 0i64)
    } else {
        (0i64, 0i64)
    }
}

/// The offsets of the first and last cell that a collision search covers
/// around a rounded coordinate.
pub fn cell_span(round: i64) -> (r: (i64, i64))
    ensures
        r == span_of(round),
{
    if round == -1 {
        (0, 1)
    } else if round == 0 {
        (-1, 0)
    } else {
        (0, 0)
    }
}

/// Whether a wall jump may start now.
pub open spec fn wants_wall_jump(c: Controls) -> bool {
    (c.left_pressed || c.right_pressed) && c.jump_pressed && c.can_jump
}

/// Whether the key that pushes away from the wall on the given side is held.
pub open spec fn pushes_off(c: Controls) -> bool {
    if c.side_climbing == -1 {
        c.left_pressed
    } else {
        c.right_pressed
    }
}

/// A spent jump stays spent while the jump key is held: after a jump the
/// next frame's jump-release check does not allow another wall jump until
/// the key is let go.
pub proof fn lemma_no_jump_while_held(c: Controls)
    requires
        !c.can_jump,
        c.jump_pressed,
    ensures
        !wants_wall_jump(Controls { can_jump: c.can_jump || !c.jump_pressed, ..c }),
{
}

/// A wall jump starts only with a direction key held, the jump key held and a
/// jump still allowed.
pub proof fn lemma_wall_jump_needs_keys(c: Controls)
    ensures
        wants_wall_jump(c) ==> (c.left_pressed || c.right_pressed) && c.jump_pressed && c.can_jump,
        (c.left_pressed || c.right_pressed) && c.jump_pressed && c.can_jump ==> wants_wall_jump(c),
{
}

impl Controls {
    /// Releasing the jump key makes a new jump possible.
    pub fn update_can_jump(&mut self)
        ensures
            *final(self) == (Controls { can_jump: old(self).can_jump || !old(self).jump_pressed, ..*old(self) }),
    {
        if !self.jump_pressed {
            self.can_jump = true;
        }
    }

    /// Decides a jump off the wall the player is climbing. With the wall on
    /// one side, a held direction key together with an allowed jump starts a
    /// wall jump; otherwise the key that points away from the wall pushes off
    /// it and restarts the grace timer.
    pub fn wall_jump(&mut self) -> (r: WallJump)
        ensures
            (old(self).side_climbing != -1 && old(self).side_climbing != 1) ==> r == WallJump::Nothing
                && *final(self) == *old(self),
            (old(self).side_climbing == -1 || old(self).side_climbing == 1) ==> {
                if wants_wall_jump(*old(self)) {
                    &&& r == WallJump::Jump
                    &&& *final(self) == (Controls {
                        can_jump: false,
                        is_jumping: true,
                        on_ground: false,
                        ..*old(self)
                    })
                } else if pushes_off(*old(self)) {
                    &&& r == WallJump::Slide
                    &&& *final(self) == (Controls { coyote_timer_active: true, ..*old(self) })
                } else {
                    &&& r == WallJump::Nothing
                    &&& *final(self) == *old(self)
                }
            },
            !old(self).left_pressed && !old(self).right_pressed ==> r != WallJump::Jump && final(self).can_jump
                == old(self).can_jump && final(self).is_jumping == old(self).is_jumping && final(self).on_ground
                == old(self).on_ground,
            r == WallJump::Jump ==> old(self).jump_pressed && old(self).can_jump && !final(self).can_jump,
    {
        if self.side_climbing == 0 {
            return WallJump::Nothing;
        }
        let mut r = WallJump::Nothing;
        if self.side_climbing == -1 {
            if (self.left_pressed || self.right_pressed) && self.jump_pressed && self.can_jump {
                self.can_jump = false;
                self.is_jumping = true;
                self.on_ground = false;
                r = WallJump::Jump;
            } else if self.left_pressed {
                self.coyote_timer_active = true;
                r = WallJump::Slide;
            }
        }
        if self.side_climbing == 1 {
            if (self.left_pressed || self.right_pressed) && self.jump_pressed && self.can_jump {
                self.can_jump = false;
                self.is_jumping = true;
                self.on_ground = false;
                r = WallJump::Jump;
            } else if self.right_pressed {
                self.coyote_timer_active = true;
                r = WallJump::Slide;
            }
        }
        r
    }

    /// Drops the player's ground contact when no tile lies right below: the
    /// cells of row `pos_y` around column `pos_x` (as `cell_span(round)`
    /// widens it) are searched.
    pub fn detect_falling(&mut self, tiles: &TileMap, pos_x: i64, round: i64, pos_y: i64)
        requires
            old(self).on_ground ==> i64::MIN <= pos_x + span_of(round).0 && pos_x + span_of(round).1
                <= i64::MAX,
        ensures
            *final(self) == (Controls {
                on_ground: old(self).on_ground && has_tile_in(
                    tiles@,
                    pos_x + span_of(round).0,
                    pos_x + span_of(round).1,
                    pos_y as int,
                    pos_y as int,
                ),
                ..*old(self)
            }),
    {
        if !self.on_ground {
            return;
        }
        let (x_start, x_end) = cell_span(round);
        let is_there_ground = tiles.any_in_row(pos_y, pos_x + x_start, pos_x + x_end);
        if self.on_ground {
            self.on_ground = is_there_ground;
        }
    }

    /// Ends a climb when the grab key is let go or the player moves sideways,
    /// and otherwise keeps it only while a tile touches the player: the cells
    /// around column `x_pos` and row `y_pos` (widened as `cell_span` gives it,
    /// and by one more column on each side) are searched.
    pub fn detect_not_climbing(
        &mut self,
        tiles: &TileMap,
        x_moving: bool,
        x_pos: i64,
        x_round: i64,
        y_pos: i64,
        y_round: i64,
    )
        requires
            old(self).is_climbing && old(self).grab_pressed && !x_moving ==> {
                &&& i64::MIN <= x_pos + span_of(x_round).0 - 1
                &&& x_pos + span_of(x_round).1 + 1 <= i64::MAX
                &&& i64::MIN <= y_pos + span_of(y_round).0
                &&& y_pos + span_of(y_round).1 <= i64::MAX
            },
        ensures
            !old(self).is_climbing ==> *final(self) == *old(self),
            old(self).is_climbing && (!old(self).grab_pressed || x_moving) ==> *final(self) == (Controls {
                is_climbing: false,
                on_ground: false,
                ..*old(self)
            }),
            old(self).is_climbing && old(self).grab_pressed && !x_moving ==> {
                let climbing = has_tile_in(
                    tiles@,
                    x_pos + span_of(x_round).0 - 1,
                    x_pos + span_of(x_round).1 + 1,
                    y_pos + span_of(y_round).0,
                    y_pos + span_of(y_round).1,
                );
                *final(self) == (Controls {
                    is_climbing: climbing,
                    side_climbing: if climbing { old(self).side_climbing } else { 0 },
                    ..*old(self)
                })
            },
    {
        if !self.is_climbing {
            return;
        }
        if !self.grab_pressed {
            self.is_climbing = false;
            self.on_ground = false;
            return;
        }
        if x_moving {
            self.is_climbing = false;
            self.on_ground = false;
            return;
        }
        let (x_start, x_end) = cell_span(x_round);
        let (y_start, y_end) = cell_span(y_round);
        let climbing = tiles.any_in_rect(
            x_pos + (x_start - 1),
            x_pos + (x_end + 1),
            y_pos + y_start,
            y_pos + y_end,
        );
        self.is_climbing = climbing;
        self.side_climbing = if !climbing {
            0
        } else {
            self.side_climbing
        };
    }

    /// Starts a climb when the grab key is held, the player stands exactly
    /// on a column (`x_whole`) and a wall touches it on either side: the rows
    /// from `y_floor` down to the next whole row (one more unless `y_whole`)
    /// are searched.
    pub fn detect_climbing(&mut self, tiles: &TileMap, x_whole: bool, x: i64, y_floor: i64, y_whole: bool)
        requires
            !old(self).is_climbing && old(self).grab_pressed && x_whole ==> adjacent_wall_in_range(
                tiles@,
                x,
                y_floor,
                if y_whole { 0 } else { 1 },
            ),
        ensures
            *final(self) == (Controls {
                is_climbing: old(self).is_climbing || (old(self).grab_pressed && x_whole && adjacent_wall(
                    tiles@,
                    x,
                    y_floor,
                    if y_whole { 0 } else { 1 },
                ) is Some),
                ..*old(self)
            }),
    {
        if self.is_climbing || !self.grab_pressed {
            return;
        }
        let y_shift: i64 = if y_whole { 0 } else { 1 };
        if x_whole {
            if tiles.first_adjacent_wall(x, y_floor, y_shift).is_some() {
                self.is_climbing = true;
            }
        }
    }

    /// While a jump is still available and the player stands exactly on a
    /// column next to a wall, remembers the wall's side and starts the
    /// wall-jump grace timer. Returns whether the timer was started.
    pub fn detect_wall_jumpable_walls(
        &mut self,
        tiles: &TileMap,
        x_whole: bool,
        x: i64,
        y_floor: i64,
        y_whole: bool,
    ) -> (started: bool)
        requires
            old(self).can_jump && x_whole ==> adjacent_wall_in_range(
                tiles@,
                x,
                y_floor,
                if y_whole { 0 } else { 1 },
            ),
        ensures
            started == (old(self).can_jump && x_whole && adjacent_wall(
                tiles@,
                x,
                y_floor,
                if y_whole { 0 } else { 1 },
            ) is Some),
            !started ==> *final(self) == *old(self),
            started ==> *final(self) == (Controls {
                coyote_timer_active: true,
                side_climbing: (-adjacent_wall(tiles@, x, y_floor, if y_whole { 0 } else { 1 })->0) as i64,
                ..*old(self)
            }),
    {
        if !self.can_jump {
            return false;
        }
        let y_shift: i64 = if y_whole { 0 } else { 1 };
        if x_whole {
            match tiles.first_adjacent_wall(x, y_floor, y_shift) {
                Some(i) => {
                    self.coyote_timer_active = true;
                    self.side_climbing = -i;
                    return true;
                },
                None => {},
            }
        }
        false
    }
}

} // verus!
