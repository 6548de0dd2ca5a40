use stump::controls::{cell_span, Controls, WallJump};
use stump::position::Position;
use stump::tiles::TileMap;

fn idle() -> Controls {
    Controls {
        on_ground: false,
        is_jumping: false,
        is_climbing: false,
        side_climbing: 0,
        up_pressed: false,
        down_pressed: false,
        left_pressed: false,
        right_pressed: false,
        jump_pressed: false,
        grab_pressed: false,
        can_jump: true,
        coyote_timer_active: false,
    }
}

#[test]
fn cell_span_by_rounding() {
    assert_eq!(cell_span(-1), (0, 1));
    assert_eq!(cell_span(0), (-1, 0));
    assert_eq!(cell_span(1), (0, 0));
    assert_eq!(cell_span(5), (0, 0));
}

#[test]
fn update_can_jump_on_release() {
    let mut c = idle();
    c.can_jump = false;
    c.jump_pressed = true;
    c.update_can_jump();
    assert!(!c.can_jump);
    c.jump_pressed = false;
    c.update_can_jump();
    assert!(c.can_jump);
}

#[test]
fn wall_jump_without_wall_does_nothing() {
    let mut c = idle();
    c.left_pressed = true;
    c.jump_pressed = true;
    assert_eq!(c.wall_jump(), WallJump::Nothing);
    assert!(c.can_jump);
    assert!(!c.is_jumping);
}

#[test]
fn wall_jump_jumps_off_either_side() {
    for side in [-1i64, 1] {
        let mut c = idle();
        c.side_climbing = side;
        c.on_ground = true;
        c.right_pressed = true;
        c.jump_pressed = true;
        assert_eq!(c.wall_jump(), WallJump::Jump);
        assert!(!c.can_jump);
        assert!(c.is_jumping);
        assert!(!c.on_ground);
        assert_eq!(c.side_climbing, side);
    }
}

#[test]
fn wall_jump_slides_away_from_wall() {
    let mut c = idle();
    c.side_climbing = -1;
    c.left_pressed = true;
    c.can_jump = false;
    c.jump_pressed = true;
    assert_eq!(c.wall_jump(), WallJump::Slide);
    assert!(c.coyote_timer_active);

    let mut c = idle();
    c.side_climbing = -1;
    c.right_pressed = true;
    assert_eq!(c.wall_jump(), WallJump::Nothing);
    assert!(!c.coyote_timer_active);

    let mut c = idle();
    c.side_climbing = 1;
    c.right_pressed = true;
    assert_eq!(c.wall_jump(), WallJump::Slide);
    assert!(c.coyote_timer_active);
}

#[test]
fn wall_jump_ignores_other_sides() {
    let mut c = idle();
    c.side_climbing = 2;
    c.left_pressed = true;
    c.jump_pressed = true;
    assert_eq!(c.wall_jump(), WallJump::Nothing);
    assert!(c.can_jump);
}

#[test]
fn detect_falling_keeps_ground_under_feet() {
    let mut tiles = TileMap::new();
    tiles.insert(Position::new(4, 3), 1);
    let mut c = idle();
    c.on_ground = true;
    c.detect_falling(&tiles, 4, 1, 3);
    assert!(c.on_ground);
    c.detect_falling(&tiles, 5, 1, 3);
    assert!(!c.on_ground);
    c.on_ground = true;
    c.detect_falling(&tiles, 5, 0, 3);
    assert!(c.on_ground);
    c.detect_falling(&tiles, 3, -1, 3);
    assert!(c.on_ground);
    c.detect_falling(&tiles, 3, 0, 3);
    assert!(!c.on_ground);
}

#[test]
fn detect_falling_needs_ground_contact() {
    let mut tiles = TileMap::new();
    tiles.insert(Position::new(4, 3), 1);
    let mut c = idle();
    c.detect_falling(&tiles, 4, 1, 3);
    assert!(!c.on_ground);
}

#[test]
fn detect_not_climbing_releases() {
    let mut tiles = TileMap::new();
    tiles.insert(Position::new(1, 0), 1);
    let mut c = idle();
    c.is_climbing = true;
    c.on_ground = true;
    c.detect_not_climbing(&tiles, false, 0, 1, 0, 1);
    assert!(!c.is_climbing);
    assert!(!c.on_ground);

    let mut c = idle();
    c.is_climbing = true;
    c.grab_pressed = true;
    c.side_climbing = -1;
    c.detect_not_climbing(&tiles, true, 0, 1, 0, 1);
    assert!(!c.is_climbing);
    assert_eq!(c.side_climbing, -1);
}

#[test]
fn detect_not_climbing_keeps_climb_next_to_wall() {
    let mut tiles = TileMap::new();
    tiles.insert(Position::new(1, 0), 1);
    let mut c = idle();
    c.is_climbing = true;
    c.grab_pressed = true;
    c.side_climbing = -1;
    c.detect_not_climbing(&tiles, false, 0, 1, 0, 1);
    assert!(c.is_climbing);
    assert_eq!(c.side_climbing, -1);
    c.detect_not_climbing(&tiles, false, -2, 1, 0, 1);
    assert!(!c.is_climbing);
    assert_eq!(c.side_climbing, 0);
}

#[test]
fn detect_climbing_grabs_adjacent_wall() {
    let mut tiles = TileMap::new();
    tiles.insert(Position::new(-1, 2), 1);
    let mut c = idle();
    c.detect_climbing(&tiles, true, 0, 2, true);
    assert!(!c.is_climbing);
    c.grab_pressed = true;
    c.detect_climbing(&tiles, false, 0, 2, true);
    assert!(!c.is_climbing);
    c.detect_climbing(&tiles, true, 0, 1, true);
    assert!(!c.is_climbing);
    c.detect_climbing(&tiles, true, 0, 1, false);
    assert!(c.is_climbing);
}

#[test]
fn detect_wall_jumpable_walls_records_side() {
    let mut tiles = TileMap::new();
    tiles.insert(Position::new(1, 0), 1);
    let mut c = idle();
    assert!(c.detect_wall_jumpable_walls(&tiles, true, 0, 0, true));
    assert_eq!(c.side_climbing, -1);
    assert!(c.coyote_timer_active);

    let mut c = idle();
    tiles.insert(Position::new(-1, 0), 1);
    assert!(c.detect_wall_jumpable_walls(&tiles, true, 0, 0, true));
    assert_eq!(c.side_climbing, 1);

    let mut c = idle();
    c.can_jump = false;
    assert!(!c.detect_wall_jumpable_walls(&tiles, true, 0, 0, true));
    assert_eq!(c.side_climbing, 0);
    assert!(!c.coyote_timer_active);
}
