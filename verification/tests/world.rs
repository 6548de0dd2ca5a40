use stump::position::Position;
use stump::simulate::{Simulatable, Simulator};
use stump::tiles::TileMap;
use stump::world::{AxisMotion, TileLoad, Viewport, World};

fn cells(m: &TileMap) -> Vec<(i64, i64, u64)> {
    let mut v: Vec<(i64, i64, u64)> = m
        .entries()
        .iter()
        .map(|(p, t)| (p.get_x(), p.get_y(), *t))
        .collect();
    v.sort();
    v
}

fn sorted(ps: Vec<Position>) -> Vec<(i64, i64)> {
    let mut v: Vec<(i64, i64)> = ps.iter().map(|p| p.get_xy()).collect();
    v.sort();
    v
}

fn view(left: i64, right: i64, top: i64, bottom: i64) -> Viewport {
    Viewport { left, right, top, bottom }
}

#[test]
fn add_and_add_to_master() {
    let mut w = World::new();
    w.add(Position::new(1, 1), 1);
    w.add_to_master(Position::new(2, 2), 1);
    assert_eq!(cells(&w.tiles), vec![(1, 1, 1)]);
    assert_eq!(cells(&w.all_tiles), vec![(2, 2, 1)]);
}

#[test]
fn load_tile_outcomes() {
    let mut w = World::new();
    w.add_to_master(Position::new(0, 0), 0);
    w.add_to_master(Position::new(1, 0), 1);
    w.add_to_master(Position::new(2, 0), 7);
    assert_eq!(w.load_tile(Position::new(0, 0)), TileLoad::Skipped);
    assert_eq!(w.load_tile(Position::new(1, 0)), TileLoad::Added);
    assert_eq!(w.load_tile(Position::new(1, 0)), TileLoad::Skipped);
    assert_eq!(w.load_tile(Position::new(2, 0)), TileLoad::Unexpected);
    assert_eq!(w.load_tile(Position::new(3, 0)), TileLoad::Skipped);
    assert_eq!(cells(&w.tiles), vec![(1, 0, 1)]);
}

#[test]
fn offscreen_tiles_are_removed() {
    let mut w = World::new();
    for (x, y) in [(0, 0), (5, 0), (-6, 1), (0, 9), (0, -9), (5, 5)] {
        w.add(Position::new(x, y), 1);
    }
    let v = view(-5, 5, -5, 5);
    let off = w.offscreen_tiles(&v);
    assert_eq!(sorted(off.iter().map(|p| p.to_owned()).collect()), vec![(-6, 1), (0, -9), (0, 9)]);
    w.remove_offscreen_tiles(off);
    assert_eq!(cells(&w.tiles), vec![(0, 0, 1), (5, 0, 1), (5, 5, 1)]);
}

#[test]
fn load_tiles_vertical_and_horizontal() {
    let mut w = World::new();
    for (x, y, t) in [(6, 0, 1), (6, 3, 1), (7, 1, 0), (7, 2, 3), (6, 9, 1), (0, 6, 1), (9, 6, 1)] {
        w.add_to_master(Position::new(x, y), t);
    }
    let v = view(0, 5, 0, 5);
    let odd = w.load_tiles_vertical(6, 7, &v);
    assert_eq!(sorted(odd), vec![(7, 2)]);
    assert_eq!(cells(&w.tiles), vec![(6, 0, 1), (6, 3, 1)]);
    let odd = w.load_tiles_horizontal(6, 6, &v);
    assert!(odd.is_empty());
    assert_eq!(cells(&w.tiles), vec![(0, 6, 1), (6, 0, 1), (6, 3, 1)]);
}

#[test]
fn load_onscreen_tiles_follows_motion() {
    let mut w = World::new();
    for (x, y) in [(11, 0), (12, 3), (-2, 0), (3, 11), (3, -11)] {
        w.add_to_master(Position::new(x, y), 1);
    }
    let v = view(-10, 10, -10, 10);
    // moving right by 1.5 cells: columns 10 to 12 over rows -10 to 10
    let right = AxisMotion { moving: true, sign: 1, ceil: 2, floor: 1 };
    let still = AxisMotion { moving: false, sign: 0, ceil: 0, floor: 0 };
    let odd = w.load_onscreen_tiles(&v, &right, &still);
    assert!(odd.is_empty());
    assert_eq!(cells(&w.tiles), vec![(11, 0, 1), (12, 3, 1)]);
    // moving down by half a cell: row 10 only over columns -10 to 10
    let down = AxisMotion { moving: true, sign: 1, ceil: 1, floor: 0 };
    w.load_onscreen_tiles(&v, &still, &down);
    assert_eq!(cells(&w.tiles), vec![(11, 0, 1), (12, 3, 1)]);
    // moving up by half a cell: row -10 only
    let up = AxisMotion { moving: true, sign: -1, ceil: 0, floor: -1 };
    w.load_onscreen_tiles(&v, &still, &up);
    assert_eq!(cells(&w.tiles), vec![(11, 0, 1), (12, 3, 1)]);
    // a view that reaches row 11 loads it when moving down
    let v2 = view(-10, 10, -10, 11);
    w.load_onscreen_tiles(&v2, &still, &down);
    assert_eq!(cells(&w.tiles), vec![(3, 11, 1), (11, 0, 1), (12, 3, 1)]);
}

#[test]
fn load_onscreen_tiles_moving_left() {
    let mut w = World::new();
    w.add_to_master(Position::new(-9, 0), 1);
    w.add_to_master(Position::new(-11, 0), 1);
    let v = view(-10, 10, -10, 10);
    // floor of -1.5 is -2: columns -10 to -8
    let left = AxisMotion { moving: true, sign: -1, ceil: -1, floor: -2 };
    let still = AxisMotion { moving: false, sign: 0, ceil: 0, floor: 0 };
    w.load_onscreen_tiles(&v, &left, &still);
    assert_eq!(cells(&w.tiles), vec![(-9, 0, 1)]);
}

#[test]
fn load_level_keeps_master_and_visible_part() {
    let mut level = TileMap::new();
    for (x, y, t) in [(0, 0, 1), (2, 2, 1), (5, 0, 1), (1, 1, 0)] {
        level.insert(Position::new(x, y), t);
    }
    let mut w = World::new();
    w.load_level(&level, &view(-1, 5, -1, 5));
    assert_eq!(cells(&w.tiles), vec![(0, 0, 1), (2, 2, 1)]);
    assert_eq!(cells(&w.all_tiles), vec![(0, 0, 1), (2, 2, 1), (5, 0, 1)]);
}

struct Counter {
    frames: u32,
}

impl Simulatable for Counter {
    fn next_frame(&self, _tiles: &TileMap, next: &Self) -> bool {
        next.frames == self.frames + 1
    }
    fn simulate(&mut self, _tiles: &TileMap) {
        self.frames += 1;
    }
    fn detect_ground(&mut self, _tiles: &TileMap) {}
    fn detect_wall(&mut self, _tiles: &TileMap) {}
    fn detect_falling(&mut self, _tiles: &TileMap) {}
    fn detect_not_climbing(&mut self, _tiles: &TileMap) {}
    fn detect_climbing(&mut self, _tiles: &TileMap) {}
    fn update_movement(&mut self, _tiles: &TileMap) {}
    fn update_climbing(&mut self) {}
    fn update_motion(&mut self) {}
    fn update_can_jump(&mut self) {}
    fn wall_jump(&mut self) {}
    fn detect_wall_jumpable_walls(&mut self, _tiles: &TileMap) {}
    fn vamonos(&mut self) {}
}

#[test]
fn simulator_runs_at_sixty_frames() {
    let mut s = Simulator::new(Counter { frames: 0 });
    assert_eq!(s.fps, 60);
    let tiles = TileMap::new();
    s.update(&tiles);
    s.update(&tiles);
    assert_eq!(s.simulator.frames, 2);
    assert_eq!(s.fps, 60);
}

#[test]
fn load_onscreen_tiles_lists_columns_then_rows() {
    let mut w = World::new();
    for (x, y) in [(10, 10), (11, 0), (-5, 10)] {
        w.add_to_master(Position::new(x, y), 3);
    }
    let v = view(-10, 10, -10, 10);
    let right = AxisMotion { moving: true, sign: 1, ceil: 1, floor: 0 };
    let down = AxisMotion { moving: true, sign: 1, ceil: 1, floor: 0 };
    let odd = w.load_onscreen_tiles(&v, &right, &down);
    assert_eq!(odd.len(), 4);
    let (first, second) = odd.split_at(2);
    assert_eq!(sorted(first.iter().map(|p| p.to_owned()).collect()), vec![(10, 10), (11, 0)]);
    assert_eq!(sorted(second.iter().map(|p| p.to_owned()).collect()), vec![(-5, 10), (10, 10)]);
    assert!(w.tiles.entries().is_empty());
}
