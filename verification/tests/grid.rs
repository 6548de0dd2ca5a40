use stump::blocks::Blocks;
use stump::position::Position;
use stump::tiles::TileMap;

#[test]
fn int_to_enum_maps_known_numbers() {
    assert_eq!(Blocks::int_to_enum(0), Blocks::Empty);
    assert_eq!(Blocks::int_to_enum(1), Blocks::Solid);
    assert_eq!(Blocks::int_to_enum(2), Blocks::Spike);
}

#[test]
fn int_to_enum_reads_other_numbers_as_empty() {
    assert_eq!(Blocks::int_to_enum(3), Blocks::Empty);
    assert_eq!(Blocks::int_to_enum(-1), Blocks::Empty);
    assert_eq!(Blocks::int_to_enum(i64::MAX), Blocks::Empty);
}

#[test]
fn position_accessors() {
    let p = Position::new(-4, 7);
    assert_eq!(p.get_x(), -4);
    assert_eq!(p.get_y(), 7);
    assert_eq!(p.get_xy(), (-4, 7));
    assert_eq!(p.to_owned(), Position::Coordinate { x: -4, y: 7 });
}

#[test]
fn tile_map_insert_get_remove() {
    let mut m = TileMap::new();
    assert!(!m.contains_key(&Position::new(1, 2)));
    assert_eq!(m.insert(Position::new(1, 2), 1), None);
    assert_eq!(m.insert(Position::new(1, 2), 0), Some(1));
    assert_eq!(m.get(&Position::new(1, 2)), Some(0));
    assert_eq!(m.get(&Position::new(2, 1)), None);
    assert_eq!(m.remove(&Position::new(1, 2)), Some(0));
    assert!(!m.contains_key(&Position::new(1, 2)));
    assert_eq!(m.remove(&Position::new(1, 2)), None);
}

#[test]
fn tile_map_keeps_extreme_cells_apart() {
    let mut m = TileMap::new();
    let cells = [
        (i64::MIN, i64::MIN),
        (i64::MIN, i64::MAX),
        (i64::MAX, i64::MIN),
        (i64::MAX, i64::MAX),
        (0, 0),
        (-1, 0),
        (0, -1),
        (-1, -1),
    ];
    for (k, (x, y)) in cells.iter().enumerate() {
        m.insert(Position::new(*x, *y), k as u64);
    }
    for (k, (x, y)) in cells.iter().enumerate() {
        assert_eq!(m.get(&Position::new(*x, *y)), Some(k as u64));
    }
    let mut entries = m.entries();
    assert_eq!(entries.len(), cells.len());
    entries.sort_by_key(|e| e.1);
    for (k, (x, y)) in cells.iter().enumerate() {
        assert_eq!(entries[k], (Position::new(*x, *y), k as u64));
    }
}

#[test]
fn tile_map_entries_of_empty_map() {
    let m = TileMap::new();
    assert!(m.entries().is_empty());
}

#[test]
fn tile_map_row_column_rect_search() {
    let mut m = TileMap::new();
    m.insert(Position::new(3, 5), 1);
    assert!(m.any_in_row(5, 0, 3));
    assert!(m.any_in_row(5, 3, 3));
    assert!(!m.any_in_row(5, 4, 9));
    assert!(!m.any_in_row(4, 0, 9));
    assert!(!m.any_in_row(5, 4, 2));
    assert!(m.any_in_column(3, 5, 5));
    assert!(m.any_in_column(3, -10, 10));
    assert!(!m.any_in_column(2, -10, 10));
    assert!(!m.any_in_column(3, 6, 10));
    assert!(m.any_in_rect(2, 4, 4, 6));
    assert!(!m.any_in_rect(4, 2, 4, 6));
    assert!(!m.any_in_rect(2, 4, 6, 8));
}

#[test]
fn tile_map_search_at_the_ends_of_i64() {
    let mut m = TileMap::new();
    m.insert(Position::new(i64::MAX, i64::MIN), 1);
    assert!(m.any_in_row(i64::MIN, i64::MAX - 2, i64::MAX));
    assert!(m.any_in_column(i64::MAX, i64::MIN, i64::MIN + 2));
    assert!(!m.any_in_row(i64::MIN, i64::MIN, i64::MIN + 3));
}

#[test]
fn first_adjacent_wall_prefers_the_left() {
    let mut m = TileMap::new();
    assert_eq!(m.first_adjacent_wall(0, 0, 1), None);
    m.insert(Position::new(1, 1), 1);
    assert_eq!(m.first_adjacent_wall(0, 0, 0), None);
    assert_eq!(m.first_adjacent_wall(0, 0, 1), Some(1));
    m.insert(Position::new(-1, 0), 1);
    assert_eq!(m.first_adjacent_wall(0, 0, 1), Some(-1));
    assert_eq!(m.first_adjacent_wall(0, 0, 0), Some(-1));
}
