use stump::level::Info;
use stump::position::Position;
use stump::text::parse_i64;

fn lines(ls: &[&str]) -> Vec<String> {
    ls.iter().map(|l| l.to_string()).collect()
}

fn sorted_tiles(info: &Info) -> Vec<(i64, i64, u64)> {
    let mut v: Vec<(i64, i64, u64)> = info
        .tiles
        .entries()
        .iter()
        .map(|(p, t)| (p.get_x(), p.get_y(), *t))
        .collect();
    v.sort();
    v
}

#[test]
fn new_info_has_no_tiles() {
    let info = Info::new();
    assert!(info.tiles.entries().is_empty());
}

#[test]
fn load_reads_words_numbers_and_rows() {
    let mut info = Info::new();
    let ok = info.load(&lines(&["block block", "none block", "3 -2 block"]));
    assert!(ok);
    // The column carries over from one line to the next; a line without a
    // number moves one row down; `3 -2` sets the column to 3 and the row to 2.
    assert_eq!(
        sorted_tiles(&info),
        vec![(0, 0, 1), (1, 0, 1), (2, 1, 0), (3, 1, 1), (5, 2, 1)]
    );
}

#[test]
fn load_splits_on_any_whitespace() {
    let mut info = Info::new();
    assert!(info.load(&lines(&["  block\tblock  ", "", "block"])));
    assert_eq!(sorted_tiles(&info), vec![(0, 0, 1), (1, 0, 1), (2, 2, 1)]);
}

#[test]
fn load_accepts_a_plus_sign() {
    let mut info = Info::new();
    assert!(info.load(&lines(&["+5 block"])));
    assert_eq!(sorted_tiles(&info), vec![(6, 0, 1)]);
}

#[test]
fn load_single_number_sets_column_only() {
    let mut info = Info::new();
    assert!(info.load(&lines(&["7", "block"])));
    // the number line does not move down a row
    assert_eq!(sorted_tiles(&info), vec![(8, 0, 1)]);
}

#[test]
fn load_later_word_overwrites_cell() {
    let mut info = Info::new();
    assert!(info.load(&lines(&["0 0 block", "0 0 none"])));
    assert_eq!(sorted_tiles(&info), vec![(2, 0, 0)]);
}

#[test]
fn load_refuses_unknown_word() {
    let mut info = Info::new();
    assert!(!info.load(&lines(&["block stone"])));
    assert!(info.tiles.entries().is_empty());
    assert!(!info.lines_readable(&lines(&["stone"])));
}

#[test]
fn load_refuses_column_overflow() {
    let mut info = Info::new();
    assert!(!info.load(&lines(&["9223372036854775807"])));
    assert!(info.load(&lines(&["9223372036854775806"])));
}

#[test]
fn load_refuses_negating_the_smallest_row() {
    let mut info = Info::new();
    assert!(!info.load(&lines(&["0 -9223372036854775808"])));
    assert!(info.load(&lines(&["0 -9223372036854775807 block"])));
    assert_eq!(sorted_tiles(&info), vec![(2, i64::MAX, 1)]);
}

#[test]
fn load_resets_previous_tiles() {
    let mut info = Info::new();
    assert!(info.load(&lines(&["block"])));
    assert!(info.load(&lines(&["none"])));
    assert_eq!(sorted_tiles(&info), vec![(0, 0, 0)]);
}

#[test]
fn map_tiles_after_load() {
    let mut info = Info::new();
    assert!(info.load(&Vec::new()));
    assert_eq!(info.map_tiles("none".to_string()), 0);
    assert_eq!(info.map_tiles("block".to_string()), 1);
}

#[test]
fn read_lines_adds_onto_existing_tiles() {
    let mut info = Info::new();
    assert!(info.load(&lines(&["block"])));
    assert!(info.lines_readable(&lines(&["none none"])));
    info.read_lines(&lines(&["none none"]));
    assert_eq!(sorted_tiles(&info), vec![(0, 0, 0), (1, 0, 0)]);
    assert!(info.tiles.contains_key(&Position::new(1, 0)));
}

#[test]
fn load_refuses_moving_below_the_last_row() {
    let mut info = Info::new();
    assert!(info.load(&lines(&["0 -9223372036854775807"])));
    assert!(!info.load(&lines(&["0 -9223372036854775807", ""])));
    assert!(info.tiles.entries().is_empty());
}

#[test]
fn load_reads_minus_zero_and_signs() {
    let mut info = Info::new();
    assert!(!info.load(&lines(&["-0 +0 block", "- block"])));
    assert!(!info.lines_readable(&lines(&["-"])));
    let mut info = Info::new();
    assert!(info.load(&lines(&["-0 +0 block"])));
    assert_eq!(sorted_tiles(&info), vec![(2, 0, 1)]);
}

#[test]
fn parse_i64_reads_decimal_numbers() {
    assert_eq!(parse_i64("42"), Some(42));
    assert_eq!(parse_i64("+7"), Some(7));
    assert_eq!(parse_i64("-0"), Some(0));
    assert_eq!(parse_i64("-9223372036854775808"), Some(i64::MIN));
    assert_eq!(parse_i64("9223372036854775807"), Some(i64::MAX));
    assert_eq!(parse_i64("9223372036854775808"), None);
    assert_eq!(parse_i64("-9223372036854775809"), None);
    assert_eq!(parse_i64("99999999999999999999999"), None);
    assert_eq!(parse_i64(""), None);
    assert_eq!(parse_i64("-"), None);
    assert_eq!(parse_i64("+-1"), None);
    assert_eq!(parse_i64(" 1"), None);
    assert_eq!(parse_i64("1a"), None);
    assert_eq!(parse_i64("٣"), None);
    assert_eq!(parse_i64("block"), None);
}

#[test]
fn words_readable_and_read_words() {
    let mut info = Info::new();
    assert!(info.load(&Vec::new()));
    let words = lines(&["4", "block", "none"]);
    assert_eq!(info.words_readable(&words, 0, 0), Some((7, 0, true)));
    assert_eq!(info.read_words(&words, 0, 0), (7, 0, true));
    assert_eq!(sorted_tiles(&info), vec![(5, 0, 1), (6, 0, 0)]);
    let words = lines(&["block"]);
    assert_eq!(info.words_readable(&words, 2, 3), Some((3, 3, false)));
    assert_eq!(info.words_readable(&lines(&["stone"]), 0, 0), None);
    assert_eq!(info.words_readable(&words, i64::MAX, 0), None);
}
