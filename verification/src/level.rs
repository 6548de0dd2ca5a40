use vstd::prelude::*;
use crate::position::{Position, cell};
use crate::tiles::{TileMap, tiles_are_blocks};
use crate::text::{decimal_i64, whitespace_words, parse_i64, split_whitespace};

verus! {

/// The word table as a map: a later entry for the same word wins.
pub open spec fn table_of(entries: Seq<(String, u64)>) -> Map<Seq<char>, u64>
    decreases entries.len(),
{
    if entries.len() == 0 {
        Map::empty()
    } else {
        table_of(entries.drop_last()).insert(entries.last().0@, entries.last().1)
    }
}

/// The texts of the strings.
pub open spec fn texts_of(lines: Seq<String>) -> Seq<Seq<char>> {
    lines.map_values(|l: String| l@)
}

/// The cursor after one word of a level line, or `None` where reading the
/// word fails. A number sets the column, or the row (negated) when the line
/// has already set a coordinate; any other word names a tile kind in the
/// word table. The column then moves one to the right. Reading fails on a
/// word the table does not know and where a coordinate leaves `i64`.
pub open spec fn word_step(
    table: Map<Seq<char>, u64>,
    x: i64,
    y: i64,
    set_pos: bool,
    w: Seq<char>,
) -> Option<(i64, i64)> {
    match decimal_i64(w) {
        Some(pos) => if set_pos {
            if pos != i64::MIN && x < i64::MAX {
                Some(((x + 1) as i64, (-pos) as i64))
            } else {
                None
            }
        } else {
            if pos < i64::MAX {
                Some(((pos + 1) as i64, y))
            } else {
                None
            }
        },
        None => if table.contains_key(w) && x < i64::MAX {
            Some(((x + 1) as i64, y))
        } else {
            None
        },
    }
}

/// Reading the words of one line from cursor `(x, y)` onto `tiles`: the new
/// cursor, whether a number was read, and the tiles; `None` where reading fails.
/// A tile word puts its tile number on the cell under the cursor.
pub open spec fn words_read(
    table: Map<Seq<char>, u64>,
    x: i64,
    y: i64,
    tiles: Map<Position, u64>,
    ws: Seq<Seq<char>>,
) -> Option<(i64, i64, bool, Map<Position, u64>)>
    decreases ws.len(),
{
    if ws.len() == 0 {
        Some((x, y, false, tiles))
    } else {
        match words_read(table, x, y, tiles, ws.drop_last()) {
            None => None,
            Some((x1, y1, set_pos, t1)) => {
                let w = ws.last();
                match word_step(table, x1, y1, set_pos, w) {
                    None => None,
                    Some((x2, y2)) => Some(
                        (
                            x2,
                            y2,
                            set_pos || decimal_i64(w) is Some,
                            if decimal_i64(w) is Some {
                                t1
                            } else {
                                t1.insert(cell(x1, y1), table[w])
                            },
                        ),
                    ),
                }
            },
        }
    }
}

/// Reading one line: its whitespace-separated words, then one row down unless
/// the line held a number.
pub open spec fn line_read(
    table: Map<Seq<char>, u64>,
    x: i64,
    y: i64,
    tiles: Map<Position, u64>,
    line: Seq<char>,
) -> Option<(i64, i64, Map<Position, u64>)> {
    match words_read(table, x, y, tiles, whitespace_words(line)) {
        None => None,
        Some((x1, y1, set_pos, t1)) => if set_pos {
            Some((x1, y1, t1))
        } else if y1 < i64::MAX {
            Some((x1, (y1 + 1) as i64, t1))
        } else {
            None
        },
    }
}

/// Reading the lines one after the other from cursor `(x, y)` onto `tiles`.
pub open spec fn lines_read(
    table: Map<Seq<char>, u64>,
    x: i64,
    y: i64,
    tiles: Map<Position, u64>,
    lines: Seq<Seq<char>>,
) -> Option<(i64, i64, Map<Position, u64>)>
    decreases lines.len(),
{
    if lines.len() == 0 {
        Some((x, y, tiles))
    } else {
        match lines_read(table, x, y, tiles, lines.drop_last()) {
            None => None,
            Some((x1, y1, t1)) => line_read(table, x1, y1, t1, lines.last()),
        }
    }
}

/// The word table a level is read with: `none` is tile `0`, `block` is tile `1`.
pub open spec fn tile_words(old_table: Map<Seq<char>, u64>) -> Map<Seq<char>, u64> {
    old_table.insert("none"@, 0u64).insert("block"@, 1u64)
}

/// Reading a whole level from the top-left cursor `(0, 0)` onto `tiles`.
pub open spec fn level_read(
    table: Map<Seq<char>, u64>,
    tiles: Map<Position, u64>,
    lines: Seq<Seq<char>>,
) -> Option<(i64, i64, Map<Position, u64>)> {
    lines_read(table, 0, 0, tiles, lines)
}

proof fn lemma_words_prefix(
    table: Map<Seq<char>, u64>,
    x: i64,
    y: i64,
    tiles: Map<Position, u64>,
    ws: Seq<Seq<char>>,
    k: int,
)
    requires
        0 <= k <= ws.len(),
        words_read(table, x, y, tiles, ws.take(k)) is None,
    ensures
        words_read(table, x, y, tiles, ws) is None,
    decreases ws.len() - k,
{
    if k < ws.len() {
        assert(ws.take(k + 1).drop_last() =~= ws.take(k));
        lemma_words_prefix(table, x, y, tiles, ws, k + 1);
    } else {
        assert(ws.take(k) =~= ws);
    }
}

/// Whether reading words succeeds, and where it leaves the cursor, does not
/// depend on the tiles read onto.
proof fn lemma_words_tiles(
    table: Map<Seq<char>, u64>,
    x: i64,
    y: i64,
    t1: Map<Position, u64>,
    t2: Map<Position, u64>,
    ws: Seq<Seq<char>>,
)
    ensures
        (words_read(table, x, y, t1, ws) is Some) == (words_read(table, x, y, t2, ws) is Some),
        words_read(table, x, y, t1, ws) is Some ==> {
            let a = words_read(table, x, y, t1, ws)->0;
            let b = words_read(table, x, y, t2, ws)->0;
            a.0 == b.0 && a.1 == b.1 && a.2 == b.2
        },
    decreases ws.len(),
{
    if ws.len() > 0 {
        lemma_words_tiles(table, x, y, t1, t2, ws.drop_last());
    }
}

proof fn lemma_lines_prefix(
    table: Map<Seq<char>, u64>,
    x: i64,
    y: i64,
    tiles: Map<Position, u64>,
    lines: Seq<Seq<char>>,
    k: int,
)
    requires
        0 <= k <= lines.len(),
        lines_read(table, x, y, tiles, lines.take(k)) is None,
    ensures
        lines_read(table, x, y, tiles, lines) is None,
    decreases lines.len() - k,
{
    if k < lines.len() {
        assert(lines.take(k + 1).drop_last() =~= lines.take(k));
        lemma_lines_prefix(table, x, y, tiles, lines, k + 1);
    } else {
        assert(lines.take(k) =~= lines);
    }
}

/// Every word of the table stands for an empty or a solid tile.
pub open spec fn table_is_blocks(table: Map<Seq<char>, u64>) -> bool {
    forall|w: Seq<char>| #[trigger] table.contains_key(w) ==> table[w] <= 1
}

proof fn lemma_words_blocks(
    table: Map<Seq<char>, u64>,
    x: i64,
    y: i64,
    tiles: Map<Position, u64>,
    ws: Seq<Seq<char>>,
)
    requires
        table_is_blocks(table),
        tiles_are_blocks(tiles),
        words_read(table, x, y, tiles, ws) is Some,
    ensures
        tiles_are_blocks((words_read(table, x, y, tiles, ws)->0).3),
    decreases ws.len(),
{
    if ws.len() > 0 {
        lemma_words_blocks(table, x, y, tiles, ws.drop_last());
    }
}

/// Reading a level with a table of empty and solid tile words onto empty and
/// solid tiles leaves only empty and solid tiles.
pub proof fn lemma_lines_blocks(
    table: Map<Seq<char>, u64>,
    x: i64,
    y: i64,
    tiles: Map<Position, u64>,
    lines: Seq<Seq<char>>,
)
    requires
        table_is_blocks(table),
        tiles_are_blocks(tiles),
        lines_read(table, x, y, tiles, lines) is Some,
    ensures
        tiles_are_blocks((lines_read(table, x, y, tiles, lines)->0).2),
    decreases lines.len(),
{
    if lines.len() > 0 {
        lemma_lines_blocks(table, x, y, tiles, lines.drop_last());
        let (x1, y1, t1) = lines_read(table, x, y, tiles, lines.drop_last())->0;
        lemma_words_blocks(table, x1, y1, t1, whitespace_words(lines.last()));
    }
}

/// A line whose words are two numbers `a` and `b` and then a tile word puts
/// the column at `a`, the row at `-b` (the level's rows count upwards, the
/// grid's downwards), and the tile one column further right, at `(a + 2, -b)`;
/// the cursor ends one column past the tile and stays on row `-b`.
pub proof fn lemma_two_numbers_then_tile(
    table: Map<Seq<char>, u64>,
    x: i64,
    y: i64,
    tiles: Map<Position, u64>,
    line: Seq<char>,
    wa: Seq<char>,
    wb: Seq<char>,
    wc: Seq<char>,
    a: i64,
    b: i64,
)
    requires
        whitespace_words(line) == seq![wa, wb, wc],
        decimal_i64(wa) == Some(a),
        decimal_i64(wb) == Some(b),
        decimal_i64(wc) is None,
        table.contains_key(wc),
        a < i64::MAX - 2,
        b != i64::MIN,
    ensures
        line_read(table, x, y, tiles, line) == Some(
            ((a + 3) as i64, (-b) as i64, tiles.insert(cell((a + 2) as i64, (-b) as i64), table[wc])),
        ),
{
    let ws = seq![wa, wb, wc];
    assert(ws.drop_last() =~= seq![wa, wb]);
    assert(ws.drop_last().drop_last() =~= seq![wa]);
    assert(ws.drop_last().drop_last().drop_last() =~= Seq::<Seq<char>>::empty());
    assert(seq![wa].drop_last() =~= Seq::<Seq<char>>::empty());
    assert(seq![wa, wb].drop_last() =~= seq![wa]);
    assert(words_read(table, x, y, tiles, Seq::empty()) == Some((x, y, false, tiles)));
    assert(word_step(table, x, y, false, wa) == Some(((a + 1) as i64, y)));
    assert(words_read(table, x, y, tiles, seq![wa]) == Some(((a + 1) as i64, y, true, tiles)));
    assert(words_read(table, x, y, tiles, seq![wa, wb]) == Some(((a + 2) as i64, (-b) as i64, true, tiles)));
}

/// A line of one tile word and nothing else puts the tile under the cursor,
/// moves one column right and one row down.
pub proof fn lemma_tile_word_line(
    table: Map<Seq<char>, u64>,
    x: i64,
    y: i64,
    tiles: Map<Position, u64>,
    line: Seq<char>,
    w: Seq<char>,
)
    requires
        whitespace_words(line) == seq![w],
        decimal_i64(w) is None,
        table.contains_key(w),
        x < i64::MAX,
        y < i64::MAX,
    ensures
        line_read(table, x, y, tiles, line) == Some(((x + 1) as i64, (y + 1) as i64, tiles.insert(cell(x, y), table[w]))),
{
    assert(seq![w].drop_last() =~= Seq::<Seq<char>>::empty());
    assert(seq![w].last() == w);
    assert(words_read(table, x, y, tiles, Seq::empty()) == Some((x, y, false, tiles)));
}

/// A single number on a line sets the column to it (the cursor then stands
/// one column further right), keeps the row, and places no tile.
pub proof fn lemma_number_line(
    table: Map<Seq<char>, u64>,
    x: i64,
    y: i64,
    tiles: Map<Position, u64>,
    line: Seq<char>,
    w: Seq<char>,
    a: i64,
)
    requires
        whitespace_words(line) == seq![w],
        decimal_i64(w) == Some(a),
        a < i64::MAX,
    ensures
        line_read(table, x, y, tiles, line) == Some(((a + 1) as i64, y, tiles)),
{
    assert(seq![w].drop_last() =~= Seq::<Seq<char>>::empty());
    assert(seq![w].last() == w);
    assert(words_read(table, x, y, tiles, Seq::empty()) == Some((x, y, false, tiles)));
}

/// Loading makes sure of the same two tile words each time, so loading the
/// same lines again reads the same level.
pub proof fn lemma_load_twice(table: Map<Seq<char>, u64>, lines: Seq<Seq<char>>)
    ensures
        tile_words(tile_words(table)) == tile_words(table),
        level_read(tile_words(tile_words(table)), Map::empty(), lines) == level_read(
            tile_words(table),
            Map::empty(),
            lines,
        ),
{
    reveal_strlit("none");
    reveal_strlit("block");
    assert(tile_words(tile_words(table)) =~= tile_words(table));
}

proof fn lemma_table_tail(entries: Seq<(String, u64)>, i: int, w: Seq<char>)
    requires
        0 <= i <= entries.len(),
        forall|j: int| i <= j < entries.len() ==> (#[trigger] entries[j]).0@ != w,
    ensures
        table_of(entries).contains_key(w) == table_of(entries.take(i)).contains_key(w),
        table_of(entries).contains_key(w) ==> table_of(entries)[w] == table_of(entries.take(i))[w],
    decreases entries.len() - i,
{
    if i < entries.len() {
        lemma_table_tail(entries.drop_last(), i, w);
        assert(entries.drop_last().take(i) =~= entries.take(i));
    } else {
        assert(entries.take(i) =~= entries);
    }
}

proof fn lemma_table_update(entries: Seq<(String, u64)>, i: int, e: (String, u64))
    requires
        0 <= i < entries.len(),
        entries[i].0@ == e.0@,
        forall|j: int| i < j < entries.len() ==> (#[trigger] entries[j]).0@ != e.0@,
    ensures
        table_of(entries.update(i, e)) == table_of(entries).insert(e.0@, e.1),
    decreases entries.len(),
{
    let u = entries.update(i, e);
    if i == entries.len() - 1 {
        assert(u.drop_last() =~= entries.drop_last());
        assert(table_of(u) =~= table_of(entries).insert(e.0@, e.1));
    } else {
        lemma_table_update(entries.drop_last(), i, e);
        assert(u.drop_last() =~= entries.drop_last().update(i, e));
        assert(table_of(u) =~= table_of(entries).insert(e.0@, e.1));
    }
}

/// A level: the tiles read from its file and the table of tile words.
pub struct Info {
    pub tiles: TileMap,
    map: Vec<(String, u64)>,
}

impl Info {
    /// The tiles read so far.
    pub closed spec fn tiles_view(&self) -> Map<Position, u64> {
        self.tiles@
    }

    /// Which tile number each tile word stands for.
    pub closed spec fn word_map(&self) -> Map<Seq<char>, u64> {
        table_of(self.map@)
    }

    /// Every tile word stands for an empty (`0`) or a solid (`1`) tile.
    pub open spec fn words_are_blocks(&self) -> bool {
        table_is_blocks(self.word_map())
    }

    /// A level with no tiles and an empty word table.
    pub fn new() -> (r: Self)
        ensures
            r.tiles_view() == Map::<Position, u64>::empty(),
            r.word_map() == Map::<Seq<char>, u64>::empty(),
            r.words_are_blocks(),
    {
        Info { tiles: TileMap::new(), map: Vec::new() }
    }

    fn lookup(&self, word: &String) -> (r: Option<u64>)
        ensures
            r == (if self.word_map().contains_key(word@) {
                Some(self.word_map()[word@])
            } else {
                None::<u64>
            }),
    {
        let mut i = self.map.len();
        while i > 0
            invariant
                i <= self.map.len(),
                forall|j: int| i <= j < self.map.len() ==> (#[trigger] self.map@[j]).0@ != word@,
            decreases i,
        {
            if self.map[i - 1].0 == *word {
                proof {
                    lemma_table_tail(self.map@, i as int, word@);
                    assert(self.map@.take(i as int).drop_last() =~= self.map@.take(i - 1));
                }
                return Some(self.map[i - 1].1);
            }
            i = i - 1;
        }
        proof {
            lemma_table_tail(self.map@, 0, word@);
            assert(table_of(self.map@.take(0)) =~= Map::<Seq<char>, u64>::empty());
        }
        None
    }

    fn set_word(&mut self, word: String, tile: u64)
        ensures
            final(self).word_map() == old(self).word_map().insert(word@, tile),
            final(self).tiles == old(self).tiles,
    {
        let mut i = self.map.len();
        while i > 0
            invariant
                i <= self.map.len(),
                self.map@ == old(self).map@,
                self.tiles == old(self).tiles,
                forall|j: int| i <= j < self.map.len() ==> (#[trigger] self.map@[j]).0@ != word@,
            decreases i,
        {
            if self.map[i - 1].0 == word {
                proof {
                    lemma_table_update(self.map@, i - 1, (word, tile));
                }
                self.map.set(i - 1, (word, tile));
                return;
            }
            i = i - 1;
        }
        let ghost before = self.map@;
        self.map.push((word, tile));
        proof {
            assert(self.map@.drop_last() =~= before);
        }
    }

    /// The tile number that a tile word stands for.
    pub fn map_tiles(&self, word: String) -> (r: u64)
        requires
            self.word_map().contains_key(word@),
        ensures
            r == self.word_map()[word@],
    {
        match self.lookup(&word) {
            Some(v) => v,
            None => 0,
        }
    }

    fn initiate(&mut self)
        ensures
            final(self).tiles_view() == Map::<Position, u64>::empty(),
            final(self).word_map() == old(self).word_map(),
    {
        self.tiles = TileMap::new();
    }

    fn initiate_map(&mut self)
        ensures
            final(self).word_map() == tile_words(old(self).word_map()),
            final(self).tiles == old(self).tiles,
    {
        self.set_word("none".to_owned(), 0);
        self.set_word("block".to_owned(), 1);
    }

    fn step(&self, x: i64, y: i64, set_pos: bool, word: &String) -> (r: Option<(i64, i64, Option<u64>)>)
        ensures
            (r is None) == (word_step(self.word_map(), x, y, set_pos, word@) is None),
            r matches Some((x2, y2, t)) ==> {
                &&& word_step(self.word_map(), x, y, set_pos, word@) == Some((x2, y2))
                &&& t == (if decimal_i64(word@) is Some {
                    None::<u64>
                } else {
                    Some(self.word_map()[word@])
                })
            },
    {
        match parse_i64(word.as_str()) {
            Some(pos) => {
                if set_pos {
                    if pos == i64::MIN || x == i64::MAX {
                        None
                    } else {
                        Some((x + 1, -pos, None))
                    }
                } else {
                    if pos == i64::MAX {
                        None
                    } else {
                        Some((pos + 1, y, None))
                    }
                }
            },
            None => match self.lookup(word) {
                Some(tile) => {
                    if x == i64::MAX {
                        None
                    } else {
                        Some((x + 1, y, Some(tile)))
                    }
                },
                None => None,
            },
        }
    }

    /// Whether the words of a line can be read from cursor `(x, y)`, and if
    /// so, the cursor after them and whether one of them was a number.
    pub fn words_readable(&self, words: &Vec<String>, x: i64, y: i64) -> (r: Option<(i64, i64, bool)>)
        ensures
            (r is Some) == (words_read(self.word_map(), x, y, self.tiles_view(), texts_of(words@)) is Some),
            r matches Some((x2, y2, set_pos)) ==> {
                let w = words_read(self.word_map(), x, y, self.tiles_view(), texts_of(words@))->0;
                x2 == w.0 && y2 == w.1 && set_pos == w.2
            },
    {
        let ghost table = self.word_map();
        let ghost t0 = self.tiles_view();
        let ghost ws = texts_of(words@);
        let ghost mut tiles = t0;
        let mut cx = x;
        let mut cy = y;
        let mut set_pos = false;
        let n = words.len();
        let mut i: usize = 0;
        assert(ws.take(0) =~= Seq::<Seq<char>>::empty());
        while i < n
            invariant
                n == words.len(),
                i <= n,
                ws == texts_of(words@),
                table == self.word_map(),
                t0 == self.tiles_view(),
                words_read(table, x, y, t0, ws.take(i as int)) == Some((cx, cy, set_pos, tiles)),
            decreases n - i,
        {
            assert(ws.take(i + 1).drop_last() =~= ws.take(i as int));
            match self.step(cx, cy, set_pos, &words[i]) {
                Some((x2, y2, t)) => {
                    proof {
                        if t is Some {
                            tiles = tiles.insert(cell(cx, cy), t->0);
                        }
                    }
                    cx = x2;
                    cy = y2;
                    set_pos = set_pos || t.is_none();
                },
                None => {
                    proof {
                        lemma_words_prefix(table, x, y, t0, ws, i + 1);
                    }
                    return None;
                },
            }
            i = i + 1;
        }
        assert(ws.take(n as int) =~= ws);
        Some((cx, cy, set_pos))
    }

    /// Reads the words of a line from cursor `(x, y)` onto the tiles (see
    /// `words_read`). Returns the cursor after them and whether one of them
    /// was a number.
    pub fn read_words(&mut self, words: &Vec<String>, x: i64, y: i64) -> (r: (i64, i64, bool))
        requires
            words_read(old(self).word_map(), x, y, old(self).tiles_view(), texts_of(words@)) is Some,
        ensures
            final(self).word_map() == old(self).word_map(),
            (r.0, r.1, r.2, final(self).tiles_view()) == words_read(
                old(self).word_map(),
                x,
                y,
                old(self).tiles_view(),
                texts_of(words@),
            )->0,
    {
        let ghost table = self.word_map();
        let ghost t0 = self.tiles_view();
        let ghost ws = texts_of(words@);
        let mut cx = x;
        let mut cy = y;
        let mut set_pos = false;
        let n = words.len();
        let mut i: usize = 0;
        assert(ws.take(0) =~= Seq::<Seq<char>>::empty());
        while i < n
            invariant
                n == words.len(),
                i <= n,
                ws == texts_of(words@),
                table == self.word_map(),
                words_read(table, x, y, t0, ws) is Some,
                words_read(table, x, y, t0, ws.take(i as int)) == Some((cx, cy, set_pos, self.tiles_view())),
            decreases n - i,
        {
            assert(ws.take(i + 1).drop_last() =~= ws.take(i as int));
            match self.step(cx, cy, set_pos, &words[i]) {
                Some((x2, y2, t)) => {
                    match t {
                        Some(tile) => {
                            self.tiles.insert(Position::new(cx, cy), tile);
                        },
                        None => {},
                    }
                    cx = x2;
                    cy = y2;
                    set_pos = set_pos || t.is_none();
                },
                None => {
                    proof {
                        lemma_words_prefix(table, x, y, t0, ws, i + 1);
                    }
                },
            }
            i = i + 1;
        }
        assert(ws.take(n as int) =~= ws);
        (cx, cy, set_pos)
    }

    /// Whether the lines can be read as a level onto the current tiles: every
    /// word that is not a number is in the word table, and no coordinate leaves
    /// `i64`.
    pub fn lines_readable(&self, lines: &Vec<String>) -> (b: bool)
        ensures
            b == (lines_read(self.word_map(), 0, 0, self.tiles_view(), texts_of(lines@)) is Some),
    {
        let ghost table = self.word_map();
        let ghost t0 = self.tiles_view();
        let ghost texts = texts_of(lines@);
        let ghost mut tiles = t0;
        let mut x: i64 = 0;
        let mut y: i64 = 0;
        let n = lines.len();
        let mut li: usize = 0;
        assert(texts.take(0) =~= Seq::<Seq<char>>::empty());
        while li < n
            invariant
                n == lines.len(),
                li <= n,
                texts == texts_of(lines@),
                table == self.word_map(),
                t0 == self.tiles_view(),
                lines_read(table, 0, 0, t0, texts.take(li as int)) == Some((x, y, tiles)),
            decreases n - li,
        {
            let words = split_whitespace(lines[li].as_str());
            let ghost ws = whitespace_words(texts[li as int]);
            assert(texts.take(li + 1).drop_last() =~= texts.take(li as int));
            assert(texts.take(li + 1).last() == texts[li as int]);
            proof {
                lemma_words_tiles(table, x, y, t0, tiles, ws);
            }
            match self.words_readable(&words, x, y) {
                Some((x2, y2, set_pos)) => {
                    proof {
                        tiles = (words_read(table, x, y, tiles, ws)->0).3;
                    }
                    x = x2;
                    y = y2;
                    if !set_pos {
                        if y == i64::MAX {
                            proof {
                                lemma_lines_prefix(table, 0, 0, t0, texts, li + 1);
                            }
                            return false;
                        }
                        y = y + 1;
                    }
                },
                None => {
                    proof {
                        lemma_lines_prefix(table, 0, 0, t0, texts, li + 1);
                    }
                    return false;
                },
            }
            li = li + 1;
        }
        assert(texts.take(n as int) =~= texts);
        true
    }

    /// Reads the lines of a level onto the tiles, starting at column 0 and
    /// row 0 (see `lines_read`).
    pub fn read_lines(&mut self, lines: &Vec<String>)
        requires
            lines_read(old(self).word_map(), 0, 0, old(self).tiles_view(), texts_of(lines@)) is Some,
        ensures
            final(self).word_map() == old(self).word_map(),
            final(self).tiles_view() == (lines_read(
                old(self).word_map(),
                0,
                0,
                old(self).tiles_view(),
                texts_of(lines@),
            )->0).2,
    {
        let ghost table = self.word_map();
        let ghost t0 = self.tiles_view();
        let ghost texts = texts_of(lines@);
        let mut x: i64 = 0;
        let mut y: i64 = 0;
        let n = lines.len();
        let mut li: usize = 0;
        assert(texts.take(0) =~= Seq::<Seq<char>>::empty());
        while li < n
            invariant
                n == lines.len(),
                li <= n,
                texts == texts_of(lines@),
                table == self.word_map(),
                lines_read(table, 0, 0, t0, texts) is Some,
                lines_read(table, 0, 0, t0, texts.take(li as int)) == Some((x, y, self.tiles_view())),
            decreases n - li,
        {
            let words = split_whitespace(lines[li].as_str());
            assert(texts.take(li + 1).drop_last() =~= texts.take(li as int));
            assert(texts.take(li + 1).last() == texts[li as int]);
            proof {
                if lines_read(table, 0, 0, t0, texts.take(li + 1)) is None {
                    lemma_lines_prefix(table, 0, 0, t0, texts, li + 1);
                }
            }
            let (x2, y2, set_pos) = self.read_words(&words, x, y);
            x = x2;
            y = y2;
            if !set_pos {
                y = y + 1;
            }
            li = li + 1;
        }
        assert(texts.take(n as int) =~= texts);
    }

    /// Loads a level from the lines of its file: clears the tiles, makes sure
    /// the word table knows `none` (tile 0) and `block` (tile 1), and reads the
    /// lines when they can be read. Returns whether they were read; when they
    /// were not, the tiles stay empty.
    pub fn load(&mut self, lines: &Vec<String>) -> (ok: bool)
        ensures
            final(self).word_map() == tile_words(old(self).word_map()),
            ok == (level_read(final(self).word_map(), Map::empty(), texts_of(lines@)) is Some),
            ok ==> final(self).tiles_view() == (level_read(
                final(self).word_map(),
                Map::empty(),
                texts_of(lines@),
            )->0).2,
            !ok ==> final(self).tiles_view() == Map::<Position, u64>::empty(),
            old(self).words_are_blocks() ==> final(self).words_are_blocks(),
            ok && old(self).words_are_blocks() ==> tiles_are_blocks(final(self).tiles_view()),
    {
        self.initiate();
        self.initiate_map();
        if self.lines_readable(lines) {
            self.read_lines(lines);
            proof {
                if old(self).words_are_blocks() {
                    lemma_lines_blocks(self.word_map(), 0, 0, Map::empty(), texts_of(lines@));
                }
            }
            true
        } else {
            false
        }
    }
}

} // verus!
