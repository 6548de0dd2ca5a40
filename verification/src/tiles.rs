use vstd::prelude::*;
use std::collections::HashMap;
use crate::position::{Position, cell};
use vstd::std_specs::iter::IteratorSpec;

verus! {

broadcast use vstd::std_specs::hash::group_hash_axioms;

/// Offset that moves an `i64` into the range of a `u64`.
pub open spec fn shift() -> int {
    0x8000_0000_0000_0000
}

/// Number of keys that share one column.
pub open spec fn column_width() -> int {
    0x1_0000_0000_0000_0000
}

/// The hash-map key under which the tile of a cell is stored: the column,
/// shifted to be non-negative, in the high half and the shifted row in the low
/// half. Every `u128` is the key of exactly one cell.
pub open spec fn key_of(p: Position) -> int {
    (p.x_of() + shift()) * column_width() + (p.y_of() + shift())
}

/// Distinct cells have distinct keys, and every key is a `u128`.
pub proof fn lemma_key_injective(p: Position, q: Position)
    ensures
        0 <= key_of(p) <= u128::MAX,
        key_of(p) == key_of(q) ==> p == q,
{
    let a = p.x_of() + shift();
    let b = p.y_of() + shift();
    let c = q.x_of() + shift();
    let d = q.y_of() + shift();
    let w = column_width();
    assert(0 <= a < w && 0 <= b < w && 0 <= c < w && 0 <= d < w);
    assert(0 <= a * w + b <= u128::MAX) by (nonlinear_arith)
        requires
            0 <= a < w,
            0 <= b < w,
            w == 0x1_0000_0000_0000_0000int,
    ;
    if a * w + b == c * w + d {
        assert(a == c && b == d) by (nonlinear_arith)
            requires
                0 <= a < w,
                0 <= b < w,
                0 <= c < w,
                0 <= d < w,
                a * w + b == c * w + d,
        ;
    }
    match p {
        Position::Coordinate { x, y } => {},
    }
    match q {
        Position::Coordinate { x, y } => {},
    }
}

/// Whether the map holds a tile in a cell whose column lies from `x_from` to
/// `x_to` and whose row lies from `y_from` to `y_to`, both ends included.
pub open spec fn has_tile_in(m: Map<Position, u64>, x_from: int, x_to: int, y_from: int, y_to: int) -> bool {
    exists|p: Position|
        #[trigger] m.contains_key(p) && x_from <= p.x_of() <= x_to && y_from <= p.y_of() <= y_to
}

/// The side of the wall found next to a cell in column `x`, searching rows `y`
/// to `y + y_shift`: `-1` for the column to the left, checked first, `1` for
/// the column to the right.
pub open spec fn adjacent_wall(m: Map<Position, u64>, x: i64, y: i64, y_shift: i64) -> Option<i64> {
    if has_tile_in(m, x - 1, x - 1, y as int, y + y_shift) {
        Some(-1i64)
    } else if has_tile_in(m, x + 1, x + 1, y as int, y + y_shift) {
        Some(1i64)
    } else {
        None
    }
}

/// The cells that the search for an adjacent wall steps on all fit in `i64`:
/// the right column is only reached when the left one holds no tile.
pub open spec fn adjacent_wall_in_range(m: Map<Position, u64>, x: i64, y: i64, y_shift: i64) -> bool {
    &&& i64::MIN < x
    &&& y + y_shift <= i64::MAX
    &&& !has_tile_in(m, x - 1, x - 1, y as int, y + y_shift) ==> x < i64::MAX
}

/// Every tile is empty (`0`) or solid (`1`).
pub open spec fn tiles_are_blocks(m: Map<Position, u64>) -> bool {
    forall|p: Position| #[trigger] m.contains_key(p) ==> m[p] <= 1
}

/// The tiles of a level: which cells hold a tile, and the tile number of each.
pub struct TileMap {
    cells: HashMap<u128, u64>,
}

impl View for TileMap {
    type V = Map<Position, u64>;

    closed spec fn view(&self) -> Map<Position, u64> {
        Map::new(
            |p: Position| self.cells@.contains_key(key_of(p) as u128),
            |p: Position| self.cells@[key_of(p) as u128],
        )
    }
}

fn key(x: i64, y: i64) -> (k: u128)
    ensures
        k == key_of(cell(x, y)),
{
    let hi: u128 = ((x as i128) + 0x8000_0000_0000_0000i128) as u128;
    let lo: u128 = ((y as i128) + 0x8000_0000_0000_0000i128) as u128;
    assert(hi * 0x1_0000_0000_0000_0000u128 + lo <= u128::MAX) by (nonlinear_arith)
        requires
            hi < 0x1_0000_0000_0000_0000u128,
            lo < 0x1_0000_0000_0000_0000u128,
    ;
    hi * 0x1_0000_0000_0000_0000u128 + lo
}

fn key_of_position(p: &Position) -> (k: u128)
    ensures
        k == key_of(*p),
{
    match p {
        Position::Coordinate { x, y } => key(*x, *y),
    }
}

fn position_of_key(k: u128) -> (p: Position)
    ensures
        key_of(p) == k,
{
    let hi: u128 = k / 0x1_0000_0000_0000_0000u128;
    let lo: u128 = k % 0x1_0000_0000_0000_0000u128;
    assert(hi < 0x1_0000_0000_0000_0000u128 && k == hi * 0x1_0000_0000_0000_0000u128 + lo)
        by (nonlinear_arith)
        requires
            hi == k / 0x1_0000_0000_0000_0000u128,
            lo == k % 0x1_0000_0000_0000_0000u128,
    ;
    let x: i64 = ((hi as i128) - 0x8000_0000_0000_0000i128) as i64;
    let y: i64 = ((lo as i128) - 0x8000_0000_0000_0000i128) as i64;
    Position::new(x, y)
}

impl TileMap {
    /// An empty tile map.
    pub fn new() -> (m: Self)
        ensures
            m@ == Map::<Position, u64>::empty(),
    {
        let m = TileMap { cells: HashMap::new() };
        assert(m@ =~= Map::<Position, u64>::empty());
        m
    }

    /// Whether the cell holds a tile.
    pub fn contains_key(&self, pos: &Position) -> (b: bool)
        ensures
            b == self@.contains_key(*pos),
    {
        let k = key_of_position(pos);
        self.cells.contains_key(&k)
    }

    /// The tile number of the cell, if it holds a tile.
    pub fn get(&self, pos: &Position) -> (r: Option<u64>)
        ensures
            r == (if self@.contains_key(*pos) { Some(self@[*pos]) } else { None::<u64> }),
    {
        let k = key_of_position(pos);
        match self.cells.get(&k) {
            Some(v) => Some(*v),
            None => None,
        }
    }

    /// Puts tile number `tile` on the cell, and gives back what was there.
    pub fn insert(&mut self, pos: Position, tile: u64) -> (r: Option<u64>)
        ensures
            final(self)@ == old(self)@.insert(pos, tile),
            r == (if old(self)@.contains_key(pos) { Some(old(self)@[pos]) } else { None::<u64> }),
    {
        let k = key_of_position(&pos);
        let r = self.cells.insert(k, tile);
        proof {
            assert forall|q: Position| #[trigger] final(self)@.contains_key(q) == old(self)@.insert(pos, tile).contains_key(q) by {
                lemma_key_injective(q, pos);
            }
            assert forall|q: Position| #[trigger] final(self)@.contains_key(q) implies final(self)@[q] == old(self)@.insert(pos, tile)[q] by {
                lemma_key_injective(q, pos);
            }
            assert(final(self)@ =~= old(self)@.insert(pos, tile));
        }
        r
    }

    /// Takes the tile off the cell, and gives back what was there.
    pub fn remove(&mut self, pos: &Position) -> (r: Option<u64>)
        ensures
            final(self)@ == old(self)@.remove(*pos),
            r == (if old(self)@.contains_key(*pos) { Some(old(self)@[*pos]) } else { None::<u64> }),
    {
        let k = key_of_position(pos);
        let r = self.cells.remove(&k);
        proof {
            assert forall|q: Position| #[trigger] final(self)@.contains_key(q) == old(self)@.remove(*pos).contains_key(q) by {
                lemma_key_injective(q, *pos);
            }
            assert forall|q: Position| #[trigger] final(self)@.contains_key(q) implies final(self)@[q] == old(self)@.remove(*pos)[q] by {
                lemma_key_injective(q, *pos);
            }
            assert(final(self)@ =~= old(self)@.remove(*pos));
        }
        r
    }

    /// Every tile of the map with its cell, each cell once, in no fixed order.
    pub fn entries(&self) -> (r: Vec<(Position, u64)>)
        ensures
            forall|i: int|
                0 <= i < r.len() ==> #[trigger] self@.contains_key(r[i].0) && self@[r[i].0] == r[i].1,
            forall|p: Position| #[trigger] self@.contains_key(p) ==> exists|i: int| 0 <= i < r.len() && r[i] == (p, self@[p]),
            forall|i: int, j: int| 0 <= i < r.len() && 0 <= j < r.len() && i != j ==> r[i].0 != r[j].0,
    {
        let mut r: Vec<(Position, u64)> = Vec::new();
        let ghost s = vstd::std_specs::hash::spec_hash_map_iter(&self.cells).remaining();
        for (k, v) in it: self.cells.iter()
            invariant
                it.seq() == s,
                r.len() == it.index(),
                forall|i: int| 0 <= i < r.len() ==> key_of(#[trigger] r[i].0) == *s[i].0 && r[i].1 == *s[i].1,
        {
            let p = position_of_key(*k);
            r.push((p, *v));
        }
        proof {
            assert(r.len() == s.len());
            assert forall|i: int|
                0 <= i < r.len() implies #[trigger] self@.contains_key(r[i].0) && self@[r[i].0] == r[i].1 by {
                lemma_key_injective(r[i].0, r[i].0);
                assert(self.cells@.contains_key(*s[i].0));
            }
            assert forall|p: Position| #[trigger] self@.contains_key(p) implies exists|i: int| 0 <= i < r.len() && r[i] == (p, self@[p]) by {
                lemma_key_injective(p, p);
                let k = key_of(p) as u128;
                assert(self.cells@.contains_key(k));
                assert(s.contains((&k, &self.cells@[k])));
                let i = choose|i: int| 0 <= i < s.len() && s[i] == (&k, &self.cells@[k]);
                lemma_key_injective(r[i].0, p);
                assert(r[i] == (p, self@[p]));
            }
            assert forall|i: int, j: int| 0 <= i < r.len() && 0 <= j < r.len() && i != j implies r[i].0 != r[j].0 by {
                if r[i].0 == r[j].0 {
                    assert(self.cells@.contains_key(*s[i].0));
                    assert(self.cells@.contains_key(*s[j].0));
                    assert(s[i] == s[j]);
                }
            }
        }
        r
    }

    /// Whether a cell of row `y` with a column from `x_from` to `x_to` holds a tile.
    pub fn any_in_row(&self, y: i64, x_from: i64, x_to: i64) -> (b: bool)
        ensures
            b == has_tile_in(self@, x_from as int, x_to as int, y as int, y as int),
    {
        if x_from > x_to {
            return false;
        }
        let mut x = x_from;
        loop
            invariant
                x_from <= x <= x_to,
                !has_tile_in(self@, x_from as int, x - 1, y as int, y as int),
            decreases x_to - x,
        {
            let p = Position::new(x, y);
            if self.contains_key(&p) {
                assert(self@.contains_key(cell(x, y)));
                return true;
            }
            if x == x_to {
                assert forall|q: Position| #[trigger] self@.contains_key(q) && x_from <= q.x_of() <= x_to && y <= q.y_of() <= y implies false by {
                    if q.x_of() == x {
                        assert(q == cell(x, y));
                    } else {
                        assert(!(self@.contains_key(q) && x_from <= q.x_of() <= x - 1 && y <= q.y_of() <= y));
                    }
                }
                return false;
            }
            assert forall|q: Position| #[trigger] self@.contains_key(q) && x_from <= q.x_of() <= x && y <= q.y_of() <= y implies false by {
                if q.x_of() == x {
                    assert(q == cell(x, y));
                } else {
                    assert(!(self@.contains_key(q) && x_from <= q.x_of() <= x - 1 && y <= q.y_of() <= y));
                }
            }
            x = x + 1;
        }
    }

    /// Whether a cell of column `x` with a row from `y_from` to `y_to` holds a tile.
    pub fn any_in_column(&self, x: i64, y_from: i64, y_to: i64) -> (b: bool)
        ensures
            b == has_tile_in(self@, x as int, x as int, y_from as int, y_to as int),
    {
        if y_from > y_to {
            return false;
        }
        let mut y = y_from;
        loop
            invariant
                y_from <= y <= y_to,
                !has_tile_in(self@, x as int, x as int, y_from as int, y - 1),
            decreases y_to - y,
        {
            if self.any_in_row(y, x, x) {
                return true;
            }
            if y == y_to {
                return false;
            }
            y = y + 1;
        }
    }

    /// Whether a cell with a column from `x_from` to `x_to` and a row from
    /// `y_from` to `y_to` holds a tile.
    pub fn any_in_rect(&self, x_from: i64, x_to: i64, y_from: i64, y_to: i64) -> (b: bool)
        ensures
            b == has_tile_in(self@, x_from as int, x_to as int, y_from as int, y_to as int),
    {
        if y_from > y_to {
            return false;
        }
        let mut y = y_from;
        loop
            invariant
                y_from <= y <= y_to,
                !has_tile_in(self@, x_from as int, x_to as int, y_from as int, y - 1),
            decreases y_to - y,
        {
            if self.any_in_row(y, x_from, x_to) {
                return true;
            }
            if y == y_to {
                return false;
            }
            y = y + 1;
        }
    }

    /// The side of the wall next to the cell in column `x`, looking at rows `y`
    /// to `y + y_shift` of the column to the left first and then of the column
    /// to the right.
    pub fn first_adjacent_wall(&self, x: i64, y: i64, y_shift: i64) -> (r: Option<i64>)
        requires
            0 <= y_shift <= 1,
            adjacent_wall_in_range(self@, x, y, y_shift),
        ensures
            r == adjacent_wall(self@, x, y, y_shift),
    {
        if self.any_in_column(x - 1, y, y + y_shift) {
            Some(-1)
        } else if self.any_in_column(x + 1, y, y + y_shift) {
            Some(1)
        } else {
            None
        }
    }
}

} // verus!
