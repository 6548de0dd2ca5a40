use vstd::prelude::*;
use crate::position::{Position, cell};
use crate::tiles::{TileMap, tiles_are_blocks};

verus! {

/// The cells on screen: columns `left` to `right` and rows `top` to `bottom`.
pub struct Viewport {
    pub left: i64,
    pub right: i64,
    pub top: i64,
    pub bottom: i64,
}

/// Whether a cell lies outside the viewport.
pub open spec fn outside(v: Viewport, p: Position) -> bool {
    p.x_of() < v.left || p.x_of() > v.right || p.y_of() < v.top || p.y_of() > v.bottom
}

/// Whether a cell lies strictly inside the viewport, off its border.
pub open spec fn strictly_inside(v: Viewport, p: Position) -> bool {
    v.left < p.x_of() < v.right && v.top < p.y_of() < v.bottom
}

/// Whether a cell lies in the box of columns `x_from` to `x_to` and rows
/// `y_from` to `y_to`.
pub open spec fn in_box(p: Position, x_from: int, x_to: int, y_from: int, y_to: int) -> bool {
    x_from <= p.x_of() <= x_to && y_from <= p.y_of() <= y_to
}

/// Whether loading the cell from the master tiles would meet a tile number
/// other than empty or solid.
pub open spec fn unexpected(tiles: Map<Position, u64>, all: Map<Position, u64>, p: Position) -> bool {
    !tiles.contains_key(p) && all.contains_key(p) && all[p] > 1
}

/// The visible tiles after loading a box of cells from the master tiles:
/// each solid master tile of the box that is not visible yet becomes visible;
/// visible tiles stay as they are.
pub open spec fn loads(
    tiles: Map<Position, u64>,
    all: Map<Position, u64>,
    x_from: int,
    x_to: int,
    y_from: int,
    y_to: int,
) -> Map<Position, u64> {
    Map::new(
        |p: Position|
            tiles.contains_key(p) || (in_box(p, x_from, x_to, y_from, y_to) && all.contains_key(p)
                && all[p] == 1),
        |p: Position|
            if tiles.contains_key(p) {
                tiles[p]
            } else {
                1u64
            },
    )
}

/// The tiles after adding the solid tiles of `level` that `keep` selects.
pub open spec fn with_solid(
    tiles: Map<Position, u64>,
    level: Map<Position, u64>,
    keep: spec_fn(Position) -> bool,
) -> Map<Position, u64> {
    Map::new(
        |p: Position| tiles.contains_key(p) || (level.contains_key(p) && level[p] == 1 && keep(p)),
        |p: Position|
            if level.contains_key(p) && level[p] == 1 && keep(p) {
                1u64
            } else {
                tiles[p]
            },
    )
}

/// Whether a list of cells names exactly the unexpected cells of a box, each
/// once.
pub open spec fn lists_unexpected(
    r: Seq<Position>,
    tiles: Map<Position, u64>,
    all: Map<Position, u64>,
    x_from: int,
    x_to: int,
    y_from: int,
    y_to: int,
) -> bool {
    &&& forall|i: int|
        0 <= i < r.len() ==> in_box(#[trigger] r[i], x_from, x_to, y_from, y_to) && unexpected(tiles, all, r[i])
    &&& forall|p: Position|
        in_box(p, x_from, x_to, y_from, y_to) && #[trigger] unexpected(tiles, all, p) ==> r.contains(p)
    &&& r.no_duplicates()
}

/// How the player moves along one axis this frame, as the cell loader needs
/// it: whether the velocity is not zero, its sign (`1`, `-1`, or `0` when it
/// is neither positive nor negative), and its ceiling and floor in cells.
pub struct AxisMotion {
    pub moving: bool,
    pub sign: i64,
    pub ceil: i64,
    pub floor: i64,
}

/// The columns to load for a horizontal motion. Moving right, from the right
/// edge of the viewport outwards by the velocity's ceiling; moving left, from
/// the left edge inwards by as many columns as the floor of the (negative)
/// velocity is below zero.
pub open spec fn x_load_range(v: Viewport, m: AxisMotion) -> (int, int) {
    if m.sign > 0 {
        (v.right as int, v.right + m.ceil)
    } else if m.sign < 0 {
        (v.left as int, v.left - m.floor)
    } else {
        (0, 0)
    }
}

/// The rows to load for a vertical motion, from the bottom edge of the
/// viewport up to the floor of the velocity when moving down, and from the top
/// edge down to its ceiling when moving up. The range ends before it starts,
/// so that no row is loaded, once the speed reaches a whole cell per frame.
pub open spec fn y_load_range(v: Viewport, m: AxisMotion) -> (int, int) {
    if m.sign > 0 {
        (v.bottom as int, v.bottom - m.floor)
    } else if m.sign < 0 {
        (v.top as int, v.top + m.ceil)
    } else {
        (0, 0)
    }
}

/// The visible tiles after loading the cells that a motion brings on screen:
/// first the columns of the horizontal motion over the viewport's rows, then
/// the rows of the vertical motion over the viewport's columns.
pub open spec fn onscreen_loads(
    tiles: Map<Position, u64>,
    all: Map<Position, u64>,
    v: Viewport,
    xm: AxisMotion,
    ym: AxisMotion,
) -> Map<Position, u64> {
    let t1 = if xm.moving {
        loads(tiles, all, x_load_range(v, xm).0, x_load_range(v, xm).1, v.top as int, v.bottom as int)
    } else {
        tiles
    };
    if ym.moving {
        loads(t1, all, v.left as int, v.right as int, y_load_range(v, ym).0, y_load_range(v, ym).1)
    } else {
        t1
    }
}

/// Whether `r` lists the unexpected cells of the columns that a horizontal
/// motion loads (nothing when the motion stands still).
pub open spec fn lists_x_unexpected(
    r: Seq<Position>,
    tiles: Map<Position, u64>,
    all: Map<Position, u64>,
    v: Viewport,
    xm: AxisMotion,
) -> bool {
    if xm.moving {
        lists_unexpected(r, tiles, all, x_load_range(v, xm).0, x_load_range(v, xm).1, v.top as int, v.bottom as int)
    } else {
        r.len() == 0
    }
}

/// Whether `r` lists the unexpected cells of the rows that a vertical motion
/// loads (nothing when the motion stands still).
pub open spec fn lists_y_unexpected(
    r: Seq<Position>,
    tiles: Map<Position, u64>,
    all: Map<Position, u64>,
    v: Viewport,
    ym: AxisMotion,
) -> bool {
    if ym.moving {
        lists_unexpected(r, tiles, all, v.left as int, v.right as int, y_load_range(v, ym).0, y_load_range(v, ym).1)
    } else {
        r.len() == 0
    }
}

/// Whether a cell is one that the motion brings on screen.
pub open spec fn in_onscreen_boxes(p: Position, v: Viewport, xm: AxisMotion, ym: AxisMotion) -> bool {
    ||| xm.moving && in_box(p, x_load_range(v, xm).0, x_load_range(v, xm).1, v.top as int, v.bottom as int)
    ||| ym.moving && in_box(p, v.left as int, v.right as int, y_load_range(v, ym).0, y_load_range(v, ym).1)
}

/// The ends of the load ranges of a motion fit in `i64`.
pub open spec fn load_ranges_in_range(v: Viewport, xm: AxisMotion, ym: AxisMotion) -> bool {
    &&& i64::MIN <= x_load_range(v, xm).1 <= i64::MAX
    &&& i64::MIN <= y_load_range(v, ym).1 <= i64::MAX
}

/// Every tile is solid.
pub open spec fn all_solid(m: Map<Position, u64>) -> bool {
    forall|p: Position| #[trigger] m.contains_key(p) ==> m[p] == 1
}

/// Whether the first `i` entries include one for the cell.
pub open spec fn seen(e: Seq<(Position, u64)>, i: int, p: Position) -> bool {
    exists|k: int| 0 <= k < i && (#[trigger] e[k]).0 == p
}

/// Hiding the listed offscreen tiles leaves exactly the visible tiles inside
/// the viewport.
pub proof fn lemma_cull_keeps_inside(tiles: Map<Position, u64>, list: Seq<Position>, v: Viewport)
    requires
        forall|i: int| 0 <= i < list.len() ==> #[trigger] tiles.contains_key(list[i]) && outside(v, list[i]),
        forall|p: Position| #[trigger] tiles.contains_key(p) && outside(v, p) ==> list.contains(p),
    ensures
        forall|p: Position|
            #[trigger] tiles.remove_keys(list.to_set()).contains_key(p) == (tiles.contains_key(p) && !outside(v, p)),
        forall|p: Position|
            #[trigger] tiles.remove_keys(list.to_set()).contains_key(p) ==> tiles.remove_keys(list.to_set())[p]
                == tiles[p],
{
    assert forall|p: Position|
        #[trigger] tiles.remove_keys(list.to_set()).contains_key(p) == (tiles.contains_key(p) && !outside(v, p)) by {
        if list.to_set().contains(p) {
            let i = choose|i: int| 0 <= i < list.len() && list[i] == p;
        }
        if tiles.contains_key(p) && outside(v, p) {
            assert(list.contains(p));
        }
    }
}

/// Loading cells never hides a visible tile nor changes its number.
pub proof fn lemma_loads_keep_visible(
    tiles: Map<Position, u64>,
    all: Map<Position, u64>,
    x_from: int,
    x_to: int,
    y_from: int,
    y_to: int,
)
    ensures
        tiles.submap_of(loads(tiles, all, x_from, x_to, y_from, y_to)),
{
}

/// The cells a motion brings on screen, by the edge it moves towards. Moving
/// right loads the columns from the right edge `right` to `right + ceil`,
/// moving left the columns from the left edge `left` to `left - floor`, both
/// over the rows `top` to `bottom`. Moving down loads the rows from the bottom
/// edge `bottom` to `bottom - floor`, moving up the rows from the top edge
/// `top` to `top + ceil`, both over the columns `left` to `right`. Exactly the
/// solid master tiles of those cells become visible; visible tiles stay.
pub proof fn lemma_onscreen_loads_by_edge(
    tiles: Map<Position, u64>,
    all: Map<Position, u64>,
    v: Viewport,
    xm: AxisMotion,
    ym: AxisMotion,
)
    requires
        !xm.moving || xm.sign != 0,
        !ym.moving || ym.sign != 0,
    ensures
        forall|p: Position|
            #[trigger] onscreen_loads(tiles, all, v, xm, ym).contains_key(p) == (tiles.contains_key(p) || (
            all.contains_key(p) && all[p] == 1 && ((xm.moving && v.top <= p.y_of() <= v.bottom && (if xm.sign
                > 0 {
                v.right <= p.x_of() <= v.right + xm.ceil
            } else {
                v.left <= p.x_of() <= v.left - xm.floor
            })) || (ym.moving && v.left <= p.x_of() <= v.right && (if ym.sign > 0 {
                v.bottom <= p.y_of() <= v.bottom - ym.floor
            } else {
                v.top <= p.y_of() <= v.top + ym.ceil
            }))))),
        forall|p: Position|
            #[trigger] onscreen_loads(tiles, all, v, xm, ym).contains_key(p) ==> onscreen_loads(
                tiles,
                all,
                v,
                xm,
                ym,
            )[p] == if tiles.contains_key(p) {
                tiles[p]
            } else {
                1u64
            },
{
}

/// Hiding the listed offscreen tiles keeps exactly the visible tiles with a
/// column from `left` to `right` and a row from `top` to `bottom`: a tile left
/// of the left edge, right of the right edge, above the top or below the
/// bottom is hidden.
pub proof fn lemma_cull_by_edge(tiles: Map<Position, u64>, list: Seq<Position>, v: Viewport)
    requires
        forall|i: int| 0 <= i < list.len() ==> #[trigger] tiles.contains_key(list[i]) && outside(v, list[i]),
        forall|p: Position| #[trigger] tiles.contains_key(p) && outside(v, p) ==> list.contains(p),
    ensures
        forall|p: Position|
            #[trigger] tiles.remove_keys(list.to_set()).contains_key(p) == (tiles.contains_key(p) && v.left
                <= p.x_of() <= v.right && v.top <= p.y_of() <= v.bottom),
{
    lemma_cull_keeps_inside(tiles, list, v);
}

/// Taking in a level makes a solid level tile visible exactly when its
/// column lies strictly between `left` and `right` and its row strictly
/// between `top` and `bottom`; every solid level tile goes into the master
/// copy, with number 1.
pub proof fn lemma_level_by_edge(
    tiles: Map<Position, u64>,
    master: Map<Position, u64>,
    level: Map<Position, u64>,
    v: Viewport,
    visible: Map<Position, u64>,
    all: Map<Position, u64>,
)
    requires
        visible == with_solid(tiles, level, |q: Position| strictly_inside(v, q)),
        all == with_solid(master, level, |q: Position| true),
    ensures
        forall|p: Position|
            #[trigger] visible.contains_key(p) == (tiles.contains_key(p) || (level.contains_key(p) && level[p] == 1
                && v.left < p.x_of() < v.right && v.top < p.y_of() < v.bottom)),
        forall|p: Position|
            level.contains_key(p) && level[p] == 1 && v.left < p.x_of() < v.right && v.top < p.y_of() < v.bottom
                ==> #[trigger] visible[p] == 1,
        forall|p: Position|
            #[trigger] all.contains_key(p) == (master.contains_key(p) || (level.contains_key(p) && level[p] == 1)),
        forall|p: Position| level.contains_key(p) && level[p] == 1 ==> #[trigger] all[p] == 1,
{
}

/// What loading one cell from the master tiles did.
#[derive(PartialEq, Eq, Structural, Debug)]
pub enum TileLoad {
    /// Nothing to load: no master tile, already visible, or an empty tile.
    Skipped,
    /// The solid master tile became visible.
    Added,
    /// The master tile holds a number that is neither empty nor solid.
    Unexpected,
}

/// The tiles of the running game: the ones currently loaded around the
/// player, and the master copy of the whole level.
pub struct World {
    pub tiles: TileMap,
    pub all_tiles: TileMap,
}

impl World {
    /// Every loaded tile is a tile of the master copy, with the same number.
    pub open spec fn consistent(&self) -> bool {
        forall|p: Position|
            #[trigger] self.tiles@.contains_key(p) ==> self.all_tiles@.contains_key(p)
                && self.all_tiles@[p] == self.tiles@[p]
    }

    /// A world with no tiles.
    pub fn new() -> (w: Self)
        ensures
            w.tiles@ == Map::<Position, u64>::empty(),
            w.all_tiles@ == Map::<Position, u64>::empty(),
    {
        World { tiles: TileMap::new(), all_tiles: TileMap::new() }
    }

    /// Makes a tile visible.
    pub fn add(&mut self, position: Position, tile_type: u64)
        ensures
            final(self).tiles@ == old(self).tiles@.insert(position, tile_type),
            final(self).all_tiles@ == old(self).all_tiles@,
    {
        self.tiles.insert(position, tile_type);
    }

    /// Puts a tile into the master copy.
    pub fn add_to_master(&mut self, position: Position, tile_type: u64)
        ensures
            final(self).tiles@ == old(self).tiles@,
            final(self).all_tiles@ == old(self).all_tiles@.insert(position, tile_type),
    {
        self.all_tiles.insert(position, tile_type);
    }

    /// Hides the listed tiles.
    pub fn remove_offscreen_tiles(&mut self, tiles_to_remove: Vec<Position>)
        ensures
            final(self).tiles@ == old(self).tiles@.remove_keys(tiles_to_remove@.to_set()),
            final(self).all_tiles@ == old(self).all_tiles@,
            old(self).consistent() ==> final(self).consistent(),
    {
        let n = tiles_to_remove.len();
        let mut i: usize = 0;
        while i < n
            invariant
                n == tiles_to_remove.len(),
                i <= n,
                self.tiles@ == old(self).tiles@.remove_keys(tiles_to_remove@.take(i as int).to_set()),
                self.all_tiles@ == old(self).all_tiles@,
            decreases n - i,
        {
            self.tiles.remove(&tiles_to_remove[i]);
            proof {
                let s0 = tiles_to_remove@.take(i as int);
                let s1 = tiles_to_remove@.take(i + 1);
                assert(s1 =~= s0.push(tiles_to_remove@[i as int]));
                assert(s1.to_set() =~= s0.to_set().insert(tiles_to_remove@[i as int])) by {
                    s0.lemma_push_to_set_commute(tiles_to_remove@[i as int]);
                }
                assert(self.tiles@ =~= old(self).tiles@.remove_keys(s1.to_set()));
            }
            i = i + 1;
        }
        assert(tiles_to_remove@.take(n as int) =~= tiles_to_remove@);
    }

    /// The visible tiles that lie outside the viewport, each once.
    pub fn offscreen_tiles(&self, view: &Viewport) -> (r: Vec<Position>)
        ensures
            forall|i: int|
                0 <= i < r.len() ==> #[trigger] self.tiles@.contains_key(r[i]) && outside(*view, r[i]),
            forall|p: Position|
                #[trigger] self.tiles@.contains_key(p) && outside(*view, p) ==> r@.contains(p),
            r@.no_duplicates(),
            forall|p: Position|
                #[trigger] self.tiles@.contains_key(p) && (p.x_of() < view.left || p.x_of() > view.right || p.y_of()
                    < view.top || p.y_of() > view.bottom) ==> r@.contains(p),
            forall|i: int|
                0 <= i < r.len() ==> !(view.left <= (#[trigger] r[i]).x_of() <= view.right && view.top <= r[i].y_of()
                    <= view.bottom),
    {
        let entries = self.tiles.entries();
        let mut r: Vec<Position> = Vec::new();
        let n = entries.len();
        let mut i: usize = 0;
        while i < n
            invariant
                n == entries.len(),
                i <= n,
                forall|k: int|
                    0 <= k < entries.len() ==> #[trigger] self.tiles@.contains_key(entries[k].0)
                        && self.tiles@[entries[k].0] == entries[k].1,
                forall|p: Position|
                    #[trigger] self.tiles@.contains_key(p) ==> exists|k: int|
                        0 <= k < entries.len() && entries[k] == (p, self.tiles@[p]),
                forall|k: int, l: int|
                    0 <= k < entries.len() && 0 <= l < entries.len() && k != l ==> entries[k].0
                        != entries[l].0,
                forall|k: int|
                    0 <= k < r.len() ==> #[trigger] self.tiles@.contains_key(r[k]) && outside(*view, r[k]),
                forall|k: int|
                    0 <= k < i && outside(*view, #[trigger] entries[k].0) ==> r@.contains(entries[k].0),
                forall|k: int| 0 <= k < r.len() ==> exists|l: int| 0 <= l < i && entries[l].0 == #[trigger] r[k],
                r@.no_duplicates(),
            decreases n - i,
        {
            let (x, y) = entries[i].0.get_xy();
            let ghost old_r = r@;
            if x < view.left || x > view.right || y < view.top || y > view.bottom {
                let p = entries[i].0.to_owned();
                proof {
                    assert forall|k: int| 0 <= k < r.len() implies r[k] != p by {
                        let l = choose|l: int| 0 <= l < i && entries[l].0 == r[k];
                    }
                }
                r.push(p);
            }
            proof {
                assert forall|k: int|
                    0 <= k < i + 1 && outside(*view, #[trigger] entries[k].0) implies r@.contains(entries[k].0) by {
                    if k < i {
                        let idx = choose|idx: int| 0 <= idx < old_r.len() && old_r[idx] == entries[k].0;
                        assert(r@[idx] == entries[k].0);
                    } else {
                        assert(r@[r.len() - 1] == entries[k].0);
                    }
                }
            }
            i = i + 1;
        }
        proof {
            assert forall|p: Position|
                #[trigger] self.tiles@.contains_key(p) && outside(*view, p) implies r@.contains(p) by {
                let k = choose|k: int| 0 <= k < entries.len() && entries[k] == (p, self.tiles@[p]);
                assert(outside(*view, entries[k].0));
            }
        }
        assert forall|i: int| 0 <= i < r.len() implies !(view.left <= (#[trigger] r[i]).x_of() <= view.right
            && view.top <= r[i].y_of() <= view.bottom) by {
            assert(self.tiles@.contains_key(r[i]) && outside(*view, r[i]));
        }
        r
    }

    /// Makes the master tile of a cell visible when it is solid and not
    /// visible yet.
    pub fn load_tile(&mut self, possible_position: Position) -> (r: TileLoad)
        ensures
            final(self).all_tiles@ == old(self).all_tiles@,
            final(self).tiles@ == loads(
                old(self).tiles@,
                old(self).all_tiles@,
                possible_position.x_of() as int,
                possible_position.x_of() as int,
                possible_position.y_of() as int,
                possible_position.y_of() as int,
            ),
            r == (if unexpected(old(self).tiles@, old(self).all_tiles@, possible_position) {
                TileLoad::Unexpected
            } else if final(self).tiles@ == old(self).tiles@ {
                TileLoad::Skipped
            } else {
                TileLoad::Added
            }),
            old(self).consistent() ==> final(self).consistent(),
    {
        let ghost p = possible_position;
        let ghost t0 = self.tiles@;
        let ghost l = loads(t0, self.all_tiles@, p.x_of() as int, p.x_of() as int, p.y_of() as int, p.y_of() as int);
        proof {
            match p {
                Position::Coordinate { x, y } => {},
            }
        }
        if self.all_tiles.contains_key(&possible_position) && !self.tiles.contains_key(&possible_position) {
            match self.all_tiles.get(&possible_position) {
                Some(tile_type) => {
                    if tile_type == 0 {
                        assert(self.tiles@ =~= l);
                        return TileLoad::Skipped;
                    } else if tile_type == 1 {
                        self.add(possible_position, tile_type);
                        assert(self.tiles@ =~= l);
                        assert(self.tiles@.contains_key(p) && !t0.contains_key(p));
                        return TileLoad::Added;
                    } else {
                        assert(self.tiles@ =~= l);
                        return TileLoad::Unexpected;
                    }
                },
                None => {},
            }
        }
        assert(self.tiles@ =~= l);
        TileLoad::Skipped
    }

    fn load_column(&mut self, x: i64, y_from: i64, y_to: i64) -> (r: Vec<Position>)
        ensures
            final(self).all_tiles@ == old(self).all_tiles@,
            final(self).tiles@ == loads(old(self).tiles@, old(self).all_tiles@, x as int, x as int, y_from as int, y_to as int),
            lists_unexpected(r@, old(self).tiles@, old(self).all_tiles@, x as int, x as int, y_from as int, y_to as int),
            old(self).consistent() ==> final(self).consistent(),
    {
        let mut r: Vec<Position> = Vec::new();
        if y_from > y_to {
            assert(self.tiles@ =~= loads(old(self).tiles@, old(self).all_tiles@, x as int, x as int, y_from as int, y_to as int));
            return r;
        }
        let ghost t0 = self.tiles@;
        let ghost all = self.all_tiles@;
        let mut y = y_from;
        assert(self.tiles@ =~= loads(t0, all, x as int, x as int, y_from as int, y - 1));
        loop
            invariant
                y_from <= y <= y_to,
                self.all_tiles@ == all,
                all == old(self).all_tiles@,
                t0 == old(self).tiles@,
                self.tiles@ == loads(t0, all, x as int, x as int, y_from as int, y - 1),
                lists_unexpected(r@, t0, all, x as int, x as int, y_from as int, y - 1),
                old(self).consistent() ==> self.consistent(),
            decreases y_to - y,
        {
            let p = Position::new(x, y);
            let ghost before = self.tiles@;
            let ghost old_r = r@;
            let outcome = self.load_tile(p);
            proof {
                let q = cell(x, y);
                assert(self.tiles@ =~= loads(t0, all, x as int, x as int, y_from as int, y as int));
                assert(before.contains_key(q) == t0.contains_key(q));
                assert(unexpected(before, all, q) == unexpected(t0, all, q));
            }
            if outcome == TileLoad::Unexpected {
                r.push(Position::new(x, y));
            }
            proof {
                let q = cell(x, y);
                assert forall|i: int| 0 <= i < old_r.len() implies old_r[i] != q by {
                    assert(in_box(old_r[i], x as int, x as int, y_from as int, y - 1));
                }
                assert forall|pp: Position|
                    in_box(pp, x as int, x as int, y_from as int, y as int) && #[trigger] unexpected(t0, all, pp)
                    implies r@.contains(pp) by {
                    if pp.y_of() < y {
                        assert(old_r.contains(pp));
                        let idx = choose|idx: int| 0 <= idx < old_r.len() && old_r[idx] == pp;
                        assert(r@[idx] == pp);
                    } else {
                        assert(pp == q);
                        assert(r@[r.len() - 1] == pp);
                    }
                }
            }
            if y == y_to {
                return r;
            }
            y = y + 1;
        }
    }

    fn load_rect(&mut self, x_from: i64, x_to: i64, y_from: i64, y_to: i64) -> (r: Vec<Position>)
        ensures
            final(self).all_tiles@ == old(self).all_tiles@,
            final(self).tiles@ == loads(old(self).tiles@, old(self).all_tiles@, x_from as int, x_to as int, y_from as int, y_to as int),
            lists_unexpected(r@, old(self).tiles@, old(self).all_tiles@, x_from as int, x_to as int, y_from as int, y_to as int),
            old(self).consistent() ==> final(self).consistent(),
    {
        let mut r: Vec<Position> = Vec::new();
        if x_from > x_to {
            assert(self.tiles@ =~= loads(old(self).tiles@, old(self).all_tiles@, x_from as int, x_to as int, y_from as int, y_to as int));
            return r;
        }
        let ghost t0 = self.tiles@;
        let ghost all = self.all_tiles@;
        let mut x = x_from;
        assert(self.tiles@ =~= loads(t0, all, x_from as int, x - 1, y_from as int, y_to as int));
        loop
            invariant
                x_from <= x <= x_to,
                self.all_tiles@ == all,
                all == old(self).all_tiles@,
                t0 == old(self).tiles@,
                self.tiles@ == loads(t0, all, x_from as int, x - 1, y_from as int, y_to as int),
                lists_unexpected(r@, t0, all, x_from as int, x - 1, y_from as int, y_to as int),
                old(self).consistent() ==> self.consistent(),
            decreases x_to - x,
        {
            let ghost before = self.tiles@;
            let ghost old_r = r@;
            let mut column = self.load_column(x, y_from, y_to);
            let ghost col = column@;
            proof {
                assert(self.tiles@ =~= loads(t0, all, x_from as int, x as int, y_from as int, y_to as int));
                assert forall|pp: Position| in_box(pp, x as int, x as int, y_from as int, y_to as int) implies
                    unexpected(before, all, pp) == unexpected(t0, all, pp) by {
                }
            }
            r.append(&mut column);
            proof {
                assert forall|i: int, j: int| 0 <= i < old_r.len() && 0 <= j < col.len() implies old_r[i] != col[j] by {
                    assert(in_box(old_r[i], x_from as int, x - 1, y_from as int, y_to as int));
                    assert(in_box(col[j], x as int, x as int, y_from as int, y_to as int));
                }
                assert(r@ =~= old_r + col);
                assert forall|i: int| 0 <= i < r.len() implies in_box(#[trigger] r@[i], x_from as int, x as int, y_from as int, y_to as int) && unexpected(t0, all, r@[i]) by {
                    if i >= old_r.len() {
                        assert(r@[i] == col[i - old_r.len()]);
                    }
                }
                assert forall|pp: Position|
                    in_box(pp, x_from as int, x as int, y_from as int, y_to as int) && #[trigger] unexpected(t0, all, pp)
                    implies r@.contains(pp) by {
                    if pp.x_of() < x {
                        let idx = choose|idx: int| 0 <= idx < old_r.len() && old_r[idx] == pp;
                        assert(r@[idx] == pp);
                    } else {
                        assert(unexpected(before, all, pp));
                        let idx = choose|idx: int| 0 <= idx < col.len() && col[idx] == pp;
                        assert(r@[old_r.len() + idx] == pp);
                    }
                }
                assert forall|i: int, j: int| 0 <= i < r.len() && 0 <= j < r.len() && i != j implies r@[i] != r@[j] by {
                    if i < old_r.len() && j >= old_r.len() {
                        assert(r@[j] == col[j - old_r.len()]);
                    } else if j < old_r.len() && i >= old_r.len() {
                        assert(r@[i] == col[i - old_r.len()]);
                    } else if i >= old_r.len() && j >= old_r.len() {
                        assert(r@[i] == col[i - old_r.len()]);
                        assert(r@[j] == col[j - old_r.len()]);
                    }
                }
            }
            if x == x_to {
                return r;
            }
            x = x + 1;
        }
    }

    /// Loads the solid master tiles of columns `x_start` to `x_end` over the
    /// rows of the viewport. Returns the cells whose master tile was neither
    /// empty nor solid.
    pub fn load_tiles_vertical(&mut self, x_start: i64, x_end: i64, view: &Viewport) -> (r: Vec<Position>)
        ensures
            final(self).all_tiles@ == old(self).all_tiles@,
            final(self).tiles@ == loads(old(self).tiles@, old(self).all_tiles@, x_start as int, x_end as int, view.top as int, view.bottom as int),
            lists_unexpected(r@, old(self).tiles@, old(self).all_tiles@, x_start as int, x_end as int, view.top as int, view.bottom as int),
            old(self).consistent() ==> final(self).consistent(),
    {
        self.load_rect(x_start, x_end, view.top, view.bottom)
    }

    /// Loads the solid master tiles of rows `y_start` to `y_end` over the
    /// columns of the viewport. Returns the cells whose master tile was
    /// neither empty nor solid.
    pub fn load_tiles_horizontal(&mut self, y_start: i64, y_end: i64, view: &Viewport) -> (r: Vec<Position>)
        ensures
            final(self).all_tiles@ == old(self).all_tiles@,
            final(self).tiles@ == loads(old(self).tiles@, old(self).all_tiles@, view.left as int, view.right as int, y_start as int, y_end as int),
            lists_unexpected(r@, old(self).tiles@, old(self).all_tiles@, view.left as int, view.right as int, y_start as int, y_end as int),
            old(self).consistent() ==> final(self).consistent(),
    {
        self.load_rect(view.left, view.right, y_start, y_end)
    }

    /// Loads the solid master tiles that the player's motion brings on
    /// screen (see `onscreen_loads`). Returns the cells met whose master tile
    /// was neither empty nor solid: those of the columns loaded for the
    /// horizontal motion, each once, followed by those of the rows loaded for
    /// the vertical motion, each once; a cell in both is listed twice.
    pub fn load_onscreen_tiles(&mut self, view: &Viewport, x_motion: &AxisMotion, y_motion: &AxisMotion) -> (r: Vec<Position>)
        requires
            load_ranges_in_range(*view, *x_motion, *y_motion),
        ensures
            final(self).all_tiles@ == old(self).all_tiles@,
            final(self).tiles@ == onscreen_loads(old(self).tiles@, old(self).all_tiles@, *view, *x_motion, *y_motion),
            forall|i: int| 0 <= i < r.len() ==> in_onscreen_boxes(#[trigger] r[i], *view, *x_motion, *y_motion)
                && unexpected(old(self).tiles@, old(self).all_tiles@, r[i]),
            forall|p: Position| in_onscreen_boxes(p, *view, *x_motion, *y_motion)
                && #[trigger] unexpected(old(self).tiles@, old(self).all_tiles@, p) ==> r@.contains(p),
            exists|k: int|
                0 <= k <= r.len() && lists_x_unexpected(
                    r@.take(k),
                    old(self).tiles@,
                    old(self).all_tiles@,
                    *view,
                    *x_motion,
                ) && lists_y_unexpected(r@.skip(k), old(self).tiles@, old(self).all_tiles@, *view, *y_motion),
            old(self).consistent() ==> final(self).consistent(),
    {
        let ghost t0 = self.tiles@;
        let ghost all = self.all_tiles@;
        let mut x_start: i64 = 0;
        let mut x_end: i64 = 0;
        if x_motion.sign > 0 {
            x_start = view.right;
            x_end = x_start + x_motion.ceil;
        } else if x_motion.sign < 0 {
            x_start = view.left;
            x_end = x_start - x_motion.floor;
        }
        let mut y_start: i64 = 0;
        let mut y_end: i64 = 0;
        if y_motion.sign > 0 {
            y_start = view.bottom;
            y_end = y_start - y_motion.floor;
        } else if y_motion.sign < 0 {
            y_start = view.top;
            y_end = y_start + y_motion.ceil;
        }
        let mut r: Vec<Position> = Vec::new();
        if x_motion.moving {
            r = self.load_tiles_vertical(x_start, x_end, view);
        }
        let ghost t1 = self.tiles@;
        let ghost r1 = r@;
        proof {
            assert forall|p: Position| #[trigger] unexpected(t1, all, p) == unexpected(t0, all, p) by {}
        }
        if y_motion.moving {
            let mut more = self.load_tiles_horizontal(y_start, y_end, view);
            let ghost r2 = more@;
            r.append(&mut more);
            proof {
                assert(r@ =~= r1 + r2);
                assert forall|i: int| 0 <= i < r.len() implies in_onscreen_boxes(#[trigger] r@[i], *view, *x_motion, *y_motion)
                    && unexpected(t0, all, r@[i]) by {
                    if i >= r1.len() {
                        assert(r@[i] == r2[i - r1.len()]);
                    }
                }
                assert forall|p: Position| in_onscreen_boxes(p, *view, *x_motion, *y_motion)
                    && #[trigger] unexpected(t0, all, p) implies r@.contains(p) by {
                    if x_motion.moving && in_box(p, x_start as int, x_end as int, view.top as int, view.bottom as int) {
                        let idx = choose|idx: int| 0 <= idx < r1.len() && r1[idx] == p;
                        assert(r@[idx] == p);
                    } else {
                        assert(unexpected(t1, all, p));
                        let idx = choose|idx: int| 0 <= idx < r2.len() && r2[idx] == p;
                        assert(r@[r1.len() + idx] == p);
                    }
                }
                assert(r@.take(r1.len() as int) =~= r1);
                assert(r@.skip(r1.len() as int) =~= r2);
                assert(lists_y_unexpected(r2, t0, all, *view, *y_motion)) by {
                    assert forall|p: Position|
                        in_box(p, view.left as int, view.right as int, y_start as int, y_end as int)
                            && #[trigger] unexpected(t0, all, p) implies r2.contains(p) by {
                        assert(unexpected(t1, all, p));
                    }
                }
            }
        } else {
            proof {
                assert(r@.take(r1.len() as int) =~= r1);
                assert(r@.skip(r1.len() as int) =~= Seq::<Position>::empty());
            }
        }
        proof {
            assert(0 <= r1.len() <= r.len() && lists_x_unexpected(r@.take(r1.len() as int), t0, all, *view, *x_motion)
                && lists_y_unexpected(r@.skip(r1.len() as int), t0, all, *view, *y_motion));
        }
        r
    }

    /// Takes in the level's tiles: every solid tile goes into the master copy,
    /// and becomes visible when it lies strictly inside the viewport; empty
    /// tiles are left out.
    pub fn load_level(&mut self, level: &TileMap, view: &Viewport)
        requires
            tiles_are_blocks(level@),
        ensures
            final(self).tiles@ == with_solid(old(self).tiles@, level@, |p: Position| strictly_inside(*view, p)),
            final(self).all_tiles@ == with_solid(old(self).all_tiles@, level@, |p: Position| true),
            old(self).consistent() && all_solid(old(self).tiles@) ==> final(self).consistent() && all_solid(final(self).tiles@),
            forall|p: Position|
                #[trigger] final(self).tiles@.contains_key(p) == (old(self).tiles@.contains_key(p) || (level@.contains_key(p)
                    && level@[p] == 1 && view.left < p.x_of() < view.right && view.top < p.y_of() < view.bottom)),
    {
        let entries = level.entries();
        let ghost t0 = self.tiles@;
        let ghost a0 = self.all_tiles@;
        let n = entries.len();
        let mut i: usize = 0;
        while i < n
            invariant
                n == entries.len(),
                i <= n,
                tiles_are_blocks(level@),
                forall|k: int|
                    0 <= k < entries.len() ==> #[trigger] level@.contains_key(entries[k].0)
                        && level@[entries[k].0] == entries[k].1,
                forall|p: Position|
                    #[trigger] level@.contains_key(p) ==> exists|k: int|
                        0 <= k < entries.len() && entries[k] == (p, level@[p]),
                forall|p: Position| #[trigger] self.tiles@.contains_key(p) == (t0.contains_key(p) || (seen(entries@, i as int, p)
                    && level@[p] == 1 && strictly_inside(*view, p))),
                forall|p: Position| #[trigger] self.tiles@.contains_key(p) ==> self.tiles@[p] == (if seen(entries@, i as int, p)
                    && level@[p] == 1 && strictly_inside(*view, p) { 1u64 } else { t0[p] }),
                forall|p: Position| #[trigger] self.all_tiles@.contains_key(p) == (a0.contains_key(p) || (seen(entries@, i as int, p)
                    && level@[p] == 1)),
                forall|p: Position| #[trigger] self.all_tiles@.contains_key(p) ==> self.all_tiles@[p] == (if seen(entries@, i as int, p)
                    && level@[p] == 1 { 1u64 } else { a0[p] }),
                forall|p: Position| #[trigger] seen(entries@, i as int, p) ==> level@.contains_key(p),
            decreases n - i,
        {
            let (x, y) = entries[i].0.get_xy();
            let tile_type = entries[i].1;
            let ghost q = entries@[i as int].0;
            proof {
                assert(level@.contains_key(q));
                assert forall|p: Position| #[trigger] seen(entries@, i + 1, p) == (seen(entries@, i as int, p) || p == q) by {
                    if p == q {
                        assert(entries@[i as int].0 == p);
                    }
                    if seen(entries@, i + 1, p) && p != q {
                        let k = choose|k: int| 0 <= k < i + 1 && (#[trigger] entries@[k]).0 == p;
                        assert(k < i);
                    }
                }
            }
            if tile_type == 1 {
                if x > view.left && x < view.right && y > view.top && y < view.bottom {
                    self.add(Position::new(x, y), tile_type);
                }
                self.add_to_master(Position::new(x, y), tile_type);
            }
            proof {
                assert(q == cell(x, y));
            }
            i = i + 1;
        }
        proof {
            assert forall|p: Position| #[trigger] level@.contains_key(p) implies seen(entries@, n as int, p) by {
                let k = choose|k: int| 0 <= k < entries.len() && entries[k] == (p, level@[p]);
                assert(entries@[k].0 == p);
            }
            assert(self.tiles@ =~= with_solid(t0, level@, |p: Position| strictly_inside(*view, p)));
            assert(self.all_tiles@ =~= with_solid(a0, level@, |p: Position| true));
            lemma_level_by_edge(t0, a0, level@, *view, self.tiles@, self.all_tiles@);
        }
    }
}

} // verus!
