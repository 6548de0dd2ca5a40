use vstd::prelude::*;

verus! {

/// The kinds of block a level tile can hold.
#[derive(PartialEq, Eq, Structural, Debug)]
pub enum Blocks {
    Empty,
    Solid,
    Spike,
}

/// The block kind that a tile number stands for: `0` is empty, `1` solid,
/// `2` a spike; any other number is read as empty.
pub open spec fn block_of(n: i64) -> Blocks {
    if n == 1 {
        Blocks::Solid
    } else if n == 2 {
        Blocks::Spike
    } else {
        Blocks::Empty
    }
}

impl Blocks {
    /// Turns a tile number into its block kind.
    pub fn int_to_enum(n: i64) -> (b: Blocks)
        ensures
            b == block_of(n),
    {
        match n {
            0 => Blocks::Empty,
            1 => Blocks::Solid,
            2 => Blocks::Spike,
            _ => Blocks::Empty,
        }
    }
}

} // verus!
