use vstd::prelude::*;

verus! {

/// A cell of the tile grid. The y axis points down.
#[derive(PartialEq, Eq, Structural, Hash, Debug)]
pub enum Position {
    Coordinate { x: i64, y: i64 },
}

/// The cell at column `x` and row `y`.
pub open spec fn cell(x: i64, y: i64) -> Position {
    Position::Coordinate { x, y }
}

impl Position {
    /// The column of the cell.
    pub open spec fn x_of(self) -> i64 {
        match self {
            Position::Coordinate { x, .. } => x,
        }
    }

    /// The row of the cell.
    pub open spec fn y_of(self) -> i64 {
        match self {
            Position::Coordinate { y, .. } => y,
        }
    }

    /// Both coordinates of the cell, column first.
    pub fn get_xy(&self) -> (r: (i64, i64))
        ensures
            r == (self.x_of(), self.y_of()),
    {
        match self {
            Self::Coordinate { x, y } => (*x, *y),
        }
    }

    /// The column of the cell.
    pub fn get_x(&self) -> (r: i64)
        ensures
            r == self.x_of(),
    {
        match self {
            Self::Coordinate { x, y: _ } => *x,
        }
    }

    /// The row of the cell.
    pub fn get_y(&self) -> (r: i64)
        ensures
            r == self.y_of(),
    {
        match self {
            Self::Coordinate { x: _, y } => *y,
        }
    }

    /// A fresh copy of the cell.
    pub fn to_owned(&self) -> (r: Self)
        ensures
            r == *self,
    {
        match self {
            Self::Coordinate { x, y } => Self::new(*x, *y),
        }
    }

    /// The cell at column `x` and row `y`.
    pub fn new(x: i64, y: i64) -> (r: Self)
        ensures
            r == cell(x, y),
    {
        Self::Coordinate { x: x, y: y }
    }
}

/// A cell is determined by its two coordinates, and its coordinates are the
/// ones it was built from.
pub proof fn lemma_cell_coordinates(p: Position, x: i64, y: i64)
    ensures
        cell(x, y).x_of() == x,
        cell(x, y).y_of() == y,
        p == cell(p.x_of(), p.y_of()),
{
}

} // verus!
