use vstd::prelude::*;
use vstd::std_specs::ops::AddSpecImpl;
use vstd::std_specs::ops::SubSpecImpl;

verus! {

/// The place of an element on the map: a row and a column, counted from the
/// top left corner.
#[derive(PartialEq, Eq, Structural, Clone, Copy, Debug)]
pub struct Position {
    pub row: usize,
    pub col: usize,
}

impl Position {
    /// Creates a position.
    pub fn new(row: usize, col: usize) -> (pos: Position)
        ensures
            pos.row == row,
            pos.col == col,
    {
        Position { row, col }
    }

    /// The row of the position.
    pub fn get_row(&self) -> (row: usize)
        ensures
            row == self.row,
    {
        self.row
    }

    /// The column of the position.
    pub fn get_col(&self) -> (col: usize)
        ensures
            col == self.col,
    {
        self.col
    }
}

/// Adds two positions, row to row and column to column.
impl core::ops::Add for Position {
    type Output = Position;

    fn add(self, other: Position) -> (sum: Position) {
        Position { row: self.row + other.row, col: self.col + other.col }
    }
}

impl AddSpecImpl for Position {
    open spec fn obeys_add_spec() -> bool {
        true
    }

    open spec fn add_req(self, other: Position) -> bool {
        self.row + other.row <= usize::MAX && self.col + other.col <= usize::MAX
    }

    open spec fn add_spec(self, other: Position) -> Position {
        Position { row: (self.row + other.row) as usize, col: (self.col + other.col) as usize }
    }
}

/// Subtracts a position from another, row from row and column from column.
impl core::ops::Sub for Position {
    type Output = Position;

    fn sub(self, other: Position) -> (diff: Position) {
        Position { row: self.row - other.row, col: self.col - other.col }
    }
}

impl SubSpecImpl for Position {
    open spec fn obeys_sub_spec() -> bool {
        true
    }

    open spec fn sub_req(self, other: Position) -> bool {
        other.row <= self.row && other.col <= self.col
    }

    open spec fn sub_spec(self, other: Position) -> Position {
        Position { row: (self.row - other.row) as usize, col: (self.col - other.col) as usize }
    }
}

} // verus!
