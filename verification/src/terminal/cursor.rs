use vstd::prelude::*;

verus! {

/// A place on the screen: row and column, counted from the top left.
#[derive(Copy, Clone, PartialEq, Eq, Debug, Structural)]
pub struct Cursor {
    pub row: usize,
    pub column: usize,
}

impl Cursor {
    pub fn new(row: usize, column: usize) -> (c: Self)
        ensures
            c.row == row,
            c.column == column,
    {
        Self { row, column }
    }
}

} // verus!
