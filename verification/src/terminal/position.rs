use vstd::prelude::*;

verus! {

/// A place in the edited text as laid out on the screen: row and column,
/// with row 0 the row where the prompt starts.
#[derive(Copy, Clone, PartialEq, Eq, Debug, Structural)]
pub struct Position {
    pub row: usize,
    pub column: usize,
}

impl Position {
    pub fn new(row: usize, column: usize) -> (p: Self)
        ensures
            p.row == row,
            p.column == column,
    {
        Self { row, column }
    }
}

} // verus!
