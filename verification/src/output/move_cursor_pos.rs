use vstd::prelude::*;

use super::move_cursor::{move_cursor_fits, MoveCursor};
use crate::terminal::{fits_isize, Position, Terminal};

verus! {

/// The cursor can be moved to text position `p`: the numbers involved
/// fit in `isize`, and the move can be written with four-digit numbers.
pub open spec fn move_ok(t: Terminal, p: Position) -> bool {
    &&& 1 <= t.rows() <= isize::MAX
    &&& p.row <= isize::MAX
    &&& fits_isize(t.row_offset() + t.rows())
    &&& fits_isize(t.spec_scrolling_needed(p.row as int))
    &&& fits_isize(t.row_offset() + t.spec_scrolling_needed(p.row as int) + t.rows())
    &&& move_cursor_fits(t.spec_moved(p).cursor(), t.spec_scrolling_needed(p.row as int))
}

/// A move of the cursor to a text position, worked out once the terminal
/// is at hand.
#[derive(Debug)]
pub enum MoveCursorToPosition {
    Position(Position),
    Move(MoveCursor),
}

impl MoveCursorToPosition {
    pub fn new(position: Position) -> (m: Self)
        ensures
            m == MoveCursorToPosition::Position(position),
            m.wf(),
    {
        MoveCursorToPosition::Position(position)
    }

    pub open spec fn wf(&self) -> bool {
        match self {
            MoveCursorToPosition::Position(_) => true,
            MoveCursorToPosition::Move(m) => m.wf(),
        }
    }

    /// The move as escape sequence items: moving the terminal to the
    /// position first when that is still to be done.
    pub fn get_move_cursor(&mut self, terminal: &mut Terminal) -> (m: &mut MoveCursor)
        requires
            old(self).wf(),
            *old(self) matches MoveCursorToPosition::Position(p) ==> move_ok(*old(terminal), p),
        ensures
            m.wf(),
            *final(self) == MoveCursorToPosition::Move(*final(m)),
            match *old(self) {
                MoveCursorToPosition::Position(p) => {
                    &&& *final(terminal) == old(terminal).spec_moved(p)
                    &&& *m == MoveCursor::spec_new(
                        old(terminal).spec_moved(p).cursor(),
                        old(terminal).spec_scrolling_needed(p.row as int),
                    )
                },
                MoveCursorToPosition::Move(mc) => {
                    &&& *final(terminal) == *old(terminal)
                    &&& *m == mc
                },
            },
    {
        if let MoveCursorToPosition::Position(position) = self {
            let position = *position;
            let scroll = terminal.move_cursor(position);
            let cursor = terminal.get_cursor();
            *self = MoveCursorToPosition::Move(MoveCursor::new(cursor, scroll));
        }
        match self {
            MoveCursorToPosition::Move(move_cursor) => move_cursor,
            MoveCursorToPosition::Position(_) => vstd::pervasive::unreached(),
        }
    }
}

} // verus!
