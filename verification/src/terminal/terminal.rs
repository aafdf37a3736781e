use vstd::prelude::*;

use super::cursor::Cursor;
use super::position::Position;

verus! {

/// How far `point` lies outside the window `start..=end`: negative
/// before it, positive after it, 0 inside.
pub open spec fn spec_distance_from_window(start: int, end: int, point: int) -> int {
    if point < start {
        point - start
    } else if point > end {
        point - end
    } else {
        0
    }
}

pub open spec fn fits_isize(x: int) -> bool {
    isize::MIN <= x <= isize::MAX
}

pub fn distance_from_window(start: isize, end: isize, point: isize) -> (d: isize)
    requires
        fits_isize(spec_distance_from_window(start as int, end as int, point as int)),
    ensures
        d == spec_distance_from_window(start as int, end as int, point as int),
{
    if point < start {
        point - start
    } else if point > end {
        point - end
    } else {
        0
    }
}

/// What the editor knows of the terminal: its size, where the cursor is
/// and how the text's rows map to screen rows.
#[derive(Debug, PartialEq, Eq)]
pub struct Terminal {
    rows: usize,
    columns: usize,
    cursor: Cursor,
    row_offset: isize,
}

impl Terminal {
    pub closed spec fn rows(&self) -> nat {
        self.rows as nat
    }

    pub closed spec fn columns(&self) -> nat {
        self.columns as nat
    }

    pub closed spec fn cursor(&self) -> Cursor {
        self.cursor
    }

    /// Text row shown on the top screen row.
    pub closed spec fn row_offset(&self) -> int {
        self.row_offset as int
    }

    /// The text position shown at screen place `c`.
    pub open spec fn spec_cursor_to_position(&self, c: Cursor) -> Position {
        Position { row: (c.row + self.row_offset()) as usize, column: c.column }
    }

    /// The screen place showing text position `p`, if it is on screen.
    pub open spec fn spec_position_to_cursor(&self, p: Position) -> Option<Cursor> {
        let row = p.row - self.row_offset();
        if 0 <= row < self.rows() {
            Some(Cursor { row: row as usize, column: p.column })
        } else {
            None
        }
    }

    /// Characters before text position `p`.
    pub open spec fn spec_offset(&self, p: Position) -> int {
        p.row * self.columns() + p.column
    }

    /// The text position `offset` characters into the text.
    pub open spec fn spec_position_from_offset(&self, offset: int) -> Position {
        Position {
            row: (offset / (self.columns() as int)) as usize,
            column: (offset % (self.columns() as int)) as usize,
        }
    }

    /// Rows to scroll so that text row `row` is on screen.
    pub open spec fn spec_scrolling_needed(&self, row: int) -> int {
        spec_distance_from_window(self.row_offset(), self.row_offset() + self.rows() - 1, row)
    }

    pub open spec fn spec_current_position(&self) -> Position {
        self.spec_cursor_to_position(self.cursor())
    }

    pub open spec fn spec_current_offset(&self) -> int {
        self.spec_offset(self.spec_current_position())
    }

    /// The terminal after the cursor moved to text position `p`,
    /// scrolling as little as needed.
    pub closed spec fn spec_moved(&self, p: Position) -> Terminal {
        let row_offset = self.row_offset() + self.spec_scrolling_needed(p.row as int);
        Terminal {
            rows: self.rows,
            columns: self.columns,
            cursor: Cursor { row: (p.row - row_offset) as usize, column: p.column },
            row_offset: row_offset as isize,
        }
    }

    /// The terminal with the cursor at `cursor`, on the row where the text
    /// starts.
    pub closed spec fn spec_reset(&self, cursor: Cursor) -> Terminal {
        Terminal { cursor, row_offset: (-cursor.row) as isize, ..*self }
    }

    /// The terminal after the cursor moved to the start of its row.
    pub closed spec fn spec_line_start(&self) -> Terminal {
        Terminal { cursor: Cursor { column: 0, ..self.cursor }, ..*self }
    }

    /// The terminal after the first text row was scrolled to the top.
    pub closed spec fn spec_at_top(&self) -> Terminal {
        Terminal { row_offset: 0, ..*self }
    }

    /// What can be observed of the terminals built above.
    pub proof fn lemma_spec_terminals(&self, p: Position)
        requires
            fits_isize(self.row_offset() + self.spec_scrolling_needed(p.row as int)),
        ensures
            self.spec_moved(p).rows() == self.rows(),
            self.spec_moved(p).columns() == self.columns(),
            self.spec_moved(p).row_offset() == self.row_offset() + self.spec_scrolling_needed(
                p.row as int,
            ),
            self.spec_moved(p).cursor() == (Cursor {
                row: (p.row - self.spec_moved(p).row_offset()) as usize,
                column: p.column,
            }),
            self.spec_line_start().rows() == self.rows(),
            self.spec_line_start().columns() == self.columns(),
            self.spec_line_start().row_offset() == self.row_offset(),
            self.spec_line_start().cursor() == (Cursor { column: 0, ..self.cursor() }),
            self.spec_at_top().rows() == self.rows(),
            self.spec_at_top().columns() == self.columns(),
            self.spec_at_top().row_offset() == 0,
            self.spec_at_top().cursor() == self.cursor(),
    {
    }

    /// The text row on top of the screen is a machine integer.
    pub proof fn lemma_row_offset_fits(&self)
        ensures
            fits_isize(self.row_offset()),
    {
    }

    /// What can be observed of a reset terminal.
    pub proof fn lemma_spec_reset(&self, cursor: Cursor)
        requires
            cursor.row <= isize::MAX,
        ensures
            self.spec_reset(cursor).rows() == self.rows(),
            self.spec_reset(cursor).columns() == self.columns(),
            self.spec_reset(cursor).cursor() == cursor,
            self.spec_reset(cursor).row_offset() == -cursor.row,
    {
    }

    pub fn new(rows: usize, columns: usize, cursor: Cursor) -> (t: Self)
        requires
            cursor.row <= isize::MAX,
        ensures
            t.rows() == rows,
            t.columns() == columns,
            t.cursor() == cursor,
            t.row_offset() == -cursor.row,
    {
        let row_offset = -(cursor.row as isize);

        Self { rows, columns, cursor, row_offset }
    }

    pub fn resize(&mut self, rows: usize, columns: usize)
        ensures
            final(self).rows() == rows,
            final(self).columns() == columns,
            final(self).cursor() == old(self).cursor(),
            final(self).row_offset() == old(self).row_offset(),
    {
        self.rows = rows;
        self.columns = columns;
    }

    /// The cursor is at `cursor`, on the row where the text starts.
    pub fn reset(&mut self, cursor: Cursor)
        requires
            cursor.row <= isize::MAX,
        ensures
            final(self).rows() == old(self).rows(),
            final(self).columns() == old(self).columns(),
            final(self).cursor() == cursor,
            final(self).row_offset() == -cursor.row,
            *final(self) == old(self).spec_reset(cursor),
    {
        self.cursor = cursor;
        self.row_offset = -(cursor.row as isize);
    }

    pub fn get_cursor(&self) -> (c: Cursor)
        ensures
            c == self.cursor(),
    {
        self.cursor
    }

    pub fn get_position(&self) -> (p: Position)
        requires
            self.cursor().row <= isize::MAX,
            fits_isize(self.cursor().row + self.row_offset()),
        ensures
            p == self.spec_current_position(),
    {
        self.cursor_to_position(self.cursor)
    }

    pub fn scrolling_needed(&self, position: Position) -> (d: isize)
        requires
            self.rows() <= isize::MAX,
            position.row <= isize::MAX,
            fits_isize(self.row_offset() + self.rows()),
            fits_isize(self.spec_scrolling_needed(position.row as int)),
        ensures
            d == self.spec_scrolling_needed(position.row as int),
    {
        distance_from_window(
            self.row_offset,
            self.row_offset + self.rows as isize - 1,
            position.row as isize,
        )
    }

    /// Puts the first text row at the top of the screen; returns how
    /// many rows that scrolled.
    pub fn scroll_to_top(&mut self) -> (r: isize)
        ensures
            r == old(self).row_offset(),
            *final(self) == old(self).spec_at_top(),
            final(self).row_offset() == 0,
            final(self).rows() == old(self).rows(),
            final(self).columns() == old(self).columns(),
            final(self).cursor() == old(self).cursor(),
    {
        let rows = self.row_offset;
        self.row_offset = 0;

        rows
    }

    pub fn scroll(&mut self, rows: isize)
        requires
            fits_isize(old(self).row_offset() + rows),
        ensures
            final(self).row_offset() == old(self).row_offset() + rows,
            final(self).rows() == old(self).rows(),
            final(self).columns() == old(self).columns(),
            final(self).cursor() == old(self).cursor(),
    {
        self.row_offset += rows;
    }

    /// Moves the cursor to `position`, scrolling as little as needed to
    /// bring it on screen; returns the rows scrolled.
    pub fn move_cursor(&mut self, position: Position) -> (scrolled: isize)
        requires
            old(self).rows() >= 1,
            old(self).rows() <= isize::MAX,
            position.row <= isize::MAX,
            fits_isize(old(self).row_offset() + old(self).rows()),
            fits_isize(old(self).spec_scrolling_needed(position.row as int)),
            fits_isize(old(self).row_offset() + old(self).spec_scrolling_needed(
                position.row as int,
            ) + old(self).rows()),
        ensures
            scrolled == old(self).spec_scrolling_needed(position.row as int),
            final(self).row_offset() == old(self).row_offset() + scrolled,
            final(self).rows() == old(self).rows(),
            final(self).columns() == old(self).columns(),
            final(self).cursor().row == position.row - final(self).row_offset(),
            final(self).cursor().column == position.column,
            0 <= final(self).cursor().row < final(self).rows(),
            final(self).spec_current_position() == position,
            *final(self) == old(self).spec_moved(position),
    {
        let rows = self.scrolling_needed(position);
        self.scroll(rows);

        let cursor = self.position_to_cursor(position);
        match cursor {
            Some(c) => {
                self.cursor = c;
            },
            None => {
                proof {
                    assert(false);
                }
            },
        }

        rows
    }

    pub fn move_cursor_to_start_of_line(&mut self)
        ensures
            final(self).cursor() == (Cursor { column: 0, ..old(self).cursor() }),
            *final(self) == old(self).spec_line_start(),
            final(self).rows() == old(self).rows(),
            final(self).columns() == old(self).columns(),
            final(self).row_offset() == old(self).row_offset(),
    {
        self.cursor.column = 0;
    }

    pub fn position_to_cursor(&self, position: Position) -> (c: Option<Cursor>)
        requires
            position.row <= isize::MAX,
            self.rows() <= isize::MAX,
            fits_isize(position.row - self.row_offset()),
        ensures
            c == self.spec_position_to_cursor(position),
    {
        let row = position.row as isize - self.row_offset;

        if row >= 0 && row < self.rows as isize {
            Some(Cursor::new(row as usize, position.column))
        } else {
            None
        }
    }

    pub fn cursor_to_position(&self, position: Cursor) -> (p: Position)
        requires
            position.row <= isize::MAX,
            fits_isize(position.row + self.row_offset()),
        ensures
            p == self.spec_cursor_to_position(position),
    {
        Position::new((position.row as isize + self.row_offset) as usize, position.column)
    }

    pub fn offset_from_position(&self, position: Position) -> (o: isize)
        requires
            fits_isize(self.spec_offset(position)),
            position.row <= isize::MAX,
            position.column <= isize::MAX,
            self.columns() <= isize::MAX,
        ensures
            o == self.spec_offset(position),
    {
        assert(0 <= position.row * self.columns() <= position.row * self.columns() + position.column)
            by (nonlinear_arith)
            requires
                position.column >= 0,
                position.row >= 0,
                self.columns() >= 0,
        ;
        position.row as isize * self.columns as isize + position.column as isize
    }

    pub fn current_offset(&self) -> (o: isize)
        requires
            self.cursor().row <= isize::MAX,
            fits_isize(self.cursor().row + self.row_offset()),
            self.spec_current_position().row <= isize::MAX,
            self.cursor().column <= isize::MAX,
            self.columns() <= isize::MAX,
            fits_isize(self.spec_current_offset()),
        ensures
            o == self.spec_current_offset(),
    {
        let position = self.cursor_to_position(self.cursor);
        self.offset_from_position(position)
    }

    pub fn position_from_offset(&self, offset: isize) -> (p: Position)
        requires
            1 <= self.columns() <= isize::MAX,
        ensures
            p == self.spec_position_from_offset(offset as int),
    {
        let columns = self.columns as isize;
        proof {
            let x = offset as int;
            let d = columns as int;
            vstd::arithmetic::div_mod::lemma_fundamental_div_mod(x, d);
            assert(isize::MIN <= x / d <= isize::MAX) by (nonlinear_arith)
                requires
                    x == d * (x / d) + x % d,
                    0 <= x % d < d,
                    d >= 1,
                    isize::MIN <= x <= isize::MAX,
            ;
        }
        let row = offset.checked_div_euclid(columns);
        let column = offset.checked_rem_euclid(columns);
        match (row, column) {
            (Some(row), Some(column)) => Position::new(row as usize, column as usize),
            _ => {
                proof {
                    assert(false);
                }
                Position::new(0, 0)
            },
        }
    }

    /// The text position `steps` characters away from the cursor.
    pub fn relative_position(&self, steps: isize) -> (p: Position)
        requires
            1 <= self.columns() <= isize::MAX,
            self.cursor().row <= isize::MAX,
            fits_isize(self.cursor().row + self.row_offset()),
            self.spec_current_position().row <= isize::MAX,
            self.cursor().column <= isize::MAX,
            fits_isize(self.spec_current_offset()),
            fits_isize(self.spec_current_offset() + steps),
        ensures
            p == self.spec_position_from_offset(self.spec_current_offset() + steps),
    {
        let offset = self.offset_from_position(self.cursor_to_position(self.cursor));

        self.position_from_offset(offset + steps)
    }

    pub fn columns_remaining(&self) -> (n: usize)
        requires
            self.cursor().column <= self.columns(),
        ensures
            n == self.columns() - self.cursor().column,
    {
        self.columns - self.cursor.column
    }

    pub fn get_size(&self) -> (size: (usize, usize))
        ensures
            size.0 == self.rows(),
            size.1 == self.columns(),
    {
        (self.rows, self.columns)
    }
}

/// Law: a screen place on screen shows a text position that maps back
/// to that screen place.
pub proof fn lemma_cursor_position_roundtrip(t: Terminal, c: Cursor)
    requires
        c.row < t.rows(),
        0 <= c.row + t.row_offset() <= usize::MAX,
    ensures
        t.spec_position_to_cursor(t.spec_cursor_to_position(c)) == Some(c),
{
}

/// Law: the offset of a position within a row maps back to that
/// position.
pub proof fn lemma_offset_position_roundtrip(t: Terminal, p: Position)
    requires
        p.column < t.columns(),
    ensures
        t.spec_position_from_offset(t.spec_offset(p)) == p,
{
    let c = t.columns() as int;
    vstd::arithmetic::div_mod::lemma_fundamental_div_mod_converse(
        p.row * c + p.column,
        c,
        p.row as int,
        p.column as int,
    );
}

/// Law: after the cursor moves to a text position, the cursor shows that
/// position, on screen.
pub proof fn lemma_moved_position(t: Terminal, p: Position)
    requires
        t.rows() >= 1,
        p.row <= isize::MAX,
        fits_isize(t.row_offset() + t.spec_scrolling_needed(p.row as int)),
    ensures
        t.spec_moved(p).spec_current_position() == p,
        t.spec_moved(p).cursor().row < t.rows(),
        t.spec_moved(p).spec_scrolling_needed(p.row as int) == 0,
        t.spec_moved(p).rows() == t.rows(),
        t.spec_moved(p).columns() == t.columns(),
{
    t.lemma_spec_terminals(p);
}

/// Law: after a reset to screen place `c`, the cursor is at `c`, on the
/// first text row, `c.column` characters into the text; the size is
/// kept.
pub proof fn lemma_reset_position(t: Terminal, c: Cursor)
    requires
        c.row <= isize::MAX,
    ensures
        t.spec_reset(c).cursor() == c,
        t.spec_reset(c).spec_current_position() == (Position { row: 0, column: c.column }),
        t.spec_reset(c).spec_current_offset() == c.column,
        t.spec_reset(c).rows() == t.rows(),
        t.spec_reset(c).columns() == t.columns(),
{
    t.lemma_spec_reset(c);
    vstd::arithmetic::mul::lemma_mul_basics(t.columns() as int);
}

/// Law: a text position is on screen exactly when no scrolling is needed
/// to show it, and then the screen place found shows that position.
pub proof fn lemma_position_on_screen(t: Terminal, p: Position)
    requires
        t.rows() >= 1,
    ensures
        t.spec_position_to_cursor(p) is Some <==> t.spec_scrolling_needed(p.row as int) == 0,
        t.spec_position_to_cursor(p) matches Some(c) ==> t.spec_cursor_to_position(c) == p,
{
}

/// Law: a text offset maps to a position whose offset it is.
pub proof fn lemma_position_offset_roundtrip(t: Terminal, x: int)
    requires
        t.columns() >= 1,
        0 <= x <= usize::MAX,
    ensures
        t.spec_offset(t.spec_position_from_offset(x)) == x,
        t.spec_position_from_offset(x).row == x / (t.columns() as int),
        t.spec_position_from_offset(x).row <= x,
        t.spec_position_from_offset(x).column < t.columns(),
{
    let c = t.columns() as int;
    vstd::arithmetic::div_mod::lemma_fundamental_div_mod(x, c);
    vstd::arithmetic::div_mod::lemma_div_is_ordered_by_denominator(x, 1, c);
    vstd::arithmetic::div_mod::lemma_div_basics(x);
    vstd::arithmetic::div_mod::lemma_div_pos_is_pos(x, c);
    assert((x / c) * c == c * (x / c)) by (nonlinear_arith);
    assert(t.spec_position_from_offset(x).row == x / c);
    assert(t.spec_position_from_offset(x).column == x % c);
}

impl Default for Terminal {
    fn default() -> (t: Self)
        ensures
            t.rows() == 24,
            t.columns() == 80,
            t.cursor() == (Cursor { row: 0, column: 0 }),
            t.row_offset() == 0,
    {
        Self::new(24, 80, Cursor::new(0, 0))
    }
}

} // verus!
