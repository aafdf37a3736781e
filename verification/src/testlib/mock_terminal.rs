use vstd::prelude::*;

use super::test_case::push_char;
use crate::input::{parser_step, step_overflows, Action, ControlCharacter, Parser, CSI};
use crate::output::digits;
use crate::utf8::{fold_codepoint, is_scalar, no_invalid_byte};
use crate::terminal::Cursor;

verus! {

/// An empty screen row.
pub open spec fn blank_row(columns: nat) -> Seq<char> {
    Seq::new(columns, |_i: int| '\0')
}

/// The screen scrolled up by `n` rows: the top rows leave, empty rows
/// come in at the bottom.
pub open spec fn scrolled_up(screen: Seq<Seq<char>>, n: nat, columns: nat) -> Seq<Seq<char>>
    decreases n,
{
    if n == 0 {
        screen
    } else {
        scrolled_up(screen.drop_first().push(blank_row(columns)), (n - 1) as nat, columns)
    }
}

/// The screen scrolled down by `n` rows: the bottom rows leave, empty
/// rows come in at the top.
pub open spec fn scrolled_down(screen: Seq<Seq<char>>, n: nat, columns: nat) -> Seq<Seq<char>>
    decreases n,
{
    if n == 0 {
        screen
    } else {
        let s = if screen.len() > 0 {
            screen.drop_last()
        } else {
            screen
        };
        scrolled_down(seq![blank_row(columns)] + s, (n - 1) as nat, columns)
    }
}

/// The screen erased from place `c` to the end.
pub open spec fn erased_below(screen: Seq<Seq<char>>, c: Cursor) -> Seq<Seq<char>> {
    Seq::new(
        screen.len(),
        |r: int|
            Seq::new(
                screen[r].len(),
                |k: int|
                    if r > c.row || (r == c.row && k >= c.column) {
                        '\0'
                    } else {
                        screen[r][k]
                    },
            ),
    )
}

/// The characters of a row up to its first empty place.
pub open spec fn row_text(row: Seq<char>) -> Seq<char>
    decreases row.len(),
{
    if row.len() == 0 || row[0] == '\0' {
        Seq::empty()
    } else {
        seq![row[0]] + row_text(row.drop_first())
    }
}

/// The text on the screen: the rows that hold any, one per line.
pub open spec fn screen_text(screen: Seq<Seq<char>>) -> Seq<char>
    decreases screen.len(),
{
    if screen.len() == 0 {
        Seq::empty()
    } else {
        let rest = screen_text(screen.drop_last());
        let row = row_text(screen.last());
        if row.len() == 0 {
            rest
        } else if rest.len() == 0 {
            row
        } else {
            rest.push('\n') + row
        }
    }
}

/// The column `steps` places from `column`, kept on a row of `columns`.
pub open spec fn moved_column(column: int, steps: int, columns: int) -> int {
    let c = if column + steps < columns - 1 {
        column + steps
    } else {
        columns - 1
    };
    if c < 0 {
        0
    } else {
        c
    }
}

/// The reply to a cursor position request: `ESC [ row ; column R`, one
/// based.
pub open spec fn position_report(c: Cursor) -> Seq<u8> {
    seq![0x1bu8, 0x5bu8] + digits((c.row + 1) as nat) + seq![0x3bu8] + digits(
        (c.column + 1) as nat,
    ) + seq![0x52u8]
}

/// A terminal screen that follows the editor's output, for tests.
pub struct MockTerminal {
    parser: Parser,
    screen: Vec<Vec<char>>,
    pub cursor: Cursor,
    pub rows: usize,
    pub columns: usize,
    saved_cursor: Option<Cursor>,
    pub bell: bool,
}

impl MockTerminal {
    /// The screen's rows.
    pub closed spec fn spec_screen(&self) -> Seq<Seq<char>> {
        Seq::new(self.screen@.len(), |i: int| self.screen@[i]@)
    }

    pub closed spec fn spec_cursor(&self) -> Cursor {
        self.cursor
    }

    pub closed spec fn spec_rows(&self) -> nat {
        self.rows as nat
    }

    pub closed spec fn spec_columns(&self) -> nat {
        self.columns as nat
    }

    pub closed spec fn spec_bell(&self) -> bool {
        self.bell
    }

    pub closed spec fn spec_saved(&self) -> Option<Cursor> {
        self.saved_cursor
    }

    pub closed spec fn spec_parser(&self) -> Parser {
        self.parser
    }

    /// Every row is as wide as the screen.
    pub closed spec fn wf(&self) -> bool {
        &&& self.parser.wf()
        &&& self.screen@.len() == self.rows
        &&& forall|i: int| 0 <= i < self.screen@.len() ==> (#[trigger] self.screen@[i])@.len()
            == self.columns
    }

    pub fn new(rows: usize, columns: usize, origin: Cursor) -> (t: Self)
        ensures
            t.wf(),
            t.spec_screen() == Seq::new(rows as nat, |_i: int| blank_row(columns as nat)),
            t.spec_cursor() == origin,
            t.spec_rows() == rows as nat,
            t.spec_columns() == columns as nat,
            t.spec_saved() == None::<Cursor>,
            !t.spec_bell(),
            t.spec_parser().spec_state() == crate::input::State::Ground,
    {
        let mut screen: Vec<Vec<char>> = Vec::new();
        let mut i: usize = 0;
        while i < rows
            invariant
                i <= rows,
                screen@.len() == i,
                forall|j: int| 0 <= j < i ==> (#[trigger] screen@[j])@ == blank_row(columns as nat),
            decreases rows - i,
        {
            screen.push(blank(columns));
            i += 1;
        }
        let t = Self {
            parser: Parser::new(),
            screen,
            cursor: origin,
            rows,
            columns,
            saved_cursor: None,
            bell: false,
        };
        proof {
            assert(t.spec_screen() =~= Seq::new(rows as nat, |_i: int| blank_row(columns as nat)));
        }
        t
    }

    /// The cursor's row.
    pub fn current_line(&mut self) -> (line: &mut Vec<char>)
        requires
            old(self).wf(),
            old(self).spec_cursor().row < old(self).spec_rows(),
        ensures
            line@ == old(self).spec_screen()[old(self).spec_cursor().row as int],
            final(self).spec_screen() == old(self).spec_screen().update(
                old(self).spec_cursor().row as int,
                final(line)@,
            ),
            final(self).spec_cursor() == old(self).spec_cursor(),
            final(self).spec_rows() == old(self).spec_rows(),
            final(self).spec_columns() == old(self).spec_columns(),
            final(self).spec_saved() == old(self).spec_saved(),
            final(self).spec_bell() == old(self).spec_bell(),
            final(self).spec_parser() == old(self).spec_parser(),
    {
        let cursor = self.get_cursor();
        &mut self.screen[cursor.row]
    }

    /// The text on the screen.
    pub fn screen_as_string(&self) -> (s: String)
        ensures
            s@ == screen_text(self.spec_screen()),
    {
        let mut s = String::new();
        let mut i: usize = 0;
        proof {
            assert(self.spec_screen().subrange(0, 0) =~= Seq::<Seq<char>>::empty());
        }
        while i < self.screen.len()
            invariant
                i <= self.screen@.len(),
                s@ == screen_text(self.spec_screen().subrange(0, i as int)),
            decreases self.screen@.len() - i,
        {
            let ghost before = s@;
            let ghost prefix = self.spec_screen().subrange(0, i as int);
            let mut row = String::new();
            push_row_text(&mut row, &self.screen[i]);
            if row_has_text(&self.screen[i]) {
                if i > 0 && has_text_before(&self.screen, i) {
                    push_char(&mut s, '\n');
                }
                push_row_text(&mut s, &self.screen[i]);
            }
            proof {
                assert(self.spec_screen().subrange(0, i + 1).drop_last() =~= prefix);
                assert(self.spec_screen().subrange(0, i + 1).last() == self.screen@[i as int]@);
                lemma_screen_text_empty(prefix);
                assert(s@ =~= screen_text(self.spec_screen().subrange(0, i + 1)));
            }
            i += 1;
        }
        proof {
            assert(self.spec_screen().subrange(0, i as int) =~= self.spec_screen());
        }
        s
    }

    /// The text on the cursor's row.
    pub fn current_line_as_string(&self) -> (s: String)
        requires
            self.wf(),
            self.spec_cursor().row < self.spec_rows(),
        ensures
            s@ == row_text(self.spec_screen()[self.spec_cursor().row as int]),
    {
        let mut s = String::new();
        push_row_text(&mut s, &self.screen[self.cursor.row]);
        s
    }

    fn move_column(&mut self, steps: isize)
        requires
            old(self).columns <= isize::MAX,
            old(self).cursor.column <= isize::MAX,
            crate::terminal::fits_isize(old(self).cursor.column + steps),
        ensures
            final(self).cursor.column == moved_column(
                old(self).cursor.column as int,
                steps as int,
                old(self).columns as int,
            ),
            final(self).cursor.row == old(self).cursor.row,
            final(self).spec_screen() == old(self).spec_screen(),
            final(self).rows == old(self).rows,
            final(self).columns == old(self).columns,
            final(self).spec_saved() == old(self).spec_saved(),
            final(self).bell == old(self).bell,
            final(self).spec_parser() == old(self).spec_parser(),
            final(self).wf() == old(self).wf(),
    {
        let c = self.cursor.column as isize + steps;
        let last = self.columns as isize - 1;
        let c = if c < last {
            c
        } else {
            last
        };
        self.cursor.column = if c < 0 {
            0
        } else {
            c as usize
        };
    }

    fn scroll_up(&mut self, lines: usize)
        requires
            old(self).wf(),
            lines > 0 ==> old(self).rows > 0,
        ensures
            final(self).wf(),
            final(self).spec_screen() == scrolled_up(
                old(self).spec_screen(),
                lines as nat,
                old(self).columns as nat,
            ),
            final(self).cursor == old(self).cursor,
            final(self).rows == old(self).rows,
            final(self).columns == old(self).columns,
            final(self).spec_saved() == old(self).spec_saved(),
            final(self).bell == old(self).bell,
            final(self).spec_parser() == old(self).spec_parser(),
    {
        let ghost start = self.spec_screen();
        let mut k: usize = 0;
        while k < lines
            invariant
                self.wf(),
                k <= lines,
                lines > 0 ==> self.rows > 0,
                scrolled_up(start, lines as nat, self.columns as nat) == scrolled_up(
                    self.spec_screen(),
                    (lines - k) as nat,
                    self.columns as nat,
                ),
                self.cursor == old(self).cursor,
                self.rows == old(self).rows,
                self.columns == old(self).columns,
                self.spec_saved() == old(self).spec_saved(),
                self.bell == old(self).bell,
                self.spec_parser() == old(self).spec_parser(),
            decreases lines - k,
        {
            let ghost before = self.spec_screen();
            self.screen.remove(0);
            self.screen.push(blank(self.columns));
            proof {
                assert(self.spec_screen() =~= before.drop_first().push(
                    blank_row(self.columns as nat),
                ));
            }
            k += 1;
        }
    }

    fn scroll_down(&mut self, lines: usize)
        requires
            old(self).wf(),
            lines > 0 ==> old(self).rows > 0,
        ensures
            final(self).wf(),
            final(self).spec_screen() == scrolled_down(
                old(self).spec_screen(),
                lines as nat,
                old(self).columns as nat,
            ),
            final(self).cursor == old(self).cursor,
            final(self).rows == old(self).rows,
            final(self).columns == old(self).columns,
            final(self).spec_saved() == old(self).spec_saved(),
            final(self).bell == old(self).bell,
            final(self).spec_parser() == old(self).spec_parser(),
    {
        let ghost start = self.spec_screen();
        let mut k: usize = 0;
        while k < lines
            invariant
                self.screen@.len() == self.rows,
                forall|i: int| 0 <= i < self.screen@.len() ==> (#[trigger] self.screen@[i])@.len()
                    == self.columns,
                self.parser.wf(),
                k <= lines,
                lines > 0 ==> self.rows > 0,
                scrolled_down(start, lines as nat, self.columns as nat) == scrolled_down(
                    self.spec_screen(),
                    (lines - k) as nat,
                    self.columns as nat,
                ),
                self.cursor == old(self).cursor,
                self.rows == old(self).rows,
                self.columns == old(self).columns,
                self.spec_saved() == old(self).spec_saved(),
                self.bell == old(self).bell,
                self.spec_parser() == old(self).spec_parser(),
            decreases lines - k,
        {
            let ghost before = self.spec_screen();
            let _ = self.screen.pop();
            self.screen.insert(0, blank(self.columns));
            proof {
                let s = if before.len() > 0 {
                    before.drop_last()
                } else {
                    before
                };
                assert(self.spec_screen() =~= seq![blank_row(self.columns as nat)] + s);
            }
            k += 1;
        }
    }

    pub fn get_cursor(&self) -> (c: Cursor)
        ensures
            c == self.spec_cursor(),
    {
        self.cursor
    }
}

impl MockTerminal {
    /// The terminal can take `byte`: the editor's output holds only what
    /// the mock knows, and the numbers involved fit.
    pub open spec fn advance_ok(&self, byte: u8) -> bool {
        let a = parser_step(self.spec_parser().spec_state(), byte).1;
        let c = self.spec_cursor();
        &&& self.wf()
        &&& !step_overflows(self.spec_parser().spec_state(), byte)
        &&& match a {
            Action::Print(ch) => {
                &&& no_invalid_byte(ch@)
                &&& is_scalar(fold_codepoint(ch@, ch@.len() as int))
                &&& c.row < self.spec_rows()
                &&& c.column < self.spec_columns() <= isize::MAX
            },
            Action::ControlSequenceIntroducer(csi) => match csi {
                CSI::CUP(r, k) => 1 <= r && 1 <= k && 1 <= self.spec_rows() && 1
                    <= self.spec_columns(),
                CSI::ED(_) => true,
                CSI::DSR => c.row < usize::MAX && c.column < usize::MAX,
                CSI::SU(n) => n > 0 ==> self.spec_rows() > 0,
                CSI::SD(n) => n > 0 ==> self.spec_rows() > 0,
                _ => false,
            },
            Action::InvalidUtf8 => false,
            Action::ControlCharacter(ControlCharacter::LineFeed) => c.row < usize::MAX,
            Action::EscapeSequence(b) => b == 0x38 ==> self.spec_saved() is Some,
            _ => true,
        }
    }

    /// Whether the terminal can take `byte` (see `advance_ok`); the
    /// editor's output holds nothing else.
    pub fn can_advance(&self, byte: u8) -> (b: bool)
        requires
            self.wf(),
        ensures
            b == self.advance_ok(byte),
    {
        if self.parser.would_overflow(byte) {
            return false;
        }
        let mut parser = self.parser;
        let action = parser.advance(byte);
        let c = self.cursor;
        match action {
            Action::Print(ch) => {
                match ch.folded() {
                    Some(u) => u <= 0x10ffff && !(0xd800 <= u && u <= 0xdfff) && c.row < self.rows
                        && c.column < self.columns && self.columns <= isize::MAX as usize,
                    None => false,
                }
            },
            Action::ControlSequenceIntroducer(csi) => match csi {
                CSI::CUP(r, k) => 1 <= r && 1 <= k && 1 <= self.rows && 1 <= self.columns,
                CSI::ED(_) => true,
                CSI::DSR => c.row < usize::MAX && c.column < usize::MAX,
                CSI::SU(n) => n == 0 || self.rows > 0,
                CSI::SD(n) => n == 0 || self.rows > 0,
                _ => false,
            },
            Action::InvalidUtf8 => false,
            Action::ControlCharacter(ControlCharacter::LineFeed) => c.row < usize::MAX,
            Action::EscapeSequence(b) => b != 0x38 || self.saved_cursor.is_some(),
            _ => true,
        }
    }

    /// Takes one byte of output: prints, moves the cursor, erases,
    /// scrolls, or answers a position request.
    pub fn advance(&mut self, byte: u8) -> (reply: Option<Vec<u8>>)
        requires
            old(self).advance_ok(byte),
        ensures
            final(self).wf(),
            final(self).spec_parser().spec_state() == parser_step(
                old(self).spec_parser().spec_state(),
                byte,
            ).0,
            final(self).spec_rows() == old(self).spec_rows(),
            final(self).spec_columns() == old(self).spec_columns(),
            ({
                let a = parser_step(old(self).spec_parser().spec_state(), byte).1;
                let c = old(self).spec_cursor();
                let screen = old(self).spec_screen();
                let same = final(self).spec_screen() == screen && final(self).spec_cursor() == c
                    && final(self).spec_saved() == old(self).spec_saved()
                    && final(self).spec_bell() == old(self).spec_bell();
                match a {
                    Action::Print(ch) => {
                        &&& final(self).spec_screen() == screen.update(
                            c.row as int,
                            screen[c.row as int].update(
                                c.column as int,
                                fold_codepoint(ch@, ch@.len() as int) as char,
                            ),
                        )
                        &&& final(self).spec_cursor() == (Cursor {
                            row: c.row,
                            column: moved_column(
                                c.column as int,
                                1,
                                old(self).spec_columns() as int,
                            ) as usize,
                        })
                        &&& final(self).spec_saved() == old(self).spec_saved()
                        &&& final(self).spec_bell() == old(self).spec_bell()
                        &&& reply is None
                    },
                    Action::ControlSequenceIntroducer(CSI::CUP(r, k)) => {
                        let row = if r - 1 < old(self).spec_rows() - 1 {
                            r - 1
                        } else {
                            old(self).spec_rows() - 1
                        };
                        let column = if k - 1 < old(self).spec_columns() - 1 {
                            k - 1
                        } else {
                            old(self).spec_columns() - 1
                        };
                        &&& final(self).spec_cursor() == (Cursor {
                            row: row as usize,
                            column: column as usize,
                        })
                        &&& final(self).spec_screen() == screen
                        &&& final(self).spec_saved() == old(self).spec_saved()
                        &&& final(self).spec_bell() == old(self).spec_bell()
                        &&& reply is None
                    },
                    Action::ControlSequenceIntroducer(CSI::ED(_)) => {
                        &&& final(self).spec_screen() == erased_below(screen, c)
                        &&& final(self).spec_cursor() == c
                        &&& final(self).spec_saved() == old(self).spec_saved()
                        &&& final(self).spec_bell() == old(self).spec_bell()
                        &&& reply is None
                    },
                    Action::ControlSequenceIntroducer(CSI::DSR) => {
                        &&& same
                        &&& reply matches Some(v) && v@ == position_report(c)
                    },
                    Action::ControlSequenceIntroducer(CSI::SU(n)) => {
                        &&& final(self).spec_screen() == scrolled_up(
                            screen,
                            n as nat,
                            old(self).spec_columns(),
                        )
                        &&& final(self).spec_cursor() == c
                        &&& final(self).spec_saved() == old(self).spec_saved()
                        &&& final(self).spec_bell() == old(self).spec_bell()
                        &&& reply is None
                    },
                    Action::ControlSequenceIntroducer(CSI::SD(n)) => {
                        &&& final(self).spec_screen() == scrolled_down(
                            screen,
                            n as nat,
                            old(self).spec_columns(),
                        )
                        &&& final(self).spec_cursor() == c
                        &&& final(self).spec_saved() == old(self).spec_saved()
                        &&& final(self).spec_bell() == old(self).spec_bell()
                        &&& reply is None
                    },
                    Action::ControlCharacter(ControlCharacter::CarriageReturn) => {
                        &&& final(self).spec_cursor() == (Cursor { column: 0, ..c })
                        &&& final(self).spec_screen() == screen
                        &&& final(self).spec_saved() == old(self).spec_saved()
                        &&& final(self).spec_bell() == old(self).spec_bell()
                        &&& reply is None
                    },
                    Action::ControlCharacter(ControlCharacter::LineFeed) => {
                        &&& c.row + 1 == old(self).spec_rows() ==> final(self).spec_screen()
                            == scrolled_up(screen, 1, old(self).spec_columns())
                            && final(self).spec_cursor() == c
                        &&& c.row + 1 != old(self).spec_rows() ==> final(self).spec_screen()
                            == screen && final(self).spec_cursor() == (Cursor {
                            row: (c.row + 1) as usize,
                            ..c
                        })
                        &&& final(self).spec_saved() == old(self).spec_saved()
                        &&& final(self).spec_bell() == old(self).spec_bell()
                        &&& reply is None
                    },
                    Action::ControlCharacter(ControlCharacter::CtrlG) => {
                        &&& final(self).spec_bell()
                        &&& final(self).spec_screen() == screen
                        &&& final(self).spec_cursor() == c
                        &&& final(self).spec_saved() == old(self).spec_saved()
                        &&& reply is None
                    },
                    Action::EscapeSequence(0x37) => {
                        &&& final(self).spec_saved() == Some(c)
                        &&& final(self).spec_screen() == screen
                        &&& final(self).spec_cursor() == c
                        &&& final(self).spec_bell() == old(self).spec_bell()
                        &&& reply is None
                    },
                    Action::EscapeSequence(0x38) => {
                        &&& final(self).spec_cursor() == old(self).spec_saved()->0
                        &&& final(self).spec_screen() == screen
                        &&& final(self).spec_saved() == old(self).spec_saved()
                        &&& final(self).spec_bell() == old(self).spec_bell()
                        &&& reply is None
                    },
                    _ => same && reply is None,
                }
            }),
    {
        let action = self.parser.advance(byte);
        match action {
            Action::Ignore => {},
            Action::Print(c) => {
                let pos = self.cursor.column;
                let ch = c.as_char();
                let row = self.cursor.row;
                self.put(row, pos, ch);
                self.move_column(1);
            },
            Action::ControlSequenceIntroducer(csi) => match csi {
                CSI::CUP(row, column) => {
                    let row = if row - 1 < self.rows - 1 {
                        row - 1
                    } else {
                        self.rows - 1
                    };
                    let column = if column - 1 < self.columns - 1 {
                        column - 1
                    } else {
                        self.columns - 1
                    };
                    self.cursor = Cursor::new(row, column);
                },
                CSI::ED(_) => {
                    self.erase_below();
                },
                CSI::DSR => {
                    let mut reply: Vec<u8> = Vec::new();
                    reply.push(0x1b);
                    reply.push(0x5b);
                    let mut row = decimal(self.cursor.row + 1);
                    reply.append(&mut row);
                    reply.push(0x3b);
                    let mut column = decimal(self.cursor.column + 1);
                    reply.append(&mut column);
                    reply.push(0x52);
                    proof {
                        assert(reply@ =~= position_report(self.cursor));
                    }
                    return Some(reply);
                },
                CSI::SU(lines) => {
                    self.scroll_up(lines);
                },
                CSI::SD(lines) => {
                    self.scroll_down(lines);
                },
                _ => {},
            },
            Action::InvalidUtf8 => {},
            Action::ControlCharacter(ctrl) => match ctrl {
                ControlCharacter::CarriageReturn => {
                    self.cursor.column = 0;
                },
                ControlCharacter::LineFeed => {
                    if self.cursor.row + 1 == self.rows {
                        self.scroll_up(1);
                    } else {
                        self.cursor.row += 1;
                    }
                },
                ControlCharacter::CtrlG => {
                    self.bell = true;
                },
                _ => {},
            },
            Action::EscapeSequence(esc) => {
                if esc == 0x37 {
                    self.saved_cursor = Some(self.cursor);
                } else if esc == 0x38 {
                    if let Some(cursor) = self.saved_cursor {
                        self.cursor = cursor;
                    }
                }
            },
        }
        None
    }

    /// Puts `ch` at `row` and `column` of the screen.
    fn put(&mut self, row: usize, column: usize, ch: char)
        requires
            old(self).wf(),
            row < old(self).rows,
            column < old(self).columns,
        ensures
            final(self).wf(),
            final(self).spec_screen() == old(self).spec_screen().update(
                row as int,
                old(self).spec_screen()[row as int].update(column as int, ch),
            ),
            final(self).cursor == old(self).cursor,
            final(self).rows == old(self).rows,
            final(self).columns == old(self).columns,
            final(self).spec_saved() == old(self).spec_saved(),
            final(self).bell == old(self).bell,
            final(self).spec_parser() == old(self).spec_parser(),
    {
        let mut line: Vec<char> = Vec::new();
        core::mem::swap(&mut line, &mut self.screen[row]);
        line.set(column, ch);
        self.screen.set(row, line);
        proof {
            assert(self.spec_screen() =~= old(self).spec_screen().update(
                row as int,
                old(self).spec_screen()[row as int].update(column as int, ch),
            ));
        }
    }

    /// Erases `row` from `start` on.
    fn erase_row_from(&mut self, row: usize, start: usize)
        requires
            old(self).wf(),
            row < old(self).rows,
        ensures
            final(self).wf(),
            final(self).spec_screen() == old(self).spec_screen().update(
                row as int,
                Seq::new(
                    old(self).columns as nat,
                    |k: int|
                        if k >= start {
                            '\0'
                        } else {
                            old(self).spec_screen()[row as int][k]
                        },
                ),
            ),
            final(self).cursor == old(self).cursor,
            final(self).rows == old(self).rows,
            final(self).columns == old(self).columns,
            final(self).spec_saved() == old(self).spec_saved(),
            final(self).bell == old(self).bell,
            final(self).spec_parser() == old(self).spec_parser(),
    {
        let mut line: Vec<char> = Vec::new();
        core::mem::swap(&mut line, &mut self.screen[row]);
        clear_from(&mut line, start);
        self.screen.set(row, line);
        proof {
            assert(self.spec_screen() =~= old(self).spec_screen().update(
                row as int,
                Seq::new(
                    old(self).columns as nat,
                    |k: int|
                        if k >= start {
                            '\0'
                        } else {
                            old(self).spec_screen()[row as int][k]
                        },
                ),
            ));
        }
    }

    /// Erases the screen from the cursor on.
    fn erase_below(&mut self)
        requires
            old(self).wf(),
        ensures
            final(self).wf(),
            final(self).spec_screen() == erased_below(old(self).spec_screen(), old(self).cursor),
            final(self).cursor == old(self).cursor,
            final(self).rows == old(self).rows,
            final(self).columns == old(self).columns,
            final(self).spec_saved() == old(self).spec_saved(),
            final(self).bell == old(self).bell,
            final(self).spec_parser() == old(self).spec_parser(),
    {
        let ghost start = self.spec_screen();
        let cursor = self.get_cursor();
        let mut row = cursor.row;
        proof {
            assert forall|r: int| 0 <= r < start.len() implies (#[trigger] start[r]).len()
                == self.columns by {
                assert(start[r] == self.screen@[r]@);
            }
        }
        while row < self.rows
            invariant
                self.wf(),
                self.cursor == cursor,
                self.cursor == old(self).cursor,
                self.rows == old(self).rows,
                self.columns == old(self).columns,
                self.spec_saved() == old(self).spec_saved(),
                self.bell == old(self).bell,
                self.spec_parser() == old(self).spec_parser(),
                start == old(self).spec_screen(),
                start.len() == self.rows,
                forall|r: int| 0 <= r < start.len() ==> (#[trigger] start[r]).len() == self.columns,
                cursor.row <= row <= self.rows || (row == cursor.row && cursor.row > self.rows),
                forall|r: int|
                    0 <= r < self.rows ==> #[trigger] self.spec_screen()[r] == if r < row {
                        erased_below(start, cursor)[r]
                    } else {
                        start[r]
                    },
            decreases self.rows - row,
        {
            let start_column = if row == cursor.row {
                cursor.column
            } else {
                0
            };
            self.erase_row_from(row, start_column);
            proof {
                assert(self.spec_screen()[row as int] =~= erased_below(start, cursor)[row as int]);
            }
            row += 1;
        }
        proof {
            assert(self.spec_screen() =~= erased_below(start, cursor));
        }
    }
}

/// Empties the places of `line` from `start` on.
fn clear_from(line: &mut Vec<char>, start: usize)
    ensures
        final(line)@ == Seq::new(
            old(line)@.len(),
            |k: int|
                if k >= start {
                    '\0'
                } else {
                    old(line)@[k]
                },
        ),
{
    let ghost orig = line@;
    let mut column = start;
    while column < line.len()
        invariant
            line@.len() == orig.len(),
            start <= column,
            forall|k: int|
                0 <= k < orig.len() ==> #[trigger] line@[k] == if start <= k < column {
                    '\0'
                } else {
                    orig[k]
                },
        decreases line@.len() - column,
    {
        line.set(column, '\0');
        column += 1;
    }
    proof {
        assert(line@ =~= Seq::new(
            orig.len(),
            |k: int|
                if k >= start {
                    '\0'
                } else {
                    orig[k]
                },
        ));
    }
}

/// The ASCII decimal digits of `n`.
fn decimal(n: usize) -> (v: Vec<u8>)
    ensures
        v@ == digits(n as nat),
    decreases n,
{
    if n < 10 {
        let mut v: Vec<u8> = Vec::new();
        v.push(0x30 + n as u8);
        proof {
            assert(v@ =~= digits(n as nat));
        }
        v
    } else {
        let mut v = decimal(n / 10);
        v.push(0x30 + (n % 10) as u8);
        v
    }
}

/// An empty row of `columns` places.
fn blank(columns: usize) -> (row: Vec<char>)
    ensures
        row@ == blank_row(columns as nat),
{
    let mut row: Vec<char> = Vec::new();
    let mut i: usize = 0;
    while i < columns
        invariant
            i <= columns,
            row@ == Seq::new(i as nat, |_j: int| '\0'),
        decreases columns - i,
    {
        row.push('\0');
        i += 1;
        proof {
            assert(row@ =~= Seq::new(i as nat, |_j: int| '\0'));
        }
    }
    row
}

/// Whether a row holds any text.
fn row_has_text(row: &Vec<char>) -> (b: bool)
    ensures
        b == (row_text(row@).len() > 0),
{
    row.len() > 0 && row[0] != '\0'
}

/// Whether any of the first `n` rows holds text.
fn has_text_before(screen: &Vec<Vec<char>>, n: usize) -> (b: bool)
    requires
        n <= screen@.len(),
    ensures
        b == (screen_text(Seq::new(screen@.len(), |i: int| screen@[i]@).subrange(0, n as int)).len()
            > 0),
{
    let ghost all = Seq::new(screen@.len(), |i: int| screen@[i]@);
    let mut i: usize = 0;
    proof {
        assert(all.subrange(0, 0) =~= Seq::<Seq<char>>::empty());
    }
    while i < n
        invariant
            i <= n,
            n <= screen@.len(),
            all == Seq::new(screen@.len(), |i: int| screen@[i]@),
            screen_text(all.subrange(0, i as int)).len() == 0,
        decreases n - i,
    {
        proof {
            assert(all.subrange(0, i + 1).drop_last() =~= all.subrange(0, i as int));
        }
        if row_has_text(&screen[i]) {
            proof {
                lemma_screen_text_empty(all.subrange(0, n as int));
                assert(row_text(all.subrange(0, n as int)[i as int]).len() > 0);
            }
            return true;
        }
        i += 1;
    }
    false
}

/// Appends the text of `row` to `s`.
fn push_row_text(s: &mut String, row: &Vec<char>)
    ensures
        final(s)@ == old(s)@ + row_text(row@),
{
    let ghost start = s@;
    let mut i: usize = 0;
    proof {
        assert(row@.subrange(0, row@.len() as int) =~= row@);
    }
    while i < row.len() && row[i] != '\0'
        invariant
            i <= row@.len(),
            forall|j: int| 0 <= j < i ==> row@[j] != '\0',
            s@ == start + row@.subrange(0, i as int),
        decreases row@.len() - i,
    {
        push_char(s, row[i]);
        i += 1;
        proof {
            assert(s@ =~= start + row@.subrange(0, i as int));
        }
    }
    proof {
        lemma_row_text(row@, i as int);
    }
}

/// The text of a row is its characters before the first empty place.
proof fn lemma_row_text(row: Seq<char>, i: int)
    requires
        0 <= i <= row.len(),
        forall|j: int| 0 <= j < i ==> row[j] != '\0',
        i < row.len() ==> row[i] == '\0',
    ensures
        row_text(row) == row.subrange(0, i),
    decreases i,
{
    if i > 0 {
        lemma_row_text(row.drop_first(), i - 1);
        assert(seq![row[0]] + row.drop_first().subrange(0, i - 1) =~= row.subrange(0, i));
    } else {
        assert(row.subrange(0, 0) =~= Seq::<char>::empty());
    }
}

/// No text on the rows means no text on the screen, and text on a row
/// shows up.
proof fn lemma_screen_text_empty(screen: Seq<Seq<char>>)
    ensures
        screen_text(screen).len() == 0 <==> forall|i: int|
            0 <= i < screen.len() ==> #[trigger] row_text(screen[i]).len() == 0,
    decreases screen.len(),
{
    if screen.len() > 0 {
        lemma_screen_text_empty(screen.drop_last());
        assert forall|i: int| 0 <= i < screen.len() - 1 implies screen.drop_last()[i] == screen[i] by {}
        if screen_text(screen).len() == 0 {
            assert forall|i: int| 0 <= i < screen.len() implies #[trigger] row_text(screen[i]).len()
                == 0 by {
                if i < screen.len() - 1 {
                    assert(screen.drop_last()[i] == screen[i]);
                }
            }
        }
    }
}

} // verus!
