use vstd::prelude::*;

use super::move_cursor::{move_cursor_fits, MoveCursor};
use super::move_cursor_pos::move_ok;
use super::output_item::ItemView;
use super::output_iter::{run_bytes, run_ok, OutputIter};
use super::printable::{Printable, PrintableView};
use super::room::{lemma_output_runs, lemma_quiet_output_runs, output_reach, quiet, room};
use super::step::{item_view, step_next, step_ok, Step, StepView};
use crate::editor::{total_len, Prompt};
use crate::line_buffer::{byte_pos, byte_position, char_count, count_chars, Buffer, LineBuffer};
use crate::terminal::{fits_isize, lemma_position_offset_roundtrip, Cursor, Position, Terminal};

verus! {

#[derive(Copy, Clone, Debug, PartialEq, Eq, Structural)]
pub enum CursorMove {
    Forward,
    Back,
    Start,
    End,
}

/// What the output is to bring about on the terminal.
#[derive(Copy, Clone, Debug, PartialEq, Eq, Structural)]
pub enum OutputAction {
    Nothing,
    MoveCursor(CursorMove),
    ClearAndPrintPrompt,
    ClearAndPrintBuffer,
    PrintBufferAndMoveCursorForward,
    EraseAfterCursor,
    EraseAndPrintBuffer,
    ClearScreen,
    ClearLine,
    MoveCursorBackAndPrintBufferAndMoveForward,
    MoveCursorAndEraseAndPrintBuffer(isize),
    RingBell,
    ProbeSize,
    Done,
    Abort,
}

/// The cursor's text position and offset can be worked out.
pub open spec fn position_ok(t: Terminal) -> bool {
    &&& 1 <= t.columns() <= isize::MAX
    &&& t.cursor().row <= isize::MAX
    &&& fits_isize(t.cursor().row + t.row_offset())
    &&& t.spec_current_position().row <= isize::MAX
    &&& t.cursor().column <= isize::MAX
    &&& fits_isize(t.spec_current_offset())
}

/// The text offset a cursor move aims at, with `p` prompt bytes and
/// `len` characters in the line.
pub open spec fn move_target(m: CursorMove, t: Terminal, p: int, len: int) -> int {
    match m {
        CursorMove::Forward => t.spec_current_offset() + 1,
        CursorMove::Back => t.spec_current_offset() - 1,
        CursorMove::Start => p,
        CursorMove::End => p + len,
    }
}

/// The line's bytes after the text position at offset `x`, with `p`
/// prompt bytes.
pub open spec fn text_after(b: Seq<u8>, x: int, p: int) -> Seq<u8> {
    b.subrange(byte_pos(b, (x - p) as nat), b.len() as int)
}

/// The text offset that cursor move `m` aims at can be worked out.
pub open spec fn target_ok(m: CursorMove, t: Terminal, p: nat, b: Seq<u8>) -> bool {
    let o = t.spec_current_offset();
    let l = char_count(b);
    &&& position_ok(t)
    &&& match m {
        CursorMove::Forward => fits_isize(o + 1),
        CursorMove::Back => fits_isize(o - 1),
        CursorMove::Start => o >= p,
        CursorMove::End => o >= p && l <= isize::MAX && fits_isize(p + l as int),
    }
}

/// The output can be worked out without overflow: the numbers fit in
/// `isize`, and every text position it starts from is in the line.
pub open spec fn output_ok(action: OutputAction, t: Terminal, p: nat, b: Seq<u8>) -> bool {
    let o = t.spec_current_offset();
    let l = char_count(b);
    match action {
        OutputAction::MoveCursor(m) => {
            &&& target_ok(m, t, p, b)
            &&& p <= isize::MAX
            &&& l <= isize::MAX
        },
        OutputAction::PrintBufferAndMoveCursorForward => position_ok(t) && o >= p && fits_isize(
            o + 1,
        ),
        OutputAction::EraseAndPrintBuffer => position_ok(t) && o >= p,
        OutputAction::ClearScreen => {
            &&& move_ok(t.spec_at_top(), Position { row: 0, column: 0 })
            &&& move_cursor_fits(Cursor { row: 0, column: 0 }, t.row_offset())
        },
        OutputAction::ClearLine => position_ok(t) && o >= p,
        OutputAction::MoveCursorBackAndPrintBufferAndMoveForward => position_ok(t) && o - 1 >= p,
        OutputAction::MoveCursorAndEraseAndPrintBuffer(k) => position_ok(t) && fits_isize(o + k)
            && o + k >= p,
        OutputAction::ClearAndPrintBuffer => position_ok(t) && o >= p,
        _ => true,
    }
}

/// Printing `text`.
pub open spec fn print_text(text: Seq<u8>) -> StepView {
    StepView::Print(PrintableView { text, newline: false, parts: Seq::empty() })
}

/// Printing the prompt's parts.
pub open spec fn print_parts(parts: Seq<Seq<u8>>) -> StepView {
    StepView::Print(PrintableView { text: Seq::empty(), newline: false, parts })
}

/// The terminal once an output with `action` is set up.
pub open spec fn output_terminal(action: OutputAction, t: Terminal) -> Terminal {
    match action {
        OutputAction::ClearScreen => t.spec_at_top().spec_moved(Position { row: 0, column: 0 }),
        _ => t,
    }
}

/// The steps of an output with `action` from terminal `t`, with prompt
/// `parts` and line bytes `b`.
pub open spec fn output_steps(action: OutputAction, t: Terminal, parts: Seq<Seq<u8>>, b: Seq<u8>) -> Seq<StepView> {
    let p = total_len(parts) as int;
    let o = t.spec_current_offset();
    let cur = t.spec_current_position();
    let l = char_count(b) as int;
    match action {
        OutputAction::MoveCursor(m) => {
            let x = move_target(m, t, p, l);
            if 0 <= x - p <= l {
                seq![StepView::MoveTo(t.spec_position_from_offset(x))]
            } else {
                seq![StepView::Bell]
            }
        },
        OutputAction::PrintBufferAndMoveCursorForward => seq![
            print_text(text_after(b, o, p)),
            StepView::MoveTo(t.spec_position_from_offset(o + 1)),
        ],
        OutputAction::EraseAfterCursor => seq![StepView::Erase],
        OutputAction::EraseAndPrintBuffer => seq![
            StepView::Erase,
            print_text(text_after(b, o, p)),
            StepView::MoveTo(cur),
        ],
        OutputAction::ClearScreen => seq![
            StepView::Moving(
                super::move_cursor::move_cursor_items(Cursor { row: 0, column: 0 }, t.row_offset()),
            ),
            StepView::Erase,
            print_parts(parts),
        ],
        OutputAction::ClearLine => seq![
            StepView::MoveTo(t.spec_position_from_offset(p)),
            StepView::Erase,
        ],
        OutputAction::MoveCursorBackAndPrintBufferAndMoveForward => seq![
            StepView::MoveTo(t.spec_position_from_offset(o - 1)),
            print_text(text_after(b, o - 1, p)),
            StepView::MoveTo(cur),
        ],
        OutputAction::MoveCursorAndEraseAndPrintBuffer(k) => seq![
            StepView::MoveTo(t.spec_position_from_offset(o + k)),
            StepView::Erase,
            print_text(text_after(b, o + k, p)),
            StepView::MoveTo(t.spec_position_from_offset(o + k)),
        ],
        OutputAction::RingBell => seq![StepView::Bell],
        OutputAction::ClearAndPrintPrompt => seq![
            StepView::ClearLine,
            print_parts(parts),
            StepView::GetPosition,
        ],
        OutputAction::ClearAndPrintBuffer => seq![
            StepView::MoveTo(t.spec_position_from_offset(p)),
            StepView::Erase,
            print_text(b),
        ],
        OutputAction::ProbeSize => seq![
            StepView::SavePosition,
            StepView::MoveCursorToEdge,
            StepView::GetPosition,
            StepView::RestorePosition,
        ],
        OutputAction::Done => seq![StepView::Newline, StepView::EndOfString],
        OutputAction::Abort => seq![StepView::Newline, StepView::Abort],
        OutputAction::Nothing => Seq::empty(),
    }
}

/// The bytes `tail` are the line `b` from its character `j` on: what
/// stands before character `j`, followed by `tail`, is the whole line,
/// and `tail` holds the characters from `j` on.
pub open spec fn is_tail_from(b: Seq<u8>, j: int, tail: Seq<u8>) -> bool {
    &&& b.subrange(0, byte_pos(b, j as nat)) + tail == b
    &&& char_count(tail) == char_count(b) - j
}

/// Printing the line's bytes after offset `x` prints the line from its
/// character `x - p` on.
proof fn lemma_text_after_is_tail(b: Seq<u8>, x: int, p: int)
    requires
        p <= x <= p + char_count(b),
    ensures
        is_tail_from(b, x - p, text_after(b, x, p)),
{
    let n = (x - p) as nat;
    crate::line_buffer::lemma_split_at_char(b, n);
    assert(b.subrange(0, byte_pos(b, n)) + b.subrange(byte_pos(b, n), b.len() as int) =~= b);
}

/// The step prints the line `b` from its character `j` on.
pub open spec fn prints_tail(v: StepView, b: Seq<u8>, j: int) -> bool {
    v matches StepView::Print(pv) && !pv.newline && pv.parts.len() == 0 && is_tail_from(
        b,
        j,
        pv.text,
    )
}

/// Law: the outputs that redraw the line print it from the place they
/// redraw from and leave the cursor where the edit puts it. With `p`
/// prompt characters, the line `b` of `l` characters and the cursor at
/// offset `o` within the line:
/// - erasing and reprinting prints the line from the cursor and puts the
///   cursor back;
/// - printing after an insertion prints the line from the cursor and
///   moves the cursor one character on;
/// - after a swap it goes one character back, prints from there and puts
///   the cursor back;
/// - after a deletion before the cursor it goes to where the deletion
///   began, erases, prints from there and goes back there;
/// - reprinting the whole line goes to its start, erases and prints it.
pub proof fn lemma_redraw_outputs(t: Terminal, parts: Seq<Seq<u8>>, b: Seq<u8>, k: isize)
    requires
        total_len(parts) <= t.spec_current_offset() <= total_len(parts) + char_count(b),
    ensures
        ({
            let p = total_len(parts) as int;
            let o = t.spec_current_offset();
            let cur = t.spec_current_position();
            let steps = output_steps(OutputAction::EraseAndPrintBuffer, t, parts, b);
            &&& steps.len() == 3
            &&& steps[0] == StepView::Erase
            &&& prints_tail(steps[1], b, o - p)
            &&& steps[2] == StepView::MoveTo(cur)
        }),
        ({
            let p = total_len(parts) as int;
            let o = t.spec_current_offset();
            let steps = output_steps(OutputAction::PrintBufferAndMoveCursorForward, t, parts, b);
            &&& steps.len() == 2
            &&& prints_tail(steps[0], b, o - p)
            &&& steps[1] == StepView::MoveTo(t.spec_position_from_offset(o + 1))
        }),
        ({
            let p = total_len(parts) as int;
            let o = t.spec_current_offset();
            let cur = t.spec_current_position();
            let steps = output_steps(
                OutputAction::MoveCursorBackAndPrintBufferAndMoveForward,
                t,
                parts,
                b,
            );
            p < o ==> {
                &&& steps.len() == 3
                &&& steps[0] == StepView::MoveTo(t.spec_position_from_offset(o - 1))
                &&& prints_tail(steps[1], b, o - 1 - p)
                &&& steps[2] == StepView::MoveTo(cur)
            }
        }),
        ({
            let p = total_len(parts) as int;
            let o = t.spec_current_offset();
            let x = o + k;
            let steps = output_steps(OutputAction::MoveCursorAndEraseAndPrintBuffer(k), t, parts, b);
            p <= x <= p + char_count(b) ==> {
                &&& steps.len() == 4
                &&& steps[0] == StepView::MoveTo(t.spec_position_from_offset(x))
                &&& steps[1] == StepView::Erase
                &&& prints_tail(steps[2], b, x - p)
                &&& steps[3] == StepView::MoveTo(t.spec_position_from_offset(x))
            }
        }),
        ({
            let p = total_len(parts) as int;
            let steps = output_steps(OutputAction::ClearAndPrintBuffer, t, parts, b);
            &&& steps.len() == 3
            &&& steps[0] == StepView::MoveTo(t.spec_position_from_offset(p))
            &&& steps[1] == StepView::Erase
            &&& steps[2] == print_text(b)
        }),
{
    let p = total_len(parts) as int;
    let o = t.spec_current_offset();
    lemma_text_after_is_tail(b, o, p);
    if p < o {
        lemma_text_after_is_tail(b, o - 1, p);
    }
    if p <= o + k <= p + char_count(b) {
        lemma_text_after_is_tail(b, o + k, p);
    }
}

/// Law: a cursor move never leaves the line: it moves the cursor to the
/// place it aims at when that lies between the line's first character
/// and just past its last one, and otherwise only rings the bell.
pub proof fn lemma_cursor_moves_stay_in_line(m: CursorMove, t: Terminal, parts: Seq<Seq<u8>>, b: Seq<u8>)
    ensures
        ({
            let p = total_len(parts) as int;
            let l = char_count(b) as int;
            let x = move_target(m, t, p, l);
            let steps = output_steps(OutputAction::MoveCursor(m), t, parts, b);
            &&& steps.len() == 1
            &&& steps[0] is Bell <==> !(p <= x <= p + l)
            &&& p <= x <= p + l ==> steps[0] == StepView::MoveTo(t.spec_position_from_offset(x))
        }),
{
}

/// Output for one action of the editor, worked out lazily: the terminal
/// is updated as the items are taken.
pub struct Output<'a, B: Buffer> {
    pub prompt: &'a Prompt<'a>,
    pub buffer: &'a LineBuffer<B>,
    /// The terminal the output is written to, lent for as long as the
    /// output runs.
    pub terminal: &'a mut Terminal,
    pub action: OutputAction,
}

impl<'a, B: Buffer> Output<'a, B> {
    pub closed spec fn spec_prompt(&self) -> Seq<Seq<u8>> {
        self.prompt@
    }

    pub closed spec fn spec_buffer(&self) -> Seq<u8> {
        self.buffer@
    }

    pub closed spec fn spec_terminal(&self) -> Terminal {
        *self.terminal
    }

    pub closed spec fn spec_action(&self) -> OutputAction {
        self.action
    }

    pub closed spec fn wf(&self) -> bool {
        self.prompt.wf() && self.buffer.wf()
    }

    pub fn new(
        prompt: &'a Prompt<'a>,
        buffer: &'a LineBuffer<B>,
        terminal: &'a mut Terminal,
        action: OutputAction,
    ) -> (o: Self)
        requires
            prompt.wf(),
            buffer.wf(),
        ensures
            o.wf(),
            o.spec_prompt() == prompt@,
            o.spec_buffer() == buffer@,
            o.spec_terminal() == *old(terminal),
            *final(o.terminal) == *final(terminal),
            o.spec_action() == action,
    {
        Self { prompt, buffer, terminal, action }
    }

    /// Characters of the line before the text position `position`.
    fn offset_from_position(&self, position: Position) -> (n: usize)
        requires
            self.wf(),
            fits_isize(self.spec_terminal().spec_offset(position)),
            position.row <= isize::MAX,
            position.column <= isize::MAX,
            1 <= self.spec_terminal().columns() <= isize::MAX,
            self.spec_terminal().spec_offset(position) >= total_len(self.spec_prompt()),
        ensures
            n == self.spec_terminal().spec_offset(position) - total_len(self.spec_prompt()),
    {
        self.terminal.offset_from_position(position) as usize - self.prompt.len()
    }

    /// Characters of the line before the cursor.
    fn current_offset(&self) -> (n: usize)
        requires
            self.wf(),
            position_ok(self.spec_terminal()),
            self.spec_terminal().spec_current_offset() >= total_len(self.spec_prompt()),
        ensures
            n == self.spec_terminal().spec_current_offset() - total_len(self.spec_prompt()),
    {
        self.offset_from_position(self.terminal.get_position())
    }

    /// The line's bytes from text position `position` on.
    fn buffer_after_position(&self, position: Position) -> (s: &'a [u8])
        requires
            self.wf(),
            fits_isize(self.spec_terminal().spec_offset(position)),
            position.row <= isize::MAX,
            position.column <= isize::MAX,
            1 <= self.spec_terminal().columns() <= isize::MAX,
            self.spec_terminal().spec_offset(position) >= total_len(self.spec_prompt()),
        ensures
            s@ == text_after(
                self.spec_buffer(),
                self.spec_terminal().spec_offset(position),
                total_len(self.spec_prompt()) as int,
            ),
    {
        let offset = self.offset_from_position(position);
        let s = self.buffer.as_slice();
        let pos = byte_position(s, offset);
        proof {
            crate::line_buffer::lemma_pos_from_bounds(s@, 0, offset as nat);
        }
        &s[pos..s.len()]
    }

    /// The text offset that a cursor move aims at.
    fn new_offset(&self, cursor_move: CursorMove) -> (x: isize)
        requires
            self.wf(),
            target_ok(
                cursor_move,
                self.spec_terminal(),
                total_len(self.spec_prompt()),
                self.spec_buffer(),
            ),
        ensures
            x == move_target(
                cursor_move,
                self.spec_terminal(),
                total_len(self.spec_prompt()) as int,
                char_count(self.spec_buffer()) as int,
            ),
    {
        let current = self.terminal.current_offset();
        match cursor_move {
            CursorMove::Forward => current + 1,
            CursorMove::Back => current - 1,
            CursorMove::Start => {
                let pos = self.current_offset() as isize;
                current - pos
            },
            CursorMove::End => {
                let pos = self.current_offset() as isize;
                let len = count_chars(self.buffer.as_slice()) as isize;
                current + (len - pos)
            },
        }
    }
}

impl<'a, B: Buffer> Output<'a, B> {
    /// The text position that a cursor move aims at.
    fn new_position(&self, cursor_move: CursorMove) -> (p: Position)
        requires
            self.wf(),
            target_ok(
                cursor_move,
                self.spec_terminal(),
                total_len(self.spec_prompt()),
                self.spec_buffer(),
            ),
        ensures
            p == self.spec_terminal().spec_position_from_offset(
                move_target(
                    cursor_move,
                    self.spec_terminal(),
                    total_len(self.spec_prompt()) as int,
                    char_count(self.spec_buffer()) as int,
                ),
            ),
    {
        let x = self.new_offset(cursor_move);
        self.terminal.position_from_offset(x)
    }

    /// The steps of the output, ready to be taken.
    pub fn into_iter(self) -> (it: OutputIter<'a>)
        requires
            self.wf(),
            output_ok(
                self.spec_action(),
                self.spec_terminal(),
                total_len(self.spec_prompt()),
                self.spec_buffer(),
            ),
        ensures
            it.wf(),
            it.spec_terminal() == output_terminal(self.spec_action(), self.spec_terminal()),
            *final(it.terminal) == *final(self.terminal),
            it.spec_steps() =~~= output_steps(
                self.spec_action(),
                self.spec_terminal(),
                self.spec_prompt(),
                self.spec_buffer(),
            ),
    {
        let mut this = self;
        let ghost t = this.spec_terminal();
        let ghost parts = this.spec_prompt();
        let ghost b = this.spec_buffer();
        let mut steps: Vec<Step<'a>> = Vec::new();
        match this.action {
            OutputAction::MoveCursor(cursor_move) => {
                let target = this.new_offset(cursor_move);
                let offset = target - this.prompt.len() as isize;
                let buffer_len = count_chars(this.buffer.as_slice()) as isize;
                if offset >= 0 && offset <= buffer_len {
                    steps.push(Step::move_to(this.new_position(cursor_move)));
                } else {
                    steps.push(Step::Bell);
                }
            },
            OutputAction::PrintBufferAndMoveCursorForward => {
                let position = this.terminal.get_position();
                steps.push(Step::print(Printable::from_str(this.buffer_after_position(position))));
                steps.push(Step::move_to(this.terminal.relative_position(1)));
            },
            OutputAction::EraseAfterCursor => {
                steps.push(Step::Erase);
            },
            OutputAction::EraseAndPrintBuffer => {
                let position = this.terminal.get_position();
                steps.push(Step::Erase);
                steps.push(Step::print(Printable::from_str(this.buffer_after_position(position))));
                steps.push(Step::move_to(position));
            },
            OutputAction::ClearScreen => {
                let rows = this.terminal.scroll_to_top();
                this.terminal.move_cursor(Position::new(0, 0));
                steps.push(Step::moving(MoveCursor::new(Cursor::new(0, 0), rows)));
                steps.push(Step::Erase);
                steps.push(Step::print(Printable::from_iter(this.prompt.iter())));
            },
            OutputAction::ClearLine => {
                steps.push(Step::move_to(this.new_position(CursorMove::Start)));
                steps.push(Step::Erase);
            },
            OutputAction::MoveCursorBackAndPrintBufferAndMoveForward => {
                let position = this.terminal.relative_position(-1);
                proof {
                    lemma_position_offset_roundtrip(t, t.spec_current_offset() - 1);
                }
                steps.push(Step::move_to(position));
                steps.push(Step::print(Printable::from_str(this.buffer_after_position(position))));
                steps.push(Step::move_to(this.terminal.get_position()));
            },
            OutputAction::MoveCursorAndEraseAndPrintBuffer(k) => {
                let position = this.terminal.relative_position(k);
                proof {
                    lemma_position_offset_roundtrip(t, t.spec_current_offset() + k);
                }
                steps.push(Step::move_to(position));
                steps.push(Step::Erase);
                steps.push(Step::print(Printable::from_str(this.buffer_after_position(position))));
                steps.push(Step::move_to(position));
            },
            OutputAction::RingBell => {
                steps.push(Step::Bell);
            },
            OutputAction::ClearAndPrintPrompt => {
                steps.push(Step::ClearLine);
                steps.push(Step::print(Printable::from_iter(this.prompt.iter())));
                steps.push(Step::GetPosition);
            },
            OutputAction::ClearAndPrintBuffer => {
                let position = this.new_position(CursorMove::Start);
                steps.push(Step::move_to(position));
                steps.push(Step::Erase);
                steps.push(Step::print(Printable::from_str(this.buffer.as_slice())));
            },
            OutputAction::ProbeSize => {
                steps.push(Step::SavePosition);
                steps.push(Step::MoveCursorToEdge);
                steps.push(Step::GetPosition);
                steps.push(Step::RestorePosition);
            },
            OutputAction::Done => {
                steps.push(Step::Newline);
                steps.push(Step::EndOfString);
            },
            OutputAction::Abort => {
                steps.push(Step::Newline);
                steps.push(Step::Abort);
            },
            OutputAction::Nothing => {},
        }
        OutputIter::new(this.terminal, steps)
    }

    /// All bytes of the output (of one that hands out bytes only). An
    /// output that moves the cursor or prints needs room on the terminal
    /// (see `room`): cursor moves are written with numbers of at most four
    /// digits, and text offsets must fit the machine's integers.
    pub fn into_vec(self) -> (v: Vec<u8>)
        requires
            self.wf(),
            output_ok(
                self.spec_action(),
                self.spec_terminal(),
                total_len(self.spec_prompt()),
                self.spec_buffer(),
            ),
            !(self.spec_action() is Done) && !(self.spec_action() is Abort),
            quiet(self.spec_action()) || room(
                self.spec_terminal(),
                output_reach(
                    self.spec_action(),
                    self.spec_terminal(),
                    total_len(self.spec_prompt()),
                    self.spec_buffer(),
                ),
            ),
        ensures
            exists|fuel: nat|
                run_ok(
                    output_steps(
                        self.spec_action(),
                        self.spec_terminal(),
                        self.spec_prompt(),
                        self.spec_buffer(),
                    ),
                    output_terminal(self.spec_action(), self.spec_terminal()),
                    fuel,
                    true,
                ) && v@ == run_bytes(
                    output_steps(
                        self.spec_action(),
                        self.spec_terminal(),
                        self.spec_prompt(),
                        self.spec_buffer(),
                    ),
                    output_terminal(self.spec_action(), self.spec_terminal()),
                    fuel,
                ),
    {
        let ghost steps0 = output_steps(
            self.spec_action(),
            self.spec_terminal(),
            self.spec_prompt(),
            self.spec_buffer(),
        );
        let ghost t0 = output_terminal(self.spec_action(), self.spec_terminal());
        proof {
            if quiet(self.spec_action()) {
                lemma_quiet_output_runs(
                    self.spec_action(),
                    self.spec_terminal(),
                    self.spec_prompt(),
                    self.spec_buffer(),
                );
            } else {
                lemma_output_runs(
                    self.spec_action(),
                    self.spec_terminal(),
                    self.spec_prompt(),
                    self.spec_buffer(),
                );
            }
        }
        let ghost fuel0: nat = choose|fuel: nat| run_ok(steps0, t0, fuel, true);
        let mut it = self.into_iter();
        let mut v: Vec<u8> = Vec::new();
        let ghost mut fuel: nat = fuel0;
        loop
            invariant
                it.wf(),
                run_ok(it.spec_steps(), it.spec_terminal(), fuel, true),
                run_ok(steps0, t0, fuel0, true),
                steps0 == output_steps(
                    self.spec_action(),
                    self.spec_terminal(),
                    self.spec_prompt(),
                    self.spec_buffer(),
                ),
                t0 == output_terminal(self.spec_action(), self.spec_terminal()),
                v@ + run_bytes(it.spec_steps(), it.spec_terminal(), fuel) == run_bytes(
                    steps0,
                    t0,
                    fuel0,
                ),
            decreases fuel,
        {
            let ghost s = it.spec_steps();
            let ghost t = it.spec_terminal();
            match it.next() {
                Some(item) => {
                    let bytes = item.get_bytes();
                    match bytes {
                        Some(bytes) => {
                            let ghost before = v@;
                            let mut i: usize = 0;
                            while i < bytes.len()
                                invariant
                                    i <= bytes@.len(),
                                    v@ == before + bytes@.subrange(0, i as int),
                                decreases bytes@.len() - i,
                            {
                                v.push(bytes[i]);
                                i += 1;
                            }
                            proof {
                                assert(bytes@.subrange(0, bytes@.len() as int) =~= bytes@);
                                assert(run_bytes(s, t, fuel) == bytes@ + run_bytes(
                                    it.spec_steps(),
                                    it.spec_terminal(),
                                    (fuel - 1) as nat,
                                ));
                                assert(v@ + run_bytes(
                                    it.spec_steps(),
                                    it.spec_terminal(),
                                    (fuel - 1) as nat,
                                ) =~= before + run_bytes(s, t, fuel));
                                fuel = (fuel - 1) as nat;
                            }
                        },
                        None => {
                            proof {
                                assert(false);
                            }
                        },
                    }
                },
                None => {
                    proof {
                        assert(run_bytes(s, t, fuel) =~= Seq::<u8>::empty());
                        assert(v@ =~= v@ + run_bytes(s, t, fuel));
                        assert(v@ =~= run_bytes(steps0, t0, fuel0));
                        assert(run_ok(steps0, t0, fuel0, true) && v@ == run_bytes(steps0, t0, fuel0));
                    }
                    return v;
                },
            }
        }
    }
}

} // verus!
