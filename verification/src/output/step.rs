use vstd::prelude::*;

use super::move_cursor::{move_cursor_items, MoveCursor};
use super::move_cursor_pos::{move_ok, MoveCursorToPosition};
use super::output_item::{ItemView, OutputItem};
use super::printable::{printable_item_view, printable_next, Printable, PrintableItem, PrintableView};
use crate::line_buffer::{char_count, count_chars};
use crate::terminal::{
    fits_isize, lemma_moved_position, lemma_position_offset_roundtrip, Position, Terminal,
};

verus! {

/// One step of an output run, as far as its output and its effect on
/// the terminal go.
#[verifier::ext_equal]
pub enum StepView {
    Print(PrintableView),
    MoveTo(Position),
    Moving(Seq<Seq<u8>>),
    MoveCursorToEdge,
    GetPosition,
    SavePosition,
    RestorePosition,
    ClearLine,
    Erase,
    Newline,
    Bell,
    EndOfString,
    Abort,
    Done,
}

/// `ESC [ 999 ; 999 H`: the cursor to the bottom right corner.
pub open spec fn edge_bytes() -> Seq<u8> {
    seq![0x1bu8, 0x5bu8, 0x39u8, 0x39u8, 0x39u8, 0x3bu8, 0x39u8, 0x39u8, 0x39u8, 0x48u8]
}

/// `ESC [ J`: erase from the cursor to the end of the screen.
pub open spec fn erase_bytes() -> Seq<u8> {
    seq![0x1bu8, 0x5bu8, 0x4au8]
}

/// `LF CR`: the start of the next row.
pub open spec fn newline_bytes() -> Seq<u8> {
    seq![0x0au8, 0x0du8]
}

/// `BEL`.
pub open spec fn bell_bytes() -> Seq<u8> {
    seq![0x07u8]
}

/// `CR ESC [ J`: erase the cursor's row and below.
pub open spec fn clear_line_bytes() -> Seq<u8> {
    seq![0x0du8, 0x1bu8, 0x5bu8, 0x4au8]
}

/// `ESC [ 6 n`: ask for the cursor position.
pub open spec fn get_position_bytes() -> Seq<u8> {
    seq![0x1bu8, 0x5bu8, 0x36u8, 0x6eu8]
}

/// `ESC 7`: save the cursor position.
pub open spec fn save_position_bytes() -> Seq<u8> {
    seq![0x1bu8, 0x37u8]
}

/// `ESC 8`: restore the saved cursor position.
pub open spec fn restore_position_bytes() -> Seq<u8> {
    seq![0x1bu8, 0x38u8]
}

/// Characters left on the cursor's row.
pub open spec fn columns_left(t: Terminal) -> nat {
    (t.columns() - t.cursor().column) as nat
}

/// The text position `count` characters after the cursor.
pub open spec fn position_after(t: Terminal, count: int) -> Position {
    t.spec_position_from_offset(t.spec_current_offset() + count)
}

/// The start of the text row after the cursor's.
pub open spec fn next_line_start(t: Terminal) -> Position {
    Position { row: (t.spec_current_position().row + 1) as usize, column: 0 }
}

/// What a step does from terminal `t`: the step that takes its place,
/// the terminal afterwards and the item handed out, if any.
pub open spec fn step_next(v: StepView, t: Terminal) -> (StepView, Terminal, Option<ItemView>) {
    match v {
        StepView::Print(p) => {
            let (p2, item) = printable_next(p, columns_left(t));
            match item {
                None => (StepView::Done, t, None),
                Some(None) => (StepView::Print(p2), t, Some(ItemView::Bytes(newline_bytes()))),
                Some(Some(s)) => (
                    StepView::Print(p2),
                    t.spec_moved(position_after(t, char_count(s) as int)),
                    Some(ItemView::Bytes(s)),
                ),
            }
        },
        StepView::MoveTo(p) => {
            let t2 = t.spec_moved(p);
            let items = move_cursor_items(t2.cursor(), t.spec_scrolling_needed(p.row as int));
            (StepView::Moving(items.drop_first()), t2, Some(ItemView::Bytes(items[0])))
        },
        StepView::Moving(items) => if items.len() > 0 {
            (StepView::Moving(items.drop_first()), t, Some(ItemView::Bytes(items[0])))
        } else {
            (StepView::Done, t, None)
        },
        StepView::MoveCursorToEdge => (StepView::Done, t, Some(ItemView::Bytes(edge_bytes()))),
        StepView::GetPosition => (StepView::Done, t, Some(ItemView::Bytes(get_position_bytes()))),
        StepView::SavePosition => (StepView::Done, t, Some(ItemView::Bytes(save_position_bytes()))),
        StepView::RestorePosition => (
            StepView::Done,
            t,
            Some(ItemView::Bytes(restore_position_bytes())),
        ),
        StepView::ClearLine => (
            StepView::Done,
            t.spec_line_start(),
            Some(ItemView::Bytes(clear_line_bytes())),
        ),
        StepView::Erase => (StepView::Done, t, Some(ItemView::Bytes(erase_bytes()))),
        StepView::Newline => (
            StepView::Done,
            t.spec_moved(next_line_start(t)),
            Some(ItemView::Bytes(newline_bytes())),
        ),
        StepView::Bell => (StepView::Done, t, Some(ItemView::Bytes(bell_bytes()))),
        StepView::EndOfString => (StepView::Done, t, Some(ItemView::EndOfString)),
        StepView::Abort => (StepView::Done, t, Some(ItemView::Abort)),
        StepView::Done => (StepView::Done, t, None),
    }
}

/// The cursor's text offset and `count` characters after it can be
/// worked out, and the cursor moved there.
pub open spec fn print_ok(t: Terminal, count: int) -> bool {
    &&& 1 <= t.columns() <= isize::MAX
    &&& t.cursor().column <= t.columns()
    &&& t.cursor().row <= isize::MAX
    &&& fits_isize(t.cursor().row + t.row_offset())
    &&& t.spec_current_position().row <= isize::MAX
    &&& 0 <= count <= isize::MAX
    &&& fits_isize(t.spec_current_offset())
    &&& fits_isize(t.spec_current_offset() + count)
    &&& move_ok(t, position_after(t, count))
}

/// The cursor can be moved to the start of the next text row.
pub open spec fn newline_ok(t: Terminal) -> bool {
    &&& t.cursor().row <= isize::MAX
    &&& fits_isize(t.cursor().row + t.row_offset())
    &&& t.spec_current_position().row < usize::MAX
    &&& move_ok(t, next_line_start(t))
}

/// A step can be taken from terminal `t` without overflow.
pub open spec fn step_ok(v: StepView, t: Terminal) -> bool {
    match v {
        StepView::Print(p) => {
            let (p2, item) = printable_next(p, columns_left(t));
            &&& t.cursor().column <= t.columns()
            &&& (item matches Some(Some(s)) ==> print_ok(t, char_count(s) as int))
        },
        StepView::MoveTo(p) => move_ok(t, p),
        StepView::Newline => newline_ok(t),
        _ => true,
    }
}

/// Law: printing a piece of text moves the cursor on by as many
/// characters as the piece holds, to a place on screen within the row
/// width; a line break, or the end of the text, moves it nowhere.
pub proof fn lemma_print_step_moves_cursor(p: PrintableView, t: Terminal)
    requires
        step_ok(StepView::Print(p), t),
        t.spec_current_offset() >= 0,
    ensures
        ({
            let (v2, t2, item) = step_next(StepView::Print(p), t);
            match item {
                Some(ItemView::Bytes(b)) => if p.newline {
                    t2 == t
                } else {
                    &&& t2.spec_current_offset() == t.spec_current_offset() + char_count(b)
                    &&& t2.cursor().column < t2.columns()
                    &&& t2.cursor().row < t2.rows()
                },
                _ => t2 == t,
            }
        }),
{
    let (p2, item) = printable_next(p, columns_left(t));
    if let Some(Some(s)) = item {
        let count = char_count(s) as int;
        let pos = position_after(t, count);
        lemma_moved_position(t, pos);
        lemma_position_offset_roundtrip(t, t.spec_current_offset() + count);
    }
}

/// A step of an output run.
pub enum Step<'a> {
    Print(Printable<'a>),
    Move(MoveCursorToPosition),
    MoveCursorToEdge,
    GetPosition,
    SavePosition,
    RestorePosition,
    ClearLine,
    Erase,
    Newline,
    Bell,
    EndOfString,
    Abort,
    Done,
}

/// The item as the run sees it.
pub open spec fn item_view(r: Option<OutputItem>) -> Option<ItemView> {
    match r {
        Some(item) => Some(item@),
        None => None,
    }
}

impl<'a> View for Step<'a> {
    type V = StepView;

    open spec fn view(&self) -> StepView {
        match self {
            Step::Print(p) => StepView::Print(p@),
            Step::Move(MoveCursorToPosition::Position(p)) => StepView::MoveTo(*p),
            Step::Move(MoveCursorToPosition::Move(m)) => StepView::Moving(m.remaining()),
            Step::MoveCursorToEdge => StepView::MoveCursorToEdge,
            Step::GetPosition => StepView::GetPosition,
            Step::SavePosition => StepView::SavePosition,
            Step::RestorePosition => StepView::RestorePosition,
            Step::ClearLine => StepView::ClearLine,
            Step::Erase => StepView::Erase,
            Step::Newline => StepView::Newline,
            Step::Bell => StepView::Bell,
            Step::EndOfString => StepView::EndOfString,
            Step::Abort => StepView::Abort,
            Step::Done => StepView::Done,
        }
    }
}

impl<'a> Step<'a> {
    pub open spec fn wf(&self) -> bool {
        match self {
            Step::Print(p) => p.wf(),
            Step::Move(m) => m.wf(),
            _ => true,
        }
    }

    /// A step to print `p`.
    pub fn print(p: Printable<'a>) -> (s: Self)
        requires
            p.wf(),
        ensures
            s.wf(),
            s@ == StepView::Print(p@),
    {
        Step::Print(p)
    }

    /// A step to move the cursor to `position`.
    pub fn move_to(position: Position) -> (s: Self)
        ensures
            s.wf(),
            s@ == StepView::MoveTo(position),
    {
        Step::Move(MoveCursorToPosition::new(position))
    }

    /// A step to hand out the items of `m`.
    pub fn moving(m: MoveCursor) -> (s: Self)
        requires
            m.wf(),
        ensures
            s.wf(),
            s@ == StepView::Moving(m.remaining()),
    {
        Step::Move(MoveCursorToPosition::Move(m))
    }

    fn transition(&mut self, new_state: Step<'a>, output: OutputItem<'a>) -> (r: Option<
        OutputItem<'a>,
    >)
        ensures
            *final(self) == new_state,
            r == Some(output),
    {
        *self = new_state;
        Some(output)
    }

    /// Takes the step once: hands out its next item and moves the
    /// terminal along, or finishes the step.
    pub fn advance(&mut self, terminal: &mut Terminal) -> (r: Option<OutputItem<'a>>)
        requires
            old(self).wf(),
            step_ok(old(self)@, *old(terminal)),
        ensures
            final(self).wf(),
            final(self)@ =~~= step_next(old(self)@, *old(terminal)).0,
            *final(terminal) == step_next(old(self)@, *old(terminal)).1,
            item_view(r) =~~= step_next(old(self)@, *old(terminal)).2,
    {
        match self {
            Step::Print(printable) => {
                let max = terminal.columns_remaining();
                let item = printable.next_item(max);
                match item {
                    Some(PrintableItem::Str(s)) => {
                        let count = count_chars(s);
                        let position = terminal.relative_position(count as isize);
                        terminal.move_cursor(position);
                        Some(OutputItem::Slice(s))
                    },
                    Some(PrintableItem::Newline) => Some(OutputItem::Slice(&[0x0a, 0x0d])),
                    None => {
                        *self = Step::Done;
                        None
                    },
                }
            },
            Step::Move(pos) => {
                let ghost t0 = *terminal;
                proof {
                    if let MoveCursorToPosition::Position(p) = *pos {
                        t0.lemma_spec_terminals(p);
                        MoveCursor::lemma_spec_new(
                            t0.spec_moved(p).cursor(),
                            t0.spec_scrolling_needed(p.row as int),
                        );
                    }
                }
                let move_cursor = pos.get_move_cursor(terminal);
                match move_cursor.next() {
                    Some(item) => Some(item),
                    None => {
                        *self = Step::Done;
                        None
                    },
                }
            },
            Step::MoveCursorToEdge => self.transition(
                Step::Done,
                OutputItem::Slice(&[0x1b, 0x5b, 0x39, 0x39, 0x39, 0x3b, 0x39, 0x39, 0x39, 0x48]),
            ),
            Step::Erase => self.transition(Step::Done, OutputItem::Slice(&[0x1b, 0x5b, 0x4a])),
            Step::Newline => {
                let mut position = terminal.get_position();
                position.row = position.row + 1;
                position.column = 0;
                terminal.move_cursor(position);
                self.transition(Step::Done, OutputItem::Slice(&[0x0a, 0x0d]))
            },
            Step::Bell => self.transition(Step::Done, OutputItem::Slice(&[0x07])),
            Step::EndOfString => self.transition(Step::Done, OutputItem::EndOfString),
            Step::Abort => self.transition(Step::Done, OutputItem::Abort),
            Step::ClearLine => {
                terminal.move_cursor_to_start_of_line();
                self.transition(Step::Done, OutputItem::Slice(&[0x0d, 0x1b, 0x5b, 0x4a]))
            },
            Step::GetPosition => self.transition(
                Step::Done,
                OutputItem::Slice(&[0x1b, 0x5b, 0x36, 0x6e]),
            ),
            Step::SavePosition => self.transition(Step::Done, OutputItem::Slice(&[0x1b, 0x37])),
            Step::RestorePosition => self.transition(
                Step::Done,
                OutputItem::Slice(&[0x1b, 0x38]),
            ),
            Step::Done => None,
        }
    }
}

} // verus!
