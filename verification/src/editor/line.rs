use vstd::prelude::*;

use super::prompt::{total_len, Prompt};
use super::reset_handle::{ResetHandle, ResetState};
use crate::history::{CircularSlice, History, HistoryNavigator};
use crate::input::{parser_step, step_overflows, Action, ControlCharacter, Parser, CSI};
use crate::line_buffer::{
    str_from_utf8,
    byte_pos, char_count, char_deleted, chars_swapped, count_chars, fits, inserted, word_deleted,
    word_end_index, word_start_index, Buffer, LineBuffer,
};
use crate::output::{move_target, CursorMove, Output, OutputAction};
use crate::terminal::{fits_isize, Cursor, Terminal};
use crate::line_buffer::{lemma_insert_then_delete, removed};
use crate::utf8::{is_cont, Utf8Char};
use vstd::string::StringSliceAdditionalSpecFns;
use vstd::utf8::valid_utf8;

verus! {

/// The cursor's offset in the text can be worked out.
pub open spec fn offset_ok(t: Terminal) -> bool {
    &&& t.cursor().row <= isize::MAX
    &&& fits_isize(t.cursor().row + t.row_offset())
    &&& t.spec_current_position().row <= isize::MAX
    &&& t.cursor().column <= isize::MAX
    &&& t.columns() <= isize::MAX
    &&& fits_isize(t.spec_current_offset())
}

/// The editor works out the cursor's place in the line for action `a`,
/// with `len` bytes in the line.
pub open spec fn uses_position(a: Action, len: nat) -> bool {
    match a {
        Action::Print(_) => true,
        Action::ControlCharacter(c) => match c {
            ControlCharacter::CtrlD => len > 0,
            ControlCharacter::CtrlK => true,
            ControlCharacter::CtrlT => true,
            ControlCharacter::CtrlW => true,
            ControlCharacter::CtrlH => true,
            ControlCharacter::Backspace => true,
            _ => false,
        },
        Action::ControlSequenceIntroducer(CSI::Delete) => true,
        _ => false,
    }
}

/// The line `s` emptied: what is left is a stray start of continuation
/// bytes, if any.
pub open spec fn emptied(s: Seq<u8>) -> Seq<u8> {
    s.subrange(0, byte_pos(s, 0))
}

/// The line `s` replaced by history entry `e`.
pub open spec fn loaded(s: Seq<u8>, e: Seq<u8>) -> Seq<u8> {
    e + emptied(s)
}

/// Moving up in the history: the entry shown, if any, and the
/// navigator's position afterwards. Navigation starts past the newest
/// entry, but only on an empty line.
pub open spec fn up_result(nav: Option<usize>, entries: Seq<Seq<u8>>, len: nat) -> (Option<Seq<u8>>, Option<usize>) {
    let start = match nav {
        Some(p) => Some(p as int),
        None => if len == 0 {
            Some(entries.len() as int)
        } else {
            None::<int>
        },
    };
    match start {
        None => (None, nav),
        Some(c) => if c > 0 {
            (
                if c <= entries.len() {
                    Some(entries[c - 1])
                } else {
                    None
                },
                Some((c - 1) as usize),
            )
        } else {
            (None, Some(0usize))
        },
    }
}

/// What the line editor does for the parser's action `a` when the line
/// holds `s` (with capacity `cap`), the cursor is at character `pos`,
/// and the history navigator is at `nav` over `entries`: the output
/// action, the line afterwards, and the navigator's position afterwards.
pub open spec fn edit(
    a: Action,
    s: Seq<u8>,
    cap: Option<usize>,
    pos: nat,
    nav: Option<usize>,
    entries: Seq<Seq<u8>>,
) -> (OutputAction, Seq<u8>, Option<usize>) {
    let len = s.len();
    let bell = (OutputAction::RingBell, s, nav);
    let up = match up_result(nav, entries, len) {
        (Some(e), n) => (OutputAction::ClearAndPrintBuffer, loaded(s, e), n),
        (None, n) => (OutputAction::RingBell, s, n),
    };
    let down = match nav {
        None => bell,
        Some(p) => if p + 1 < entries.len() {
            (OutputAction::ClearAndPrintBuffer, loaded(s, entries[p + 1]), Some((p + 1) as usize))
        } else {
            (OutputAction::ClearAndPrintBuffer, emptied(s), None)
        },
    };
    match a {
        Action::Print(c) => if fits(cap, len, c@.len()) {
            (OutputAction::PrintBufferAndMoveCursorForward, inserted(s, byte_pos(s, pos), c@), nav)
        } else {
            bell
        },
        Action::ControlCharacter(c) => match c {
            ControlCharacter::CtrlA => (OutputAction::MoveCursor(CursorMove::Start), s, nav),
            ControlCharacter::CtrlB => (OutputAction::MoveCursor(CursorMove::Back), s, nav),
            ControlCharacter::CtrlC => (OutputAction::Abort, s, nav),
            ControlCharacter::CtrlD => if len > 0 {
                if pos < len {
                    (OutputAction::EraseAndPrintBuffer, char_deleted(s, pos), nav)
                } else {
                    bell
                }
            } else {
                (OutputAction::Abort, s, nav)
            },
            ControlCharacter::CtrlE => (OutputAction::MoveCursor(CursorMove::End), s, nav),
            ControlCharacter::CtrlF => (OutputAction::MoveCursor(CursorMove::Forward), s, nav),
            ControlCharacter::CtrlK => (
                OutputAction::EraseAfterCursor,
                s.subrange(0, byte_pos(s, pos)),
                nav,
            ),
            ControlCharacter::CtrlL => (OutputAction::ClearScreen, emptied(s), nav),
            ControlCharacter::CtrlN => down,
            ControlCharacter::CtrlP => up,
            ControlCharacter::CtrlT => if pos > 0 && pos < char_count(s) {
                (
                    OutputAction::MoveCursorBackAndPrintBufferAndMoveForward,
                    chars_swapped(s, pos),
                    nav,
                )
            } else {
                bell
            },
            ControlCharacter::CtrlU => (OutputAction::ClearLine, emptied(s), nav),
            ControlCharacter::CtrlW => (
                OutputAction::MoveCursorAndEraseAndPrintBuffer(
                    (-(word_end_index(s, pos) - word_start_index(s, pos))) as isize,
                ),
                word_deleted(s, pos),
                nav,
            ),
            ControlCharacter::CarriageReturn => (OutputAction::Done, s, nav),
            ControlCharacter::LineFeed => (OutputAction::Done, s, nav),
            ControlCharacter::CtrlH => if pos > 0 {
                (
                    OutputAction::MoveCursorAndEraseAndPrintBuffer(-1isize),
                    char_deleted(s, (pos - 1) as nat),
                    nav,
                )
            } else {
                bell
            },
            ControlCharacter::Backspace => if pos > 0 {
                (
                    OutputAction::MoveCursorAndEraseAndPrintBuffer(-1isize),
                    char_deleted(s, (pos - 1) as nat),
                    nav,
                )
            } else {
                bell
            },
            _ => bell,
        },
        Action::ControlSequenceIntroducer(csi) => match csi {
            CSI::CUF(_) => (OutputAction::MoveCursor(CursorMove::Forward), s, nav),
            CSI::CUB(_) => (OutputAction::MoveCursor(CursorMove::Back), s, nav),
            CSI::Home => (OutputAction::MoveCursor(CursorMove::Start), s, nav),
            CSI::Delete => if pos < len {
                (OutputAction::EraseAndPrintBuffer, char_deleted(s, pos), nav)
            } else {
                bell
            },
            CSI::End => (OutputAction::MoveCursor(CursorMove::End), s, nav),
            CSI::CPR(_, _) => (OutputAction::Nothing, s, nav),
            CSI::CUU(_) => up,
            CSI::CUD(_) => down,
            _ => bell,
        },
        Action::EscapeSequence(_) => bell,
        Action::Ignore => (OutputAction::Nothing, s, nav),
        Action::InvalidUtf8 => bell,
    }
}

/// Law: the Delete key removes exactly the character under the cursor
/// (character `pos`, which is one character): putting it back where the
/// cursor is gives back the line, the line holds one character less, and
/// it is the line Backspace leaves with the cursor one character further
/// on; Ctrl-D does the same.
pub proof fn lemma_delete_removes_char_under_cursor(
    s: Seq<u8>,
    cap: Option<usize>,
    pos: nat,
    nav: Option<usize>,
    entries: Seq<Seq<u8>>,
)
    requires
        pos < char_count(s),
    ensures
        ({
            let (a, s2, n) = edit(
                Action::ControlSequenceIntroducer(CSI::Delete),
                s,
                cap,
                pos,
                nav,
                entries,
            );
            let p = byte_pos(s, pos);
            let c = s.subrange(p, byte_pos(s, pos + 1));
            &&& char_count(c) == 1
            &&& s2.subrange(0, p) + c + s2.subrange(p, s2.len() as int) == s
            &&& s2.len() + c.len() == s.len()
            &&& char_count(s2) + 1 == char_count(s)
            &&& a == OutputAction::EraseAndPrintBuffer
            &&& n == nav
            &&& s2 == edit(
                Action::ControlCharacter(ControlCharacter::Backspace),
                s,
                cap,
                pos + 1,
                nav,
                entries,
            ).1
            &&& edit(Action::ControlCharacter(ControlCharacter::CtrlD), s, cap, pos, nav, entries)
                == (a, s2, n)
        }),
{
    let p = byte_pos(s, pos);
    let q = byte_pos(s, pos + 1);
    crate::line_buffer::lemma_pos_from_count(s, 0, pos);
    crate::line_buffer::lemma_pos_from_bounds(s, 0, pos);
    crate::line_buffer::lemma_pos_from_bounds(s, 0, pos + 1);
    crate::line_buffer::lemma_pos_from_mono(s, 0, pos, pos + 1);
    crate::line_buffer::lemma_count_from_bound(s, 0);
    let c = s.subrange(p, q);
    let s2 = removed(s, p, q);
    assert(char_deleted(s, pos) == s2);
    assert(s2.subrange(0, p) =~= s.subrange(0, p));
    assert(s2.subrange(p, s2.len() as int) =~= s.subrange(q, s.len() as int));
    assert(s.subrange(0, p) + c + s.subrange(q, s.len() as int) =~= s);
    // character counts of the pieces
    crate::line_buffer::lemma_split_at_char(s, pos);
    crate::line_buffer::lemma_split_at_char(s, pos + 1);
    let front = s.subrange(0, q);
    assert(front =~= s.subrange(0, p) + c);
    crate::line_buffer::lemma_count_concat(s.subrange(0, p), c);
    crate::line_buffer::lemma_count_concat(s.subrange(0, p), s.subrange(q, s.len() as int));
}

/// Law: Ctrl-K keeps exactly the characters before the cursor: the new
/// line is the start of the old one, ends where a character starts (or
/// at the end), and holds as many characters as stood before the cursor.
pub proof fn lemma_ctrl_k_keeps_chars_before_cursor(
    s: Seq<u8>,
    cap: Option<usize>,
    pos: nat,
    nav: Option<usize>,
    entries: Seq<Seq<u8>>,
)
    ensures
        ({
            let (a, s2, n) = edit(
                Action::ControlCharacter(ControlCharacter::CtrlK),
                s,
                cap,
                pos,
                nav,
                entries,
            );
            &&& s2.len() <= s.len()
            &&& s2 == s.subrange(0, s2.len() as int)
            &&& crate::line_buffer::at_char(s, s2.len() as int)
            &&& char_count(s2) == if pos <= char_count(s) {
                pos
            } else {
                char_count(s)
            }
            &&& a == OutputAction::EraseAfterCursor
            &&& n == nav
        }),
{
    let p = byte_pos(s, pos);
    crate::line_buffer::lemma_pos_from_bounds(s, 0, pos);
    crate::line_buffer::lemma_pos_from_count(s, 0, pos);
    if pos <= char_count(s) {
        crate::line_buffer::lemma_split_at_char(s, pos);
    } else {
        assert(s.subrange(0, p) =~= s);
    }
    assert(s.subrange(0, p).subrange(0, p) =~= s.subrange(0, p));
}

/// Law: Ctrl-U and Ctrl-L leave a line of valid UTF-8 empty, wherever
/// the cursor is, and Ctrl-U clears the line on screen while Ctrl-L
/// clears the screen.
pub proof fn lemma_clearing_keys_empty_line(
    s: Seq<u8>,
    cap: Option<usize>,
    pos: nat,
    nav: Option<usize>,
    entries: Seq<Seq<u8>>,
)
    requires
        valid_utf8(s),
    ensures
        ({
            let (a, s2, n) = edit(
                Action::ControlCharacter(ControlCharacter::CtrlU),
                s,
                cap,
                pos,
                nav,
                entries,
            );
            a == OutputAction::ClearLine && s2.len() == 0 && n == nav
        }),
        ({
            let (a, s2, n) = edit(
                Action::ControlCharacter(ControlCharacter::CtrlL),
                s,
                cap,
                pos,
                nav,
                entries,
            );
            a == OutputAction::ClearScreen && s2.len() == 0 && n == nav
        }),
{
    crate::line_buffer::lemma_truncated(s);
}

/// Law: Ctrl-T trades the character before the cursor with the one
/// under it: the one that was under the cursor now stands where the
/// other began, the bytes before and after the two are kept, the line
/// holds as many characters as before, and doing it again at the same
/// place gives back the line.
pub proof fn lemma_ctrl_t_trades_chars(
    s: Seq<u8>,
    cap: Option<usize>,
    pos: nat,
    nav: Option<usize>,
    entries: Seq<Seq<u8>>,
)
    requires
        0 < pos < char_count(s),
    ensures
        ({
            let key = Action::ControlCharacter(ControlCharacter::CtrlT);
            let (a, s2, n) = edit(key, s, cap, pos, nav, entries);
            let p = byte_pos(s, (pos - 1) as nat);
            let q = byte_pos(s, pos);
            let r = byte_pos(s, pos + 1);
            &&& a == OutputAction::MoveCursorBackAndPrintBufferAndMoveForward
            &&& n == nav
            &&& s2.len() == s.len()
            &&& char_count(s2) == char_count(s)
            &&& s2.subrange(0, p) == s.subrange(0, p)
            &&& s2.subrange(r, s2.len() as int) == s.subrange(r, s.len() as int)
            &&& s2.subrange(p, p + (r - q)) == s.subrange(q, r)
            &&& edit(key, s2, cap, pos, nav, entries).1 == s
        }),
{
    let p = byte_pos(s, (pos - 1) as nat);
    let q = byte_pos(s, pos);
    let r = byte_pos(s, pos + 1);
    let n = s.len() as int;
    crate::line_buffer::lemma_traded_positions(s, pos);
    let a1 = s.subrange(0, p);
    let c1 = s.subrange(p, q);
    let c2 = s.subrange(q, r);
    let b1 = s.subrange(r, n);
    let s2 = a1 + c2 + c1 + b1;
    assert(chars_swapped(s, pos) == s2);
    assert(s =~= a1 + c1 + c2 + b1);
    crate::line_buffer::lemma_count_concat(a1 + c2, c1);
    crate::line_buffer::lemma_count_concat(a1, c2);
    crate::line_buffer::lemma_count_concat(a1 + c2 + c1, b1);
    crate::line_buffer::lemma_count_concat(a1 + c1, c2);
    crate::line_buffer::lemma_count_concat(a1, c1);
    crate::line_buffer::lemma_count_concat(a1 + c1 + c2, b1);
    assert(s2.subrange(0, p) =~= a1);
    assert(s2.subrange(r, n) =~= b1);
    assert(s2.subrange(p, p + (r - q)) =~= c2);
    assert(s2.subrange(p + (r - q), r) =~= c1);
    assert(chars_swapped(s2, pos) =~= s);
}

/// The output action moves the cursor to text offset `x`, with `p`
/// prompt characters and `l` characters in the line.
pub open spec fn aims_at(a: OutputAction, t: Terminal, p: int, l: int, x: int) -> bool {
    a matches OutputAction::MoveCursor(m) && move_target(m, t, p, l) == x
}

/// Law: the movement keys leave the line and the history position alone
/// and move the cursor: Ctrl-A and Home to the first character of the
/// line, Ctrl-E and End past its last one, Ctrl-F and the right arrow one
/// character on, Ctrl-B and the left arrow one character back. The
/// history keys Ctrl-P and Ctrl-N do what the up and down arrows do,
/// Ctrl-H what Backspace does, and LF what CR does.
pub proof fn lemma_movement_keys(
    s: Seq<u8>,
    cap: Option<usize>,
    pos: nat,
    nav: Option<usize>,
    entries: Seq<Seq<u8>>,
    t: Terminal,
    p: int,
    k: usize,
)
    ensures
        ({
            let l = char_count(s) as int;
            let o = t.spec_current_offset();
            let ctrl = |c: ControlCharacter|
                edit(Action::ControlCharacter(c), s, cap, pos, nav, entries);
            let csi = |c: CSI| edit(Action::ControlSequenceIntroducer(c), s, cap, pos, nav, entries);
            &&& forall|e: (OutputAction, Seq<u8>, Option<usize>)|
                e == ctrl(ControlCharacter::CtrlA) || e == csi(CSI::Home) ==> aims_at(e.0, t, p, l, p)
                    && e.1 == s && e.2 == nav
            &&& forall|e: (OutputAction, Seq<u8>, Option<usize>)|
                e == ctrl(ControlCharacter::CtrlE) || e == csi(CSI::End) ==> aims_at(
                    e.0,
                    t,
                    p,
                    l,
                    p + l,
                ) && e.1 == s && e.2 == nav
            &&& forall|e: (OutputAction, Seq<u8>, Option<usize>)|
                e == ctrl(ControlCharacter::CtrlF) || e == csi(CSI::CUF(k)) ==> aims_at(
                    e.0,
                    t,
                    p,
                    l,
                    o + 1,
                ) && e.1 == s && e.2 == nav
            &&& forall|e: (OutputAction, Seq<u8>, Option<usize>)|
                e == ctrl(ControlCharacter::CtrlB) || e == csi(CSI::CUB(k)) ==> aims_at(
                    e.0,
                    t,
                    p,
                    l,
                    o - 1,
                ) && e.1 == s && e.2 == nav
            &&& ctrl(ControlCharacter::CtrlP) == csi(CSI::CUU(k))
            &&& ctrl(ControlCharacter::CtrlN) == csi(CSI::CUD(k))
            &&& ctrl(ControlCharacter::CtrlH) == ctrl(ControlCharacter::Backspace)
            &&& ctrl(ControlCharacter::LineFeed) == ctrl(ControlCharacter::CarriageReturn)
        }),
{
}

/// Law: Ctrl-W deletes the word before the cursor: the characters from
/// just after the last space before the cursor's previous character (or
/// from the start of the line) up to the cursor. The line keeps what
/// came before them and what follows the cursor, and the cursor moves
/// back over as many characters as were deleted.
pub proof fn lemma_ctrl_w_deletes_word(
    s: Seq<u8>,
    cap: Option<usize>,
    pos: nat,
    nav: Option<usize>,
    entries: Seq<Seq<u8>>,
)
    requires
        0 < pos <= char_count(s),
    ensures
        ({
            let (a, s2, n) = edit(
                Action::ControlCharacter(ControlCharacter::CtrlW),
                s,
                cap,
                pos,
                nav,
                entries,
            );
            exists|first: nat|
                {
                    &&& first < pos
                    &&& (first > 0 ==> crate::line_buffer::is_space_char(s, (first - 1) as nat))
                    &&& forall|j: nat|
                        first <= j < pos - 1 ==> !#[trigger] crate::line_buffer::is_space_char(s, j)
                    &&& s2 == s.subrange(0, crate::line_buffer::boundary(s, first)) + s.subrange(
                        byte_pos(s, pos),
                        s.len() as int,
                    )
                    &&& a == OutputAction::MoveCursorAndEraseAndPrintBuffer((first - pos) as isize)
                    &&& n == nav
                }
        }),
{
    crate::line_buffer::lemma_last_space(s, pos - 1);
    let first = word_start_index(s, pos);
    assert(first < pos);
    assert(word_end_index(s, pos) == pos);
    assert(-(word_end_index(s, pos) - word_start_index(s, pos)) == first - pos);
    assert(word_deleted(s, pos) == s.subrange(0, crate::line_buffer::boundary(s, first)) + s.subrange(
        byte_pos(s, pos),
        s.len() as int,
    ));
    assert forall|j: nat| first <= j < pos - 1 implies !#[trigger] crate::line_buffer::is_space_char(
        s,
        j,
    ) by {}
}

/// Law: typing a character where the cursor is, and then deleting the
/// character before the cursor (which has moved past the new one), gives
/// back the line; the history navigator is left alone.
pub proof fn lemma_type_then_backspace(
    s: Seq<u8>,
    cap: Option<usize>,
    pos: nat,
    nav: Option<usize>,
    entries: Seq<Seq<u8>>,
    c: Utf8Char,
)
    requires
        pos <= char_count(s),
        fits(cap, s.len(), c@.len()),
        c@.len() >= 1,
        !is_cont(c@[0]),
        forall|x: int| 1 <= x < c@.len() ==> is_cont(#[trigger] c@[x]),
    ensures
        ({
            let (a1, s1, n1) = edit(Action::Print(c), s, cap, pos, nav, entries);
            &&& a1 == OutputAction::PrintBufferAndMoveCursorForward
            &&& n1 == nav
            &&& edit(
                Action::ControlCharacter(ControlCharacter::Backspace),
                s1,
                cap,
                pos + 1,
                n1,
                entries,
            ) == (OutputAction::MoveCursorAndEraseAndPrintBuffer(-1isize), s, nav)
        }),
{
    lemma_insert_then_delete(s, pos, c@);
    let p = byte_pos(s, pos);
    let t = s.subrange(0, p) + c@ + s.subrange(p, s.len() as int);
    assert(t == inserted(s, p, c@));
    crate::line_buffer::lemma_pos_from_bounds(s, 0, pos);
    assert(byte_pos(t, pos) == p);
    assert(byte_pos(t, pos + 1) == p + c@.len());
    assert(p < t.len());
    assert(char_deleted(t, pos) == removed(t, p, p + c@.len()));
    assert(removed(t, p, p + c@.len()) =~= s);
}

/// Law: on a line of valid UTF-8, moving up in the history and then
/// back down brings the navigator back to where it was, and the line
/// shows that entry again (entries being valid UTF-8).
pub proof fn lemma_history_up_then_down(
    s: Seq<u8>,
    cap: Option<usize>,
    pos: nat,
    pos2: nat,
    p: usize,
    entries: Seq<Seq<u8>>,
)
    requires
        0 < p < entries.len(),
        valid_utf8(s),
        valid_utf8(entries[p - 1]),
        valid_utf8(entries[p as int]),
    ensures
        ({
            let (a1, s1, n1) = edit(
                Action::ControlCharacter(ControlCharacter::CtrlP),
                s,
                cap,
                pos,
                Some(p),
                entries,
            );
            let (a2, s2, n2) = edit(
                Action::ControlCharacter(ControlCharacter::CtrlN),
                s1,
                cap,
                pos2,
                n1,
                entries,
            );
            &&& n1 == Some((p - 1) as usize)
            &&& s1 == entries[p - 1]
            &&& n2 == Some(p)
            &&& s2 == entries[p as int]
            &&& a1 == OutputAction::ClearAndPrintBuffer
            &&& a2 == OutputAction::ClearAndPrintBuffer
        }),
{
    lemma_valid_emptied(s);
    lemma_valid_emptied(entries[p - 1]);
    assert(loaded(s, entries[p - 1]) =~= entries[p - 1]);
    assert(loaded(entries[p - 1], entries[p as int]) =~= entries[p as int]);
}

/// A line of valid UTF-8 has nothing left once emptied.
proof fn lemma_valid_emptied(s: Seq<u8>)
    requires
        valid_utf8(s),
    ensures
        emptied(s) == Seq::<u8>::empty(),
{
    if s.len() > 0 {
        vstd::utf8::is_char_boundary_start_end_of_seq(s);
        vstd::utf8::is_char_boundary_iff_not_is_continuation_byte(s, 0);
        assert(byte_pos(s, 0) == 0);
    }
    assert(emptied(s) =~= Seq::<u8>::empty());
}

/// Reading one line: the buffer being edited, the terminal it is shown
/// on, the input parser, the prompt and the history.
pub struct Line<'a, B: Buffer, H: History> {
    /// The line being edited, lent for as long as the line is read.
    pub buffer: &'a mut LineBuffer<B>,
    /// The terminal the line is shown on.
    pub terminal: &'a mut Terminal,
    pub parser: Parser,
    pub prompt: Prompt<'a>,
    /// The history, and where in it the line was taken from.
    pub nav: HistoryNavigator<'a, H>,
}

impl<'a, B: Buffer, H: History> Line<'a, B, H> {
    pub open spec fn line_buffer(&self) -> LineBuffer<B> {
        *self.buffer
    }

    pub open spec fn terminal(&self) -> Terminal {
        *self.terminal
    }

    pub open spec fn parser(&self) -> Parser {
        self.parser
    }

    pub open spec fn prompt(&self) -> Seq<Seq<u8>> {
        self.prompt@
    }

    pub open spec fn navigator(&self) -> HistoryNavigator<'a, H> {
        self.nav
    }

    pub closed spec fn wf(&self) -> bool {
        &&& self.buffer.wf()
        &&& self.parser.wf()
        &&& self.prompt.wf()
        &&& self.nav.hist().wf()
    }

    /// The cursor's character position in the line.
    pub open spec fn spec_position(&self) -> int {
        self.terminal().spec_current_offset() - total_len(self.prompt())
    }

    pub fn new(
        prompt: Prompt<'a>,
        buffer: &'a mut LineBuffer<B>,
        terminal: &'a mut Terminal,
        history: &'a mut H,
    ) -> (l: Self)
        requires
            prompt.wf(),
            old(buffer).wf(),
            old(history).wf(),
        ensures
            l.wf(),
            l.line_buffer() == *old(buffer),
            l.terminal() == *old(terminal),
            l.parser().spec_state() == crate::input::State::Ground,
            l.prompt() == prompt@,
            l.navigator().hist() == *old(history),
            l.navigator().position() == None::<usize>,
            *final(buffer) == *final(l.buffer),
            *final(terminal) == *final(l.terminal),
            *final(history) == *final(l.nav.history),
    {
        Self { buffer, terminal, parser: Parser::new(), prompt, nav: HistoryNavigator::new(history) }
    }

    pub(super) fn generate_output(&mut self, action: OutputAction) -> (o: Output<'_, B>)
        requires
            old(self).wf(),
        ensures
            *final(final(self).buffer) == *final(old(self).buffer),
            *final(final(self).terminal) == *final(old(self).terminal),
            *final(final(self).nav.history) == *final(old(self).nav.history),
            o.wf(),
            o.spec_action() == action,
            o.spec_prompt() == old(self).prompt(),
            o.spec_buffer() == old(self).line_buffer()@,
            o.spec_terminal() == old(self).terminal(),
            final(self).terminal() == *final(o.terminal),
            final(self).wf(),
            final(self).line_buffer() == old(self).line_buffer(),
            final(self).parser() == old(self).parser(),
            final(self).prompt() == old(self).prompt(),
            final(self).navigator() == old(self).navigator(),
    {
        Output::new(&self.prompt, &*self.buffer, &mut *self.terminal, action)
    }

    /// Takes one input byte into the parser.
    pub(super) fn advance_parser(&mut self, byte: u8) -> (a: Action)
        requires
            old(self).wf(),
            !step_overflows(old(self).parser().spec_state(), byte),
        ensures
            *final(final(self).buffer) == *final(old(self).buffer),
            *final(final(self).terminal) == *final(old(self).terminal),
            *final(final(self).nav.history) == *final(old(self).nav.history),
            final(self).wf(),
            (final(self).parser().spec_state(), a) == parser_step(old(self).parser().spec_state(), byte),
            final(self).line_buffer() == old(self).line_buffer(),
            final(self).terminal() == old(self).terminal(),
            final(self).prompt() == old(self).prompt(),
            final(self).navigator() == old(self).navigator(),
    {
        self.parser.advance(byte)
    }

    /// Sets the terminal's size.
    pub(super) fn resize_terminal(&mut self, rows: usize, columns: usize)
        requires
            old(self).wf(),
        ensures
            *final(final(self).buffer) == *final(old(self).buffer),
            *final(final(self).terminal) == *final(old(self).terminal),
            *final(final(self).nav.history) == *final(old(self).nav.history),
            final(self).wf(),
            final(self).terminal().rows() == rows,
            final(self).terminal().columns() == columns,
            final(self).terminal().cursor() == old(self).terminal().cursor(),
            final(self).terminal().row_offset() == old(self).terminal().row_offset(),
            final(self).line_buffer() == old(self).line_buffer(),
            final(self).parser() == old(self).parser(),
            final(self).prompt() == old(self).prompt(),
            final(self).navigator() == old(self).navigator(),
    {
        self.terminal.resize(rows, columns);
    }

    /// Puts the terminal's cursor at `cursor`, where the text starts.
    pub(super) fn reset_terminal(&mut self, cursor: Cursor)
        requires
            old(self).wf(),
            cursor.row <= isize::MAX,
        ensures
            *final(final(self).buffer) == *final(old(self).buffer),
            *final(final(self).terminal) == *final(old(self).terminal),
            *final(final(self).nav.history) == *final(old(self).nav.history),
            final(self).wf(),
            final(self).terminal() == old(self).terminal().spec_reset(cursor),
            final(self).line_buffer() == old(self).line_buffer(),
            final(self).parser() == old(self).parser(),
            final(self).prompt() == old(self).prompt(),
            final(self).navigator() == old(self).navigator(),
    {
        self.terminal.reset(cursor);
    }

    /// The cursor's character position in the line.
    fn current_position(&self) -> (pos: usize)
        requires
            self.wf(),
            offset_ok(self.terminal()),
            self.spec_position() >= 0,
        ensures
            pos == self.spec_position(),
    {
        let pos = self.terminal.current_offset() as usize;
        pos - self.prompt.len()
    }

}

/// Replaces the line in `buffer` by `entry`.
fn load_entry<B: Buffer>(buffer: &mut LineBuffer<B>, entry: &CircularSlice<'_>)
    requires
        old(buffer).wf(),
        entry.wf(),
        fits(old(buffer).spec_capacity(), emptied(old(buffer)@).len(), entry@.len()),
        emptied(old(buffer)@).len() + entry@.len() <= usize::MAX,
    ensures
        final(buffer).wf(),
        final(buffer)@ == loaded(old(buffer)@, entry@),
        final(buffer).spec_capacity() == old(buffer).spec_capacity(),
{
    let (slice1, slice2) = entry.get_slices();
    let ghost s = buffer@;
    buffer.truncate();
    let _ = buffer.insert_bytes(0, slice1);
    let _ = buffer.insert_bytes(slice1.len(), slice2);
    proof {
        assert(buffer@ =~= loaded(s, entry@));
    }
}

/// The action moves up in the history.
pub open spec fn is_history_up(a: Action) -> bool {
    a == Action::ControlCharacter(ControlCharacter::CtrlP) || a matches Action::ControlSequenceIntroducer(CSI::CUU(_))
}

/// The action moves down in the history.
pub open spec fn is_history_down(a: Action) -> bool {
    a == Action::ControlCharacter(ControlCharacter::CtrlN) || a matches Action::ControlSequenceIntroducer(CSI::CUD(_))
}

/// A history entry `e` can replace the line `s` in a buffer of capacity
/// `cap`.
pub open spec fn entry_fits(s: Seq<u8>, cap: Option<usize>, e: Seq<u8>) -> bool {
    fits(cap, emptied(s).len(), e.len()) && emptied(s).len() + e.len() <= usize::MAX
}

impl<'a, B: Buffer, H: History> Line<'a, B, H> {
    /// The line editor can take `byte` without overflow or failure: the
    /// numbers involved fit, a cursor position report is one-based, and a
    /// history entry to be shown fits the buffer.
    pub open spec fn advance_ok(&self, byte: u8) -> bool {
        let a = parser_step(self.parser().spec_state(), byte).1;
        let s = self.line_buffer()@;
        let cap = self.line_buffer().spec_capacity();
        let nav = self.navigator();
        let entries = nav.hist().entries();
        &&& self.wf()
        &&& !step_overflows(self.parser().spec_state(), byte)
        &&& uses_position(a, s.len()) ==> offset_ok(self.terminal()) && self.spec_position() >= 0
        &&& a is Print ==> s.len() + 4 <= usize::MAX
        &&& a == Action::ControlCharacter(ControlCharacter::CtrlW) ==> char_count(s) <= isize::MAX
        &&& (a matches Action::ControlSequenceIntroducer(CSI::CPR(r, c)) ==> 1 <= r && 1 <= c && r
            - 1 <= isize::MAX)
        &&& is_history_up(a) ==> (up_result(nav.position(), entries, s.len()).0 matches Some(e)
            ==> entry_fits(s, cap, e))
        &&& is_history_down(a) ==> (nav.position() matches Some(p) ==> p < usize::MAX && (p + 1
            < entries.len() ==> entry_fits(s, cap, entries[p + 1])))
    }

    fn history_move_up(&mut self) -> (o: Output<'_, B>)
        requires
            old(self).wf(),
            up_result(
                old(self).navigator().position(),
                old(self).navigator().hist().entries(),
                old(self).line_buffer()@.len(),
            ).0 matches Some(e) ==> entry_fits(
                old(self).line_buffer()@,
                old(self).line_buffer().spec_capacity(),
                e,
            ),
        ensures
            *final(final(self).buffer) == *final(old(self).buffer),
            *final(final(self).terminal) == *final(old(self).terminal),
            *final(final(self).nav.history) == *final(old(self).nav.history),
            final(self).wf(),
            final(self).parser() == old(self).parser(),
            final(self).prompt() == old(self).prompt(),
            final(self).line_buffer().spec_capacity() == old(self).line_buffer().spec_capacity(),
            final(self).navigator().hist() == old(self).navigator().hist(),
            ({
                let (entry, nav) = up_result(
                    old(self).navigator().position(),
                    old(self).navigator().hist().entries(),
                    old(self).line_buffer()@.len(),
                );
                let s = old(self).line_buffer()@;
                &&& final(self).navigator().position() == nav
                &&& match entry {
                    Some(e) => final(self).line_buffer()@ == loaded(s, e) && o.spec_action()
                        == OutputAction::ClearAndPrintBuffer,
                    None => final(self).line_buffer()@ == s && o.spec_action()
                        == OutputAction::RingBell,
                }
            }),
            o.spec_buffer() == final(self).line_buffer()@,
            o.spec_prompt() == old(self).prompt(),
            o.spec_terminal() == old(self).terminal(),
            final(self).terminal() == *final(o.terminal),
    {
        let entry = if self.nav.is_active() {
            self.nav.move_up()
        } else if self.buffer.len() == 0 {
            self.nav.reset();
            self.nav.move_up()
        } else {
            Err(())
        };
        match entry {
            Ok(entry) => {
                load_entry(self.buffer, &entry);
                self.generate_output(OutputAction::ClearAndPrintBuffer)
            },
            Err(()) => self.generate_output(OutputAction::RingBell),
        }
    }

    fn history_move_down(&mut self) -> (o: Output<'_, B>)
        requires
            old(self).wf(),
            old(self).navigator().position() matches Some(p) ==> p < usize::MAX && (p + 1
                < old(self).navigator().hist().entries().len() ==> entry_fits(
                old(self).line_buffer()@,
                old(self).line_buffer().spec_capacity(),
                old(self).navigator().hist().entries()[p + 1],
            )),
        ensures
            *final(final(self).buffer) == *final(old(self).buffer),
            *final(final(self).terminal) == *final(old(self).terminal),
            *final(final(self).nav.history) == *final(old(self).nav.history),
            final(self).wf(),
            final(self).parser() == old(self).parser(),
            final(self).prompt() == old(self).prompt(),
            final(self).line_buffer().spec_capacity() == old(self).line_buffer().spec_capacity(),
            final(self).navigator().hist() == old(self).navigator().hist(),
            ({
                let s = old(self).line_buffer()@;
                let entries = old(self).navigator().hist().entries();
                match old(self).navigator().position() {
                    None => {
                        &&& final(self).navigator().position() == None::<usize>
                        &&& final(self).line_buffer()@ == s
                        &&& o.spec_action() == OutputAction::RingBell
                    },
                    Some(p) => {
                        &&& o.spec_action() == OutputAction::ClearAndPrintBuffer
                        &&& p + 1 < entries.len() ==> final(self).navigator().position() == Some(
                            (p + 1) as usize,
                        ) && final(self).line_buffer()@ == loaded(s, entries[p + 1])
                        &&& p + 1 >= entries.len() ==> final(self).navigator().position()
                            == None::<usize> && final(self).line_buffer()@ == emptied(s)
                    },
                }
            }),
            o.spec_buffer() == final(self).line_buffer()@,
            o.spec_prompt() == old(self).prompt(),
            o.spec_terminal() == old(self).terminal(),
            final(self).terminal() == *final(o.terminal),
    {
        let entry = if self.nav.is_active() {
            self.nav.move_down()
        } else {
            return self.generate_output(OutputAction::RingBell);
        };
        match entry {
            Ok(entry) => {
                load_entry(self.buffer, &entry);
            },
            Err(()) => {
                self.nav.reset();
                self.buffer.truncate();
            },
        }
        self.generate_output(OutputAction::ClearAndPrintBuffer)
    }
}

impl<'a, B: Buffer, H: History> Line<'a, B, H> {
    /// Empties the line and starts bringing the terminal into a known
    /// state.
    pub fn reset(&mut self) -> (h: ResetHandle<'_, 'a, B, H>)
        requires
            old(self).wf(),
        ensures
            *final(h.line.buffer) == *final(old(self).buffer),
            *final(h.line.terminal) == *final(old(self).terminal),
            *final(h.line.nav.history) == *final(old(self).nav.history),
            h.state() == ResetState::New,
            h.line().wf(),
            h.line().line_buffer()@ == emptied(old(self).line_buffer()@),
            h.line().line_buffer().spec_capacity() == old(self).line_buffer().spec_capacity(),
            h.line().terminal() == old(self).terminal(),
            h.line().prompt() == old(self).prompt(),
            h.line().parser() == old(self).parser(),
            h.line().navigator() == old(self).navigator(),
            *final(self) == *final(h.line),
    {
        self.buffer.truncate();
        ResetHandle::new(self)
    }
}

impl<'a, B: Buffer, H: History> Line<'a, B, H> {
    /// Adds the line to the history, when it is valid UTF-8.
    fn add_line_to_history(&mut self)
        requires
            old(self).wf(),
        ensures
            *final(final(self).buffer) == *final(old(self).buffer),
            *final(final(self).terminal) == *final(old(self).terminal),
            *final(final(self).nav.history) == *final(old(self).nav.history),
            final(self).wf(),
            final(self).line_buffer() == old(self).line_buffer(),
            final(self).terminal() == old(self).terminal(),
            final(self).parser() == old(self).parser(),
            final(self).prompt() == old(self).prompt(),
            final(self).navigator().position() == old(self).navigator().position(),
            !valid_utf8(old(self).line_buffer()@) ==> final(self).navigator().hist() == old(
                self,
            ).navigator().hist(),
            valid_utf8(old(self).line_buffer()@) ==> final(self).navigator().hist().model() == match H::model_add(
                old(self).navigator().hist().model(),
                old(self).line_buffer()@,
            ) {
                Some(m) => m,
                None => old(self).navigator().hist().model(),
            },
    {
        if let Some(line) = str_from_utf8(self.buffer.as_slice()) {
            let _ = self.nav.add_entry(line);
        }
    }
}

impl<'a, B: Buffer, H: History> Line<'a, B, H> {
    /// Takes one input byte: edits the line and returns the output that
    /// shows the change.
    pub fn advance(&mut self, byte: u8) -> (o: Output<'_, B>)
        requires
            old(self).advance_ok(byte),
        ensures
            *final(final(self).buffer) == *final(old(self).buffer),
            *final(final(self).terminal) == *final(old(self).terminal),
            *final(final(self).nav.history) == *final(old(self).nav.history),
            final(self).wf(),
            ({
                let (state, a) = parser_step(old(self).parser().spec_state(), byte);
                let s = old(self).line_buffer()@;
                let (action, s2, nav2) = edit(
                    a,
                    s,
                    old(self).line_buffer().spec_capacity(),
                    old(self).spec_position() as nat,
                    old(self).navigator().position(),
                    old(self).navigator().hist().entries(),
                );
                &&& final(self).parser().spec_state() == state
                &&& o.spec_action() == action
                &&& final(self).line_buffer()@ == s2
                &&& o.spec_buffer() == s2
                &&& (a != Action::ControlCharacter(ControlCharacter::CarriageReturn) && a
                    != Action::ControlCharacter(ControlCharacter::LineFeed)) ==> final(self).navigator().hist()
                    == old(self).navigator().hist()
                &&& s.len() == 0 ==> final(self).navigator().hist() == old(self).navigator().hist()
                &&& (a == Action::ControlCharacter(ControlCharacter::CarriageReturn) || a
                    == Action::ControlCharacter(ControlCharacter::LineFeed)) && s.len() > 0 ==> {
                    &&& !valid_utf8(s) ==> final(self).navigator().hist() == old(
                        self,
                    ).navigator().hist()
                    &&& valid_utf8(s) ==> final(self).navigator().hist().model() == match H::model_add(
                        old(self).navigator().hist().model(),
                        s,
                    ) {
                        Some(m) => m,
                        None => old(self).navigator().hist().model(),
                    }
                }
                &&& o.spec_terminal() == match a {
                    Action::ControlSequenceIntroducer(CSI::CPR(r, c)) => old(self).terminal().spec_reset(
                        Cursor { row: (r - 1) as usize, column: (c - 1) as usize },
                    ),
                    _ => old(self).terminal(),
                }
            }),
            final(self).navigator().position() == edit(
                parser_step(old(self).parser().spec_state(), byte).1,
                old(self).line_buffer()@,
                old(self).line_buffer().spec_capacity(),
                old(self).spec_position() as nat,
                old(self).navigator().position(),
                old(self).navigator().hist().entries(),
            ).2,
            final(self).line_buffer().spec_capacity() == old(self).line_buffer().spec_capacity(),
            final(self).prompt() == old(self).prompt(),
            o.spec_prompt() == old(self).prompt(),
            final(self).terminal() == *final(o.terminal),
    {
        let action = self.parser.advance(byte);
        match action {
            Action::Print(c) => {
                let pos = self.current_position();
                let inserted = self.buffer.insert_utf8_char(pos, c);
                if inserted.is_ok() {
                    self.generate_output(OutputAction::PrintBufferAndMoveCursorForward)
                } else {
                    self.generate_output(OutputAction::RingBell)
                }
            },
            Action::ControlCharacter(c) => match c {
                ControlCharacter::CtrlA => self.generate_output(
                    OutputAction::MoveCursor(CursorMove::Start),
                ),
                ControlCharacter::CtrlB => self.generate_output(
                    OutputAction::MoveCursor(CursorMove::Back),
                ),
                ControlCharacter::CtrlC => self.generate_output(OutputAction::Abort),
                ControlCharacter::CtrlD => {
                    let len = self.buffer.len();
                    if len > 0 {
                        let pos = self.current_position();
                        if pos < len {
                            self.buffer.delete(pos);
                            self.generate_output(OutputAction::EraseAndPrintBuffer)
                        } else {
                            self.generate_output(OutputAction::RingBell)
                        }
                    } else {
                        self.generate_output(OutputAction::Abort)
                    }
                },
                ControlCharacter::CtrlE => self.generate_output(
                    OutputAction::MoveCursor(CursorMove::End),
                ),
                ControlCharacter::CtrlF => self.generate_output(
                    OutputAction::MoveCursor(CursorMove::Forward),
                ),
                ControlCharacter::CtrlK => {
                    let pos = self.current_position();
                    self.buffer.delete_after_char(pos);
                    self.generate_output(OutputAction::EraseAfterCursor)
                },
                ControlCharacter::CtrlL => {
                    self.buffer.delete_after_char(0);
                    self.generate_output(OutputAction::ClearScreen)
                },
                ControlCharacter::CtrlN => self.history_move_down(),
                ControlCharacter::CtrlP => self.history_move_up(),
                ControlCharacter::CtrlT => {
                    let pos = self.current_position();
                    if pos > 0 && pos < count_chars(self.buffer.as_slice()) {
                        self.buffer.swap_chars(pos);
                        self.generate_output(
                            OutputAction::MoveCursorBackAndPrintBufferAndMoveForward,
                        )
                    } else {
                        self.generate_output(OutputAction::RingBell)
                    }
                },
                ControlCharacter::CtrlU => {
                    self.buffer.delete_after_char(0);
                    self.generate_output(OutputAction::ClearLine)
                },
                ControlCharacter::CtrlW => {
                    let pos = self.current_position();
                    let deleted = self.buffer.delete_previous_word(pos);
                    proof {
                        crate::line_buffer::lemma_count_from_bound(old(self).line_buffer()@, 0);
                    }
                    let move_cursor = -(deleted as isize);
                    self.generate_output(OutputAction::MoveCursorAndEraseAndPrintBuffer(move_cursor))
                },
                ControlCharacter::CarriageReturn | ControlCharacter::LineFeed => {
                    if self.buffer.len() > 0 {
                        self.add_line_to_history();
                    }
                    self.generate_output(OutputAction::Done)
                },
                ControlCharacter::CtrlH | ControlCharacter::Backspace => {
                    let pos = self.current_position();
                    if pos > 0 {
                        self.buffer.delete(pos - 1);
                        self.generate_output(OutputAction::MoveCursorAndEraseAndPrintBuffer(-1))
                    } else {
                        self.generate_output(OutputAction::RingBell)
                    }
                },
                _ => self.generate_output(OutputAction::RingBell),
            },
            Action::ControlSequenceIntroducer(csi) => match csi {
                CSI::CUF(_) => self.generate_output(OutputAction::MoveCursor(CursorMove::Forward)),
                CSI::CUB(_) => self.generate_output(OutputAction::MoveCursor(CursorMove::Back)),
                CSI::Home => self.generate_output(OutputAction::MoveCursor(CursorMove::Start)),
                CSI::Delete => {
                    let len = self.buffer.len();
                    let pos = self.current_position();
                    if pos < len {
                        self.buffer.delete(pos);
                        self.generate_output(OutputAction::EraseAndPrintBuffer)
                    } else {
                        self.generate_output(OutputAction::RingBell)
                    }
                },
                CSI::End => self.generate_output(OutputAction::MoveCursor(CursorMove::End)),
                CSI::CPR(row, column) => {
                    let cursor = Cursor::new(row - 1, column - 1);
                    self.terminal.reset(cursor);
                    self.generate_output(OutputAction::Nothing)
                },
                CSI::CUU(_) => self.history_move_up(),
                CSI::CUD(_) => self.history_move_down(),
                _ => self.generate_output(OutputAction::RingBell),
            },
            Action::EscapeSequence(_) => self.generate_output(OutputAction::RingBell),
            Action::Ignore => self.generate_output(OutputAction::Nothing),
            Action::InvalidUtf8 => self.generate_output(OutputAction::RingBell),
        }
    }
}

} // verus!
