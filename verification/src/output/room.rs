use vstd::prelude::*;

use super::move_cursor::{abs, move_cursor_fits, move_cursor_items};
use super::move_cursor_pos::move_ok;
use super::output::{
    move_target, output_ok, output_steps, output_terminal, print_parts, print_text, text_after,
    CursorMove, OutputAction,
};
use super::output_iter::{bytes_step, lemma_run_cons, run_ok, step_runs};
use super::printable::{lemma_printable_chunk, printable_next, PrintableView};
use super::step::{columns_left, newline_ok, next_line_start, position_after, step_next, StepView};
use super::uint_to_bytes::pow10;
use crate::editor::total_len;
use crate::line_buffer::{
    byte_pos, char_count, lemma_count_from_bound, lemma_pos_from_bounds, lemma_pos_from_count,
    lemma_split_at_char,
};
use crate::terminal::{
    fits_isize, lemma_moved_position, lemma_offset_position_roundtrip,
    lemma_position_offset_roundtrip, Cursor, Position, Terminal,
};

verus! {

/// Room for an output run: the screen has fewer than 10000 rows and
/// columns (so that every cursor move is written with numbers of at most
/// four digits), the cursor is on screen, on a character of its row and
/// at or after the start of the text, no further than `e` characters into
/// the text; and `e` characters fill fewer than 10000 rows.
pub open spec fn room(t: Terminal, e: int) -> bool {
    &&& 1 <= t.rows() < 10000
    &&& 1 <= t.columns() < 10000
    &&& t.cursor().row < t.rows()
    &&& t.cursor().column < t.columns()
    &&& 0 <= t.cursor().row + t.row_offset()
    &&& t.spec_current_offset() <= e
    &&& e < 10000 * t.columns()
}

proof fn lemma_small_numbers()
    ensures
        pow10(4) == 10000,
        isize::MAX >= 0x7fff_ffff,
        isize::MIN <= -0x8000_0000,
        usize::MAX >= 0xffff_ffff,
        usize::MAX - isize::MAX > isize::MAX,
{
    reveal_with_fuel(pow10, 5);
}

/// A text row within `e` characters is one of the first 10000.
proof fn lemma_row_bound(row: int, column: int, c: int, e: int)
    requires
        row >= 0,
        column >= 0,
        c >= 1,
        row * c + column <= e,
        e < 10000 * c,
    ensures
        row < 10000,
{
    assert(row < 10000) by (nonlinear_arith)
        requires
            row >= 0,
            column >= 0,
            c >= 1,
            row * c + column <= e,
            e < 10000 * c,
    ;
}

/// With room, the cursor can be moved to any position of a row within
/// `e` characters of the text, and there is room afterwards.
pub proof fn lemma_move_room(t: Terminal, p: Position, e: int)
    requires
        room(t, e),
        p.column < t.columns(),
        t.spec_offset(p) <= e,
    ensures
        move_ok(t, p),
        room(t.spec_moved(p), e),
        t.spec_moved(p).spec_current_position() == p,
        t.spec_moved(p).spec_current_offset() == t.spec_offset(p),
        t.spec_moved(p).rows() == t.rows(),
        t.spec_moved(p).columns() == t.columns(),
{
    lemma_small_numbers();
    let c = t.columns() as int;
    let r0 = t.cursor().row + t.row_offset();
    t.lemma_row_offset_fits();
    assert(t.spec_current_position().row == r0);
    lemma_row_bound(p.row as int, p.column as int, c, e);
    lemma_row_bound(r0, t.cursor().column as int, c, e);
    let scroll = t.spec_scrolling_needed(p.row as int);
    assert(-10000 < scroll < 10000);
    t.lemma_spec_terminals(p);
    lemma_moved_position(t, p);
    let t2 = t.spec_moved(p);
    assert(move_cursor_fits(t2.cursor(), scroll));
}

/// A step that hands out one item and leaves the terminal as `t2`.
proof fn lemma_single_runs(v: StepView, t: Terminal, t2: Terminal)
    requires
        ({
            let (v2, t1, item) = step_next(v, t);
            &&& super::step::step_ok(v, t)
            &&& v2 == StepView::Done
            &&& t1 == t2
            &&& item is Some
        }),
    ensures
        step_runs(v, t, 1, t2),
{
    assert(step_runs(StepView::Done, t2, 0, t2));
}

/// Handing out the rest of a cursor move takes one item each.
pub proof fn lemma_moving_runs(items: Seq<Seq<u8>>, t: Terminal)
    ensures
        step_runs(StepView::Moving(items), t, items.len(), t),
    decreases items.len(),
{
    if items.len() > 0 {
        lemma_moving_runs(items.drop_first(), t);
    }
}

/// Moving the cursor to a position hands out the move's items.
pub proof fn lemma_move_to_runs(t: Terminal, p: Position)
    requires
        move_ok(t, p),
    ensures
        step_runs(
            StepView::MoveTo(p),
            t,
            move_cursor_items(t.spec_moved(p).cursor(), t.spec_scrolling_needed(p.row as int)).len(),
            t.spec_moved(p),
        ),
{
    let items = move_cursor_items(t.spec_moved(p).cursor(), t.spec_scrolling_needed(p.row as int));
    lemma_moving_runs(items.drop_first(), t.spec_moved(p));
}

/// With room, a line break moves the cursor to the start of the next
/// row, and there is room afterwards when that row is within `e`
/// characters.
pub proof fn lemma_newline_room(t: Terminal, e: int)
    requires
        room(t, e),
        t.spec_current_offset() + t.columns() <= e,
    ensures
        newline_ok(t),
        step_runs(StepView::Newline, t, 1, t.spec_moved(next_line_start(t))),
        room(t.spec_moved(next_line_start(t)), e),
{
    lemma_small_numbers();
    let p = next_line_start(t);
    let c = t.columns() as int;
    let r0 = t.cursor().row + t.row_offset();
    t.lemma_row_offset_fits();
    assert(t.spec_current_position().row == r0);
    lemma_row_bound(r0, t.cursor().column as int, c, e);
    assert(t.spec_offset(p) == (r0 + 1) * c) by (nonlinear_arith)
        requires
            t.spec_offset(p) == p.row * c + p.column,
            p.row == r0 + 1,
            p.column == 0,
    ;
    assert((r0 + 1) * c <= r0 * c + t.cursor().column + c) by (nonlinear_arith)
        requires
            t.cursor().column >= 0,
    ;
    lemma_move_room(t, p, e);
    lemma_single_runs(StepView::Newline, t, t.spec_moved(p));
}

/// Law: a Forward cursor move aims one character further into the text
/// and a Back move one character nearer its start, so the two aim at
/// different places; and a Back move from where a Forward move went
/// aims back where the cursor was.
pub proof fn lemma_forward_then_back(t: Terminal, p: int, l: int, e: int)
    requires
        room(t, e),
        t.spec_current_offset() + 1 <= e,
    ensures
        move_target(CursorMove::Forward, t, p, l) == t.spec_current_offset() + 1,
        move_target(CursorMove::Back, t, p, l) == t.spec_current_offset() - 1,
        ({
            let x = move_target(CursorMove::Forward, t, p, l);
            let t2 = t.spec_moved(t.spec_position_from_offset(x));
            &&& t2.spec_current_offset() == x
            &&& move_target(CursorMove::Back, t2, p, l) == t.spec_current_offset()
        }),
{
    lemma_room_offset(t, e);
    lemma_move_to_offset(t, t.spec_current_offset() + 1, e);
}

/// Law: a Start move aims at the first character of the line, right
/// after the `p` prompt characters, and an End move just past its last
/// one, as many characters further as the line holds; neither depends
/// on where the cursor is.
pub proof fn lemma_start_end_targets(t: Terminal, t2: Terminal, p: int, l: int)
    ensures
        move_target(CursorMove::Start, t, p, l) == p,
        move_target(CursorMove::End, t, p, l) - move_target(CursorMove::Start, t, p, l) == l,
        move_target(CursorMove::Start, t2, p, l) == move_target(CursorMove::Start, t, p, l),
        move_target(CursorMove::End, t2, p, l) == move_target(CursorMove::End, t, p, l),
{
}

/// Characters in the parts of a text.
pub open spec fn parts_chars(parts: Seq<Seq<u8>>) -> nat
    decreases parts.len(),
{
    if parts.len() == 0 {
        0
    } else {
        char_count(parts[0]) + parts_chars(parts.drop_first())
    }
}

/// Characters still to be printed.
pub open spec fn print_chars(v: PrintableView) -> nat {
    char_count(v.text) + parts_chars(v.parts)
}

/// Decreases with every item printing hands out.
pub open spec fn print_measure(v: PrintableView) -> nat {
    3 * (print_chars(v) + (if v.text.len() > 0 {
        1nat
    } else {
        0nat
    }) + v.parts.len()) + if v.newline {
        1nat
    } else {
        0nat
    }
}

/// Everything printing `v` has still to print: its current piece, then
/// its other pieces.
pub open spec fn printable_rest(v: PrintableView) -> Seq<u8> {
    v.text + v.parts.flatten()
}

/// The bytes that printing `v` hands out, with room for `m` characters on
/// every row, piece by piece until nothing is left; `None` when that
/// takes more than `fuel` items.
pub open spec fn printed(v: PrintableView, m: nat, fuel: nat) -> Option<Seq<u8>>
    decreases fuel,
{
    let (v2, item) = printable_next(v, m);
    match item {
        None => Some(Seq::empty()),
        Some(piece) => if fuel == 0 {
            None
        } else {
            match printed(v2, m, (fuel - 1) as nat) {
                None => None,
                Some(r) => Some(
                    match piece {
                        Some(s) => s + r,
                        None => r,
                    },
                ),
            }
        },
    }
}

/// Law: printing with room for at least one character on every row comes
/// to an end, and the pieces it hands out, put together, are exactly the
/// text it had to print; once nothing is left, asking again changes
/// nothing and hands out nothing.
pub proof fn lemma_printable_run(v: PrintableView, m: nat, fuel: nat)
    requires
        m >= 1,
        fuel >= print_measure(v),
    ensures
        printed(v, m, fuel) == Some(printable_rest(v)),
        printable_next(v, m).1 is None ==> printable_next(v, m).0 == v,
    decreases print_measure(v),
{
    let (v2, item) = printable_next(v, m);
    if v.newline {
        lemma_printable_run(v2, m, (fuel - 1) as nat);
    } else if v.text.len() == 0 && v.parts.len() == 0 {
        assert(printable_rest(v) =~= Seq::<u8>::empty());
    } else {
        lemma_printable_chunk(v, m);
        let s = if v.text.len() == 0 {
            v.parts[0]
        } else {
            v.text
        };
        let k = if m < char_count(s) {
            m
        } else {
            char_count(s)
        };
        lemma_pos_from_bounds(s, 0, k);
        lemma_pos_from_count(s, 0, k);
        let chunk = s.subrange(0, byte_pos(s, k));
        assert(item == Some(Some(chunk)));
        assert(print_chars(v) == char_count(chunk) + print_chars(v2));
        assert(print_measure(v2) < print_measure(v));
        lemma_printable_run(v2, m, (fuel - 1) as nat);
        if v.text.len() == 0 {
            assert(v.text =~= Seq::<u8>::empty());
            assert(printable_rest(v) =~= chunk + printable_rest(v2));
        } else {
            assert(printable_rest(v) =~= chunk + printable_rest(v2));
        }
    }
}

/// With room, printing text moves the cursor on by as many characters
/// as the text holds, and leaves room afterwards.
pub proof fn lemma_print_runs(v: PrintableView, t: Terminal, e: int)
    requires
        room(t, e),
        t.spec_current_offset() + print_chars(v) <= e,
    ensures
        exists|n: nat, t2: Terminal|
            {
                &&& step_runs(StepView::Print(v), t, n, t2)
                &&& room(t2, e)
                &&& t2.columns() == t.columns()
                &&& t2.spec_current_offset() == t.spec_current_offset() + print_chars(v)
            },
    decreases print_measure(v),
{
    lemma_small_numbers();
    let max = columns_left(t);
    let (v2, item) = printable_next(v, max);
    if v.newline {
        lemma_print_runs(v2, t, e);
        let (n, t2) = choose|n: nat, t2: Terminal|
            {
                &&& step_runs(StepView::Print(v2), t, n, t2)
                &&& room(t2, e)
                &&& t2.columns() == t.columns()
                &&& t2.spec_current_offset() == t.spec_current_offset() + print_chars(v2)
            };
        assert(step_runs(StepView::Print(v), t, n + 1, t2));
    } else if v.text.len() == 0 && v.parts.len() == 0 {
        assert(step_runs(StepView::Print(v), t, 0, t));
    } else {
        lemma_printable_chunk(v, max);
        let s = if v.text.len() == 0 {
            v.parts[0]
        } else {
            v.text
        };
        let k = if max < char_count(s) {
            max
        } else {
            char_count(s)
        };
        lemma_pos_from_bounds(s, 0, k);
        lemma_pos_from_count(s, 0, k);
        let chunk = s.subrange(0, byte_pos(s, k));
        assert(item == Some(Some(chunk)));
        let count = char_count(chunk);
        assert(print_chars(v) == count + print_chars(v2));
        assert(print_measure(v2) < print_measure(v));
        let o = t.spec_current_offset();
        t.lemma_row_offset_fits();
        lemma_position_offset_roundtrip(t, o + count);
        let p = position_after(t, count as int);
        lemma_move_room(t, p, e);
        let t1 = t.spec_moved(p);
        lemma_print_runs(v2, t1, e);
        let (n, t2) = choose|n: nat, t2: Terminal|
            {
                &&& step_runs(StepView::Print(v2), t1, n, t2)
                &&& room(t2, e)
                &&& t2.columns() == t1.columns()
                &&& t2.spec_current_offset() == t1.spec_current_offset() + print_chars(v2)
            };
        assert(step_runs(StepView::Print(v), t, n + 1, t2));
    }
}

/// Step `v` taken from `t` comes to its end, leaving the terminal as `t2`.
pub open spec fn step_ends(v: StepView, t: Terminal, t2: Terminal) -> bool {
    exists|n: nat| step_runs(v, t, n, t2)
}

/// The run of `steps` from `t` comes to its end (see `run_ok`).
pub open spec fn run_ends(steps: Seq<StepView>, t: Terminal, bytes_only: bool) -> bool {
    exists|fuel: nat| run_ok(steps, t, fuel, bytes_only)
}

proof fn lemma_ends_cons(v: StepView, rest: Seq<StepView>, t: Terminal, t2: Terminal, bytes_only: bool)
    requires
        step_ends(v, t, t2),
        run_ends(rest, t2, bytes_only),
        bytes_only ==> bytes_step(v),
    ensures
        run_ends(seq![v] + rest, t, bytes_only),
{
    let n = choose|n: nat| step_runs(v, t, n, t2);
    let f = choose|f: nat| run_ok(rest, t2, f, bytes_only);
    let steps = seq![v] + rest;
    assert(steps[0] == v);
    assert(steps.drop_first() =~= rest);
    lemma_run_cons(steps, t, n, t2, f, bytes_only);
}

proof fn lemma_ends_last(v: StepView, t: Terminal, t2: Terminal, bytes_only: bool)
    requires
        step_ends(v, t, t2),
        bytes_only ==> bytes_step(v),
    ensures
        run_ends(seq![v], t, bytes_only),
{
    assert(run_ok(Seq::<StepView>::empty(), t2, 0, bytes_only));
    lemma_ends_cons(v, Seq::empty(), t, t2, bytes_only);
    assert(seq![v] + Seq::<StepView>::empty() =~= seq![v]);
}

/// A step that hands out one item and leaves the terminal as it is.
proof fn lemma_still_ends(v: StepView, t: Terminal)
    requires
        v is Erase || v is Bell || v is MoveCursorToEdge || v is GetPosition || v is SavePosition
            || v is RestorePosition || v is EndOfString || v is Abort,
    ensures
        step_ends(v, t, t),
{
    lemma_single_runs(v, t, t);
}

/// With room, the cursor sits within the text, on a character of its row.
proof fn lemma_room_offset(t: Terminal, e: int)
    requires
        room(t, e),
    ensures
        0 <= t.spec_current_offset(),
        t.spec_current_position().column < t.columns(),
        t.spec_position_from_offset(t.spec_current_offset()) == t.spec_current_position(),
        t.spec_current_position().row == t.cursor().row + t.row_offset(),
{
    lemma_small_numbers();
    t.lemma_row_offset_fits();
    let r0 = t.cursor().row + t.row_offset();
    assert(t.spec_current_position().row == r0);
    let c = t.columns() as int;
    assert(r0 * c >= 0) by (nonlinear_arith)
        requires
            r0 >= 0,
            c >= 1,
    ;
    lemma_offset_position_roundtrip(t, t.spec_current_position());
}

/// With room, the cursor can be moved to any offset within `e`.
proof fn lemma_move_to_offset(t: Terminal, x: int, e: int)
    requires
        room(t, e),
        0 <= x <= e,
    ensures
        ({
            let q = t.spec_position_from_offset(x);
            &&& step_ends(StepView::MoveTo(q), t, t.spec_moved(q))
            &&& room(t.spec_moved(q), e)
            &&& t.spec_moved(q).columns() == t.columns()
            &&& t.spec_moved(q).spec_current_offset() == x
        }),
{
    lemma_small_numbers();
    lemma_position_offset_roundtrip(t, x);
    let q = t.spec_position_from_offset(x);
    lemma_move_room(t, q, e);
    lemma_move_to_runs(t, q);
}

/// The cursor moved to the start of its row.
proof fn lemma_clear_line_room(t: Terminal, e: int)
    requires
        room(t, e),
    ensures
        step_ends(StepView::ClearLine, t, t.spec_line_start()),
        room(t.spec_line_start(), e),
        t.spec_line_start().columns() == t.columns(),
        t.spec_line_start().spec_current_offset() <= t.spec_current_offset(),
{
    lemma_room_offset(t, e);
    t.lemma_spec_terminals(t.spec_current_position());
    lemma_single_runs(StepView::ClearLine, t, t.spec_line_start());
}

/// The first parts of a text hold as many bytes as the first part and
/// the rest together.
proof fn lemma_total_len_first(ps: Seq<Seq<u8>>)
    requires
        ps.len() > 0,
    ensures
        total_len(ps) == ps[0].len() + total_len(ps.drop_first()),
    decreases ps.len(),
{
    if ps.len() > 1 {
        lemma_total_len_first(ps.drop_last());
        assert(ps.drop_last().drop_first() =~= ps.drop_first().drop_last());
    } else {
        assert(ps.drop_last() =~= Seq::<Seq<u8>>::empty());
        assert(ps.drop_first() =~= Seq::<Seq<u8>>::empty());
    }
}

/// A text has no more characters than bytes.
proof fn lemma_parts_chars_bound(ps: Seq<Seq<u8>>)
    ensures
        parts_chars(ps) <= total_len(ps),
    decreases ps.len(),
{
    if ps.len() > 0 {
        lemma_total_len_first(ps);
        lemma_count_from_bound(ps[0], 0);
        lemma_parts_chars_bound(ps.drop_first());
    }
}

/// Characters of the line after text offset `x`.
proof fn lemma_text_after_chars(b: Seq<u8>, x: int, p: int)
    requires
        0 <= p <= x,
    ensures
        x + char_count(text_after(b, x, p)) <= if x - p <= char_count(b) {
            p + char_count(b)
        } else {
            x
        },
{
    let n = (x - p) as nat;
    if n <= char_count(b) {
        lemma_split_at_char(b, n);
    } else {
        lemma_pos_from_bounds(b, 0, n);
        lemma_pos_from_count(b, 0, n);
        assert(text_after(b, x, p) =~= Seq::<u8>::empty());
    }
}

/// How far into the text an output may take the cursor: past the
/// cursor, the prompt and the line, the characters a cursor move skips
/// and a row.
pub open spec fn output_reach(action: OutputAction, t: Terminal, p: nat, b: Seq<u8>) -> int {
    let shift = match action {
        OutputAction::MoveCursorAndEraseAndPrintBuffer(k) => abs(k as int),
        _ => 0,
    };
    t.spec_current_offset() + p + char_count(b) + shift + t.columns()
}

proof fn lemma_runs_move_cursor(action: OutputAction, t: Terminal, parts: Seq<Seq<u8>>, b: Seq<u8>)
    requires
        action is MoveCursor,
        output_ok(action, t, total_len(parts), b),
        room(t, output_reach(action, t, total_len(parts), b)),
    ensures
        run_ends(
            output_steps(action, t, parts, b),
            output_terminal(action, t),
            !(action is Done) && !(action is Abort),
        ),
{
    let e = output_reach(action, t, total_len(parts), b);
    let bo = !(action is Done) && !(action is Abort);
    let p = total_len(parts) as int;
    let l = char_count(b) as int;
    let o = t.spec_current_offset();
    let cur = t.spec_current_position();
    let steps = output_steps(action, t, parts, b);
    lemma_small_numbers();
    lemma_room_offset(t, e);
    lemma_parts_chars_bound(parts);
    let m = action->MoveCursor_0;
    let x = super::output::move_target(m, t, p, l);
    if 0 <= x - p <= l {
        lemma_move_to_offset(t, x, e);
        lemma_ends_last(
            StepView::MoveTo(t.spec_position_from_offset(x)),
            t,
            t.spec_moved(t.spec_position_from_offset(x)),
            bo,
        );
    } else {
        lemma_still_ends(StepView::Bell, t);
        lemma_ends_last(StepView::Bell, t, t, bo);
    }
}

proof fn lemma_runs_print_forward(action: OutputAction, t: Terminal, parts: Seq<Seq<u8>>, b: Seq<u8>)
    requires
        action is PrintBufferAndMoveCursorForward,
        output_ok(action, t, total_len(parts), b),
        room(t, output_reach(action, t, total_len(parts), b)),
    ensures
        run_ends(
            output_steps(action, t, parts, b),
            output_terminal(action, t),
            !(action is Done) && !(action is Abort),
        ),
{
    let e = output_reach(action, t, total_len(parts), b);
    let bo = !(action is Done) && !(action is Abort);
    let p = total_len(parts) as int;
    let l = char_count(b) as int;
    let o = t.spec_current_offset();
    let cur = t.spec_current_position();
    let steps = output_steps(action, t, parts, b);
    lemma_small_numbers();
    lemma_room_offset(t, e);
    lemma_parts_chars_bound(parts);
    let pv = print_text(text_after(b, o, p));
    lemma_text_after_chars(b, o, p);
    lemma_print_runs(pv->Print_0, t, e);
    let t2 = choose|t2: Terminal|
        {
            &&& step_ends(pv, t, t2)
            &&& room(t2, e)
            &&& t2.columns() == t.columns()
            &&& t2.spec_current_offset() == o + print_chars(pv->Print_0)
        };
    lemma_move_to_offset(t2, o + 1, e);
    let q = t.spec_position_from_offset(o + 1);
    lemma_ends_last(StepView::MoveTo(q), t2, t2.spec_moved(q), bo);
    lemma_ends_cons(pv, seq![StepView::MoveTo(q)], t, t2, bo);
    assert(steps =~= seq![pv] + seq![StepView::MoveTo(q)]);
}

proof fn lemma_runs_erase(action: OutputAction, t: Terminal, parts: Seq<Seq<u8>>, b: Seq<u8>)
    requires
        action is EraseAfterCursor,
        output_ok(action, t, total_len(parts), b),
        room(t, output_reach(action, t, total_len(parts), b)),
    ensures
        run_ends(
            output_steps(action, t, parts, b),
            output_terminal(action, t),
            !(action is Done) && !(action is Abort),
        ),
{
    let e = output_reach(action, t, total_len(parts), b);
    let bo = !(action is Done) && !(action is Abort);
    let p = total_len(parts) as int;
    let l = char_count(b) as int;
    let o = t.spec_current_offset();
    let cur = t.spec_current_position();
    let steps = output_steps(action, t, parts, b);
    lemma_small_numbers();
    lemma_room_offset(t, e);
    lemma_parts_chars_bound(parts);
    lemma_still_ends(StepView::Erase, t);
    lemma_ends_last(StepView::Erase, t, t, bo);
}

proof fn lemma_runs_erase_and_print(action: OutputAction, t: Terminal, parts: Seq<Seq<u8>>, b: Seq<u8>)
    requires
        action is EraseAndPrintBuffer,
        output_ok(action, t, total_len(parts), b),
        room(t, output_reach(action, t, total_len(parts), b)),
    ensures
        run_ends(
            output_steps(action, t, parts, b),
            output_terminal(action, t),
            !(action is Done) && !(action is Abort),
        ),
{
    let e = output_reach(action, t, total_len(parts), b);
    let bo = !(action is Done) && !(action is Abort);
    let p = total_len(parts) as int;
    let l = char_count(b) as int;
    let o = t.spec_current_offset();
    let cur = t.spec_current_position();
    let steps = output_steps(action, t, parts, b);
    lemma_small_numbers();
    lemma_room_offset(t, e);
    lemma_parts_chars_bound(parts);
    let pv = print_text(text_after(b, o, p));
    lemma_text_after_chars(b, o, p);
    lemma_print_runs(pv->Print_0, t, e);
    let t2 = choose|t2: Terminal|
        {
            &&& step_ends(pv, t, t2)
            &&& room(t2, e)
            &&& t2.columns() == t.columns()
            &&& t2.spec_current_offset() == o + print_chars(pv->Print_0)
        };
    lemma_move_to_offset(t2, o, e);
    lemma_ends_last(StepView::MoveTo(cur), t2, t2.spec_moved(cur), bo);
    lemma_ends_cons(pv, seq![StepView::MoveTo(cur)], t, t2, bo);
    lemma_still_ends(StepView::Erase, t);
    lemma_ends_cons(StepView::Erase, seq![pv] + seq![StepView::MoveTo(cur)], t, t, bo);
    assert(steps =~= seq![StepView::Erase] + (seq![pv] + seq![StepView::MoveTo(cur)]));
}

proof fn lemma_runs_clear_screen(action: OutputAction, t: Terminal, parts: Seq<Seq<u8>>, b: Seq<u8>)
    requires
        action is ClearScreen,
        output_ok(action, t, total_len(parts), b),
        room(t, output_reach(action, t, total_len(parts), b)),
    ensures
        run_ends(
            output_steps(action, t, parts, b),
            output_terminal(action, t),
            !(action is Done) && !(action is Abort),
        ),
{
    let e = output_reach(action, t, total_len(parts), b);
    let bo = !(action is Done) && !(action is Abort);
    let p = total_len(parts) as int;
    let l = char_count(b) as int;
    let o = t.spec_current_offset();
    let cur = t.spec_current_position();
    let steps = output_steps(action, t, parts, b);
    lemma_small_numbers();
    lemma_room_offset(t, e);
    lemma_parts_chars_bound(parts);
    let origin = Position { row: 0, column: 0 };
    let top = t.spec_at_top();
    t.lemma_spec_terminals(origin);
    top.lemma_spec_terminals(origin);
    let t0 = top.spec_moved(origin);
    top.lemma_row_offset_fits();
    assert(top.spec_scrolling_needed(0) == 0);
    assert(t0.row_offset() == 0);
    assert(t0.cursor() == (Cursor { row: 0, column: 0 }));
    assert(t0.spec_current_position() == origin);
    vstd::arithmetic::mul::lemma_mul_basics(t0.columns() as int);
    assert(t0.spec_current_offset() == 0);
    assert(room(t0, e));
    let pv = print_parts(parts);
    lemma_print_runs(pv->Print_0, t0, e);
    let t2 = choose|t2: Terminal|
        {
            &&& step_ends(pv, t0, t2)
            &&& room(t2, e)
            &&& t2.columns() == t0.columns()
            &&& t2.spec_current_offset() == t0.spec_current_offset() + print_chars(
                pv->Print_0,
            )
        };
    lemma_ends_last(pv, t0, t2, bo);
    lemma_still_ends(StepView::Erase, t0);
    lemma_ends_cons(StepView::Erase, seq![pv], t0, t0, bo);
    let mv = steps[0];
    lemma_moving_runs(mv->Moving_0, t0);
    lemma_ends_cons(mv, seq![StepView::Erase] + seq![pv], t0, t0, bo);
    assert(steps =~= seq![mv] + (seq![StepView::Erase] + seq![pv]));
}

proof fn lemma_runs_clear_line(action: OutputAction, t: Terminal, parts: Seq<Seq<u8>>, b: Seq<u8>)
    requires
        action is ClearLine,
        output_ok(action, t, total_len(parts), b),
        room(t, output_reach(action, t, total_len(parts), b)),
    ensures
        run_ends(
            output_steps(action, t, parts, b),
            output_terminal(action, t),
            !(action is Done) && !(action is Abort),
        ),
{
    let e = output_reach(action, t, total_len(parts), b);
    let bo = !(action is Done) && !(action is Abort);
    let p = total_len(parts) as int;
    let l = char_count(b) as int;
    let o = t.spec_current_offset();
    let cur = t.spec_current_position();
    let steps = output_steps(action, t, parts, b);
    lemma_small_numbers();
    lemma_room_offset(t, e);
    lemma_parts_chars_bound(parts);
    lemma_move_to_offset(t, p, e);
    let q = t.spec_position_from_offset(p);
    let t1 = t.spec_moved(q);
    lemma_still_ends(StepView::Erase, t1);
    lemma_ends_last(StepView::Erase, t1, t1, bo);
    lemma_ends_cons(StepView::MoveTo(q), seq![StepView::Erase], t, t1, bo);
    assert(steps =~= seq![StepView::MoveTo(q)] + seq![StepView::Erase]);
}

proof fn lemma_runs_back_and_print(action: OutputAction, t: Terminal, parts: Seq<Seq<u8>>, b: Seq<u8>)
    requires
        action is MoveCursorBackAndPrintBufferAndMoveForward,
        output_ok(action, t, total_len(parts), b),
        room(t, output_reach(action, t, total_len(parts), b)),
    ensures
        run_ends(
            output_steps(action, t, parts, b),
            output_terminal(action, t),
            !(action is Done) && !(action is Abort),
        ),
{
    let e = output_reach(action, t, total_len(parts), b);
    let bo = !(action is Done) && !(action is Abort);
    let p = total_len(parts) as int;
    let l = char_count(b) as int;
    let o = t.spec_current_offset();
    let cur = t.spec_current_position();
    let steps = output_steps(action, t, parts, b);
    lemma_small_numbers();
    lemma_room_offset(t, e);
    lemma_parts_chars_bound(parts);
    lemma_move_to_offset(t, o - 1, e);
    let q = t.spec_position_from_offset(o - 1);
    let t1 = t.spec_moved(q);
    let pv = print_text(text_after(b, o - 1, p));
    lemma_text_after_chars(b, o - 1, p);
    lemma_print_runs(pv->Print_0, t1, e);
    let t2 = choose|t2: Terminal|
        {
            &&& step_ends(pv, t1, t2)
            &&& room(t2, e)
            &&& t2.columns() == t1.columns()
            &&& t2.spec_current_offset() == t1.spec_current_offset() + print_chars(
                pv->Print_0,
            )
        };
    lemma_move_to_offset(t2, o, e);
    lemma_ends_last(StepView::MoveTo(cur), t2, t2.spec_moved(cur), bo);
    lemma_ends_cons(pv, seq![StepView::MoveTo(cur)], t1, t2, bo);
    lemma_ends_cons(
        StepView::MoveTo(q),
        seq![pv] + seq![StepView::MoveTo(cur)],
        t,
        t1,
        bo,
    );
    assert(steps =~= seq![StepView::MoveTo(q)] + (seq![pv] + seq![
        StepView::MoveTo(cur),
    ]));
}

proof fn lemma_runs_move_erase_print(action: OutputAction, t: Terminal, parts: Seq<Seq<u8>>, b: Seq<u8>)
    requires
        action is MoveCursorAndEraseAndPrintBuffer,
        output_ok(action, t, total_len(parts), b),
        room(t, output_reach(action, t, total_len(parts), b)),
    ensures
        run_ends(
            output_steps(action, t, parts, b),
            output_terminal(action, t),
            !(action is Done) && !(action is Abort),
        ),
{
    let e = output_reach(action, t, total_len(parts), b);
    let bo = !(action is Done) && !(action is Abort);
    let p = total_len(parts) as int;
    let l = char_count(b) as int;
    let o = t.spec_current_offset();
    let cur = t.spec_current_position();
    let steps = output_steps(action, t, parts, b);
    lemma_small_numbers();
    lemma_room_offset(t, e);
    lemma_parts_chars_bound(parts);
    let k = action->MoveCursorAndEraseAndPrintBuffer_0;
    let x = o + k;
    lemma_move_to_offset(t, x, e);
    let q = t.spec_position_from_offset(x);
    let t1 = t.spec_moved(q);
    let pv = print_text(text_after(b, x, p));
    lemma_text_after_chars(b, x, p);
    lemma_print_runs(pv->Print_0, t1, e);
    let t2 = choose|t2: Terminal|
        {
            &&& step_ends(pv, t1, t2)
            &&& room(t2, e)
            &&& t2.columns() == t1.columns()
            &&& t2.spec_current_offset() == t1.spec_current_offset() + print_chars(
                pv->Print_0,
            )
        };
    lemma_move_to_offset(t2, x, e);
    lemma_ends_last(StepView::MoveTo(q), t2, t2.spec_moved(q), bo);
    lemma_ends_cons(pv, seq![StepView::MoveTo(q)], t1, t2, bo);
    lemma_still_ends(StepView::Erase, t1);
    lemma_ends_cons(StepView::Erase, seq![pv] + seq![StepView::MoveTo(q)], t1, t1, bo);
    lemma_ends_cons(
        StepView::MoveTo(q),
        seq![StepView::Erase] + (seq![pv] + seq![StepView::MoveTo(q)]),
        t,
        t1,
        bo,
    );
    assert(steps =~= seq![StepView::MoveTo(q)] + (seq![StepView::Erase] + (seq![pv]
        + seq![StepView::MoveTo(q)])));
}

proof fn lemma_runs_bell(action: OutputAction, t: Terminal, parts: Seq<Seq<u8>>, b: Seq<u8>)
    requires
        action is RingBell,
        output_ok(action, t, total_len(parts), b),
        room(t, output_reach(action, t, total_len(parts), b)),
    ensures
        run_ends(
            output_steps(action, t, parts, b),
            output_terminal(action, t),
            !(action is Done) && !(action is Abort),
        ),
{
    let e = output_reach(action, t, total_len(parts), b);
    let bo = !(action is Done) && !(action is Abort);
    let p = total_len(parts) as int;
    let l = char_count(b) as int;
    let o = t.spec_current_offset();
    let cur = t.spec_current_position();
    let steps = output_steps(action, t, parts, b);
    lemma_small_numbers();
    lemma_room_offset(t, e);
    lemma_parts_chars_bound(parts);
    lemma_still_ends(StepView::Bell, t);
    lemma_ends_last(StepView::Bell, t, t, bo);
}

proof fn lemma_runs_prompt(action: OutputAction, t: Terminal, parts: Seq<Seq<u8>>, b: Seq<u8>)
    requires
        action is ClearAndPrintPrompt,
        output_ok(action, t, total_len(parts), b),
        room(t, output_reach(action, t, total_len(parts), b)),
    ensures
        run_ends(
            output_steps(action, t, parts, b),
            output_terminal(action, t),
            !(action is Done) && !(action is Abort),
        ),
{
    let e = output_reach(action, t, total_len(parts), b);
    let bo = !(action is Done) && !(action is Abort);
    let p = total_len(parts) as int;
    let l = char_count(b) as int;
    let o = t.spec_current_offset();
    let cur = t.spec_current_position();
    let steps = output_steps(action, t, parts, b);
    lemma_small_numbers();
    lemma_room_offset(t, e);
    lemma_parts_chars_bound(parts);
    lemma_clear_line_room(t, e);
    let t1 = t.spec_line_start();
    let pv = print_parts(parts);
    lemma_print_runs(pv->Print_0, t1, e);
    let t2 = choose|t2: Terminal|
        {
            &&& step_ends(pv, t1, t2)
            &&& room(t2, e)
            &&& t2.columns() == t1.columns()
            &&& t2.spec_current_offset() == t1.spec_current_offset() + print_chars(
                pv->Print_0,
            )
        };
    lemma_still_ends(StepView::GetPosition, t2);
    lemma_ends_last(StepView::GetPosition, t2, t2, bo);
    lemma_ends_cons(pv, seq![StepView::GetPosition], t1, t2, bo);
    lemma_ends_cons(
        StepView::ClearLine,
        seq![pv] + seq![StepView::GetPosition],
        t,
        t1,
        bo,
    );
    assert(steps =~= seq![StepView::ClearLine] + (seq![pv] + seq![
        StepView::GetPosition,
    ]));
}

proof fn lemma_runs_reprint(action: OutputAction, t: Terminal, parts: Seq<Seq<u8>>, b: Seq<u8>)
    requires
        action is ClearAndPrintBuffer,
        output_ok(action, t, total_len(parts), b),
        room(t, output_reach(action, t, total_len(parts), b)),
    ensures
        run_ends(
            output_steps(action, t, parts, b),
            output_terminal(action, t),
            !(action is Done) && !(action is Abort),
        ),
{
    let e = output_reach(action, t, total_len(parts), b);
    let bo = !(action is Done) && !(action is Abort);
    let p = total_len(parts) as int;
    let l = char_count(b) as int;
    let o = t.spec_current_offset();
    let cur = t.spec_current_position();
    let steps = output_steps(action, t, parts, b);
    lemma_small_numbers();
    lemma_room_offset(t, e);
    lemma_parts_chars_bound(parts);
    lemma_move_to_offset(t, p, e);
    let q = t.spec_position_from_offset(p);
    let t1 = t.spec_moved(q);
    let pv = print_text(b);
    lemma_print_runs(pv->Print_0, t1, e);
    let t2 = choose|t2: Terminal|
        {
            &&& step_ends(pv, t1, t2)
            &&& room(t2, e)
            &&& t2.columns() == t1.columns()
            &&& t2.spec_current_offset() == t1.spec_current_offset() + print_chars(
                pv->Print_0,
            )
        };
    lemma_ends_last(pv, t1, t2, bo);
    lemma_still_ends(StepView::Erase, t1);
    lemma_ends_cons(StepView::Erase, seq![pv], t1, t1, bo);
    lemma_ends_cons(StepView::MoveTo(q), seq![StepView::Erase] + seq![pv], t, t1, bo);
    assert(steps =~= seq![StepView::MoveTo(q)] + (seq![StepView::Erase] + seq![pv]));
}

proof fn lemma_runs_probe(action: OutputAction, t: Terminal, parts: Seq<Seq<u8>>, b: Seq<u8>)
    requires
        action is ProbeSize,
        output_ok(action, t, total_len(parts), b),
        room(t, output_reach(action, t, total_len(parts), b)),
    ensures
        run_ends(
            output_steps(action, t, parts, b),
            output_terminal(action, t),
            !(action is Done) && !(action is Abort),
        ),
{
    let e = output_reach(action, t, total_len(parts), b);
    let bo = !(action is Done) && !(action is Abort);
    let p = total_len(parts) as int;
    let l = char_count(b) as int;
    let o = t.spec_current_offset();
    let cur = t.spec_current_position();
    let steps = output_steps(action, t, parts, b);
    lemma_small_numbers();
    lemma_room_offset(t, e);
    lemma_parts_chars_bound(parts);
    lemma_still_ends(StepView::SavePosition, t);
    lemma_still_ends(StepView::MoveCursorToEdge, t);
    lemma_still_ends(StepView::GetPosition, t);
    lemma_still_ends(StepView::RestorePosition, t);
    lemma_ends_last(StepView::RestorePosition, t, t, bo);
    lemma_ends_cons(StepView::GetPosition, seq![StepView::RestorePosition], t, t, bo);
    let r2 = seq![StepView::GetPosition] + seq![StepView::RestorePosition];
    lemma_ends_cons(StepView::MoveCursorToEdge, r2, t, t, bo);
    let r3 = seq![StepView::MoveCursorToEdge] + r2;
    lemma_ends_cons(StepView::SavePosition, r3, t, t, bo);
    assert(steps =~= seq![StepView::SavePosition] + r3);
}

proof fn lemma_runs_done(action: OutputAction, t: Terminal, parts: Seq<Seq<u8>>, b: Seq<u8>)
    requires
        action is Done,
        output_ok(action, t, total_len(parts), b),
        room(t, output_reach(action, t, total_len(parts), b)),
    ensures
        run_ends(
            output_steps(action, t, parts, b),
            output_terminal(action, t),
            !(action is Done) && !(action is Abort),
        ),
{
    let e = output_reach(action, t, total_len(parts), b);
    let bo = !(action is Done) && !(action is Abort);
    let p = total_len(parts) as int;
    let l = char_count(b) as int;
    let o = t.spec_current_offset();
    let cur = t.spec_current_position();
    let steps = output_steps(action, t, parts, b);
    lemma_small_numbers();
    lemma_room_offset(t, e);
    lemma_parts_chars_bound(parts);
    lemma_newline_room(t, e);
    let t1 = t.spec_moved(next_line_start(t));
    lemma_still_ends(StepView::EndOfString, t1);
    lemma_ends_last(StepView::EndOfString, t1, t1, bo);
    lemma_ends_cons(StepView::Newline, seq![StepView::EndOfString], t, t1, bo);
    assert(steps =~= seq![StepView::Newline] + seq![StepView::EndOfString]);
}

proof fn lemma_runs_abort(action: OutputAction, t: Terminal, parts: Seq<Seq<u8>>, b: Seq<u8>)
    requires
        action is Abort,
        output_ok(action, t, total_len(parts), b),
        room(t, output_reach(action, t, total_len(parts), b)),
    ensures
        run_ends(
            output_steps(action, t, parts, b),
            output_terminal(action, t),
            !(action is Done) && !(action is Abort),
        ),
{
    let e = output_reach(action, t, total_len(parts), b);
    let bo = !(action is Done) && !(action is Abort);
    let p = total_len(parts) as int;
    let l = char_count(b) as int;
    let o = t.spec_current_offset();
    let cur = t.spec_current_position();
    let steps = output_steps(action, t, parts, b);
    lemma_small_numbers();
    lemma_room_offset(t, e);
    lemma_parts_chars_bound(parts);
    lemma_newline_room(t, e);
    let t1 = t.spec_moved(next_line_start(t));
    lemma_still_ends(StepView::Abort, t1);
    lemma_ends_last(StepView::Abort, t1, t1, bo);
    lemma_ends_cons(StepView::Newline, seq![StepView::Abort], t, t1, bo);
    assert(steps =~= seq![StepView::Newline] + seq![StepView::Abort]);
}

proof fn lemma_runs_nothing(action: OutputAction, t: Terminal, parts: Seq<Seq<u8>>, b: Seq<u8>)
    requires
        action is Nothing,
        output_ok(action, t, total_len(parts), b),
        room(t, output_reach(action, t, total_len(parts), b)),
    ensures
        run_ends(
            output_steps(action, t, parts, b),
            output_terminal(action, t),
            !(action is Done) && !(action is Abort),
        ),
{
    let e = output_reach(action, t, total_len(parts), b);
    let bo = !(action is Done) && !(action is Abort);
    let p = total_len(parts) as int;
    let l = char_count(b) as int;
    let o = t.spec_current_offset();
    let cur = t.spec_current_position();
    let steps = output_steps(action, t, parts, b);
    lemma_small_numbers();
    lemma_room_offset(t, e);
    lemma_parts_chars_bound(parts);
    assert(run_ok(steps, t, 0, bo));
}

/// An output that neither moves the cursor nor prints: it only writes
/// fixed sequences.
pub open spec fn quiet(action: OutputAction) -> bool {
    ||| action is EraseAfterCursor
    ||| action is RingBell
    ||| action is ProbeSize
    ||| action is Nothing
}

/// Law: an output that neither moves the cursor nor prints comes to its
/// end on every terminal, handing out bytes only.
pub proof fn lemma_quiet_output_runs(action: OutputAction, t: Terminal, parts: Seq<Seq<u8>>, b: Seq<u8>)
    requires
        quiet(action),
    ensures
        run_ends(output_steps(action, t, parts, b), output_terminal(action, t), true),
{
    let steps = output_steps(action, t, parts, b);
    match action {
        OutputAction::EraseAfterCursor => {
            lemma_still_ends(StepView::Erase, t);
            lemma_ends_last(StepView::Erase, t, t, true);
        },
        OutputAction::RingBell => {
            lemma_still_ends(StepView::Bell, t);
            lemma_ends_last(StepView::Bell, t, t, true);
        },
        OutputAction::ProbeSize => {
            lemma_still_ends(StepView::SavePosition, t);
            lemma_still_ends(StepView::MoveCursorToEdge, t);
            lemma_still_ends(StepView::GetPosition, t);
            lemma_still_ends(StepView::RestorePosition, t);
            lemma_ends_last(StepView::RestorePosition, t, t, true);
            lemma_ends_cons(StepView::GetPosition, seq![StepView::RestorePosition], t, t, true);
            let r2 = seq![StepView::GetPosition] + seq![StepView::RestorePosition];
            lemma_ends_cons(StepView::MoveCursorToEdge, r2, t, t, true);
            let r3 = seq![StepView::MoveCursorToEdge] + r2;
            lemma_ends_cons(StepView::SavePosition, r3, t, t, true);
            assert(steps =~= seq![StepView::SavePosition] + r3);
        },
        _ => {
            assert(run_ok(steps, t, 0, true));
        },
    }
}

/// Law: with room on the terminal for the text involved, every output
/// comes to its end: each step it takes can be taken without overflow,
/// it hands out finitely many items, and all of them are bytes except
/// the end-of-line and abort markers of `Done` and `Abort`.
pub proof fn lemma_output_runs(action: OutputAction, t: Terminal, parts: Seq<Seq<u8>>, b: Seq<u8>)
    requires
        output_ok(action, t, total_len(parts), b),
        room(t, output_reach(action, t, total_len(parts), b)),
    ensures
        run_ends(
            output_steps(action, t, parts, b),
            output_terminal(action, t),
            !(action is Done) && !(action is Abort),
        ),
{
    match action {
        OutputAction::MoveCursor(_) => lemma_runs_move_cursor(action, t, parts, b),
        OutputAction::PrintBufferAndMoveCursorForward => lemma_runs_print_forward(action, t, parts, b),
        OutputAction::EraseAfterCursor => lemma_runs_erase(action, t, parts, b),
        OutputAction::EraseAndPrintBuffer => lemma_runs_erase_and_print(action, t, parts, b),
        OutputAction::ClearScreen => lemma_runs_clear_screen(action, t, parts, b),
        OutputAction::ClearLine => lemma_runs_clear_line(action, t, parts, b),
        OutputAction::MoveCursorBackAndPrintBufferAndMoveForward => lemma_runs_back_and_print(action, t, parts, b),
        OutputAction::MoveCursorAndEraseAndPrintBuffer(_) => lemma_runs_move_erase_print(action, t, parts, b),
        OutputAction::RingBell => lemma_runs_bell(action, t, parts, b),
        OutputAction::ClearAndPrintPrompt => lemma_runs_prompt(action, t, parts, b),
        OutputAction::ClearAndPrintBuffer => lemma_runs_reprint(action, t, parts, b),
        OutputAction::ProbeSize => lemma_runs_probe(action, t, parts, b),
        OutputAction::Done => lemma_runs_done(action, t, parts, b),
        OutputAction::Abort => lemma_runs_abort(action, t, parts, b),
        OutputAction::Nothing => lemma_runs_nothing(action, t, parts, b),
    }
}

} // verus!
