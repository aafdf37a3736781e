//! Output generation: the bytes that bring the terminal in line with
//! the editor's state.

mod move_cursor;
mod move_cursor_pos;
mod output;
mod output_item;
mod output_iter;
mod printable;
mod room;
mod step;
mod uint_to_bytes;

pub use uint_to_bytes::{
    decimal_value, digits, lemma_digits_value, lemma_pow10_mono, lemma_pow10_positive, pow10,
    skip_zeros, UintToBytes,
};
pub use output_item::{ItemView, OutputItem};
pub use move_cursor::{abs, csi_prefix, move_cursor_fits, move_cursor_items, MoveCursor};
pub use printable::{lemma_printable_chunk, printable_item_view, printable_next, Printable, PrintableItem, PrintableView};
pub use move_cursor_pos::{move_ok, MoveCursorToPosition};
pub use step::{
    bell_bytes, clear_line_bytes, columns_left, edge_bytes, erase_bytes, get_position_bytes,
    item_view, lemma_print_step_moves_cursor, newline_bytes, newline_ok, next_line_start, position_after, print_ok,
    restore_position_bytes, save_position_bytes, step_next, step_ok, Step, StepView,
};
pub use output::{
    is_tail_from, lemma_cursor_moves_stay_in_line, lemma_redraw_outputs, prints_tail,
    move_target, output_ok, output_steps, output_terminal, position_ok, print_parts, print_text,
    target_ok, text_after, CursorMove, Output, OutputAction,
};
pub use output_iter::{
    bytes_step, iter_next, iter_ok, lemma_run_cons, run_bytes, run_ok, step_runs, OutputIter,
};
pub use room::{
    lemma_move_room, lemma_moving_runs, lemma_move_to_runs, lemma_newline_room, lemma_forward_then_back, lemma_start_end_targets, lemma_output_runs, lemma_quiet_output_runs, quiet,
    lemma_print_runs, lemma_printable_run, output_reach, printable_rest, printed, parts_chars, print_chars, print_measure, room, run_ends,
    step_ends,
};
