//! Buffer to hold line.
//!
//! Can be backed by a `Vec<u8>` for dynamic allocation or a
//! [`SliceBuffer`] for static allocation. Custom implementation can be
//! provided with the [`Buffer`] trait.

mod unbounded;
mod buffer;
mod line_buffer;
mod no_buffer;
mod slice_buffer;
mod text;

pub use unbounded::UnboundedBuffer;
pub use buffer::Buffer;
pub(crate) use line_buffer::str_from_utf8;
pub use line_buffer::{
    boundary, char_deleted, chars_swapped, fits, inserted, word_deleted, removed, word_end_index, word_start_index, LineBuffer,
};
pub use no_buffer::NoBuffer;
pub use slice_buffer::SliceBuffer;
pub use text::{
    at_char, lemma_byte_pos_at_char, lemma_valid_range, byte_pos, byte_position, char_count, count_chars, count_from, lemma_count_prefix,
    lemma_count_concat, lemma_count_suffix, lemma_last_space, lemma_traded_positions, lemma_split_at_char, lemma_truncated, is_space_char, last_space, lemma_count_from_bound,
    lemma_insert_then_delete,
    lemma_pos_from_bounds, lemma_pos_from_count, lemma_pos_from_end, lemma_pos_from_mono,
    lemma_pos_from_next, pos_from, starts_char,
};
