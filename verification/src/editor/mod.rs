//! Core library containing the components for building an editor.
//!
//! Use [`Line`] to read a single line.

mod line;
mod prompt;
mod reset_handle;
mod str_iter;

pub use line::{
    edit, emptied, entry_fits, lemma_history_up_then_down, lemma_type_then_backspace, is_history_down, is_history_up, loaded, offset_ok, up_result,
    uses_position, Line,
};
pub use prompt::{total_len, Prompt};
pub use reset_handle::{ResetHandle, ResetState};
pub use str_iter::StrIter;
