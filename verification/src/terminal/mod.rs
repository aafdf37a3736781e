//! What the editor knows of the terminal it writes to.

mod cursor;
mod position;
mod terminal;

pub use cursor::Cursor;
pub use position::Position;
pub use terminal::{
    distance_from_window, fits_isize, lemma_cursor_position_roundtrip,
    lemma_moved_position, lemma_offset_position_roundtrip, lemma_position_offset_roundtrip,
    lemma_position_on_screen, lemma_reset_position, spec_distance_from_window, Terminal,
};
