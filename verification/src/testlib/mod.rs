//! Building blocks for testing an editor: input written as bytes and
//! the screen that a session should leave.

mod byte_vec;
pub mod csi;
mod input_builder;
mod mock_terminal;
mod test_case;

pub use byte_vec::{control_bytes, str_bytes, ToByteVec};
pub use input_builder::InputBuilder;
pub use test_case::{screen_of, test_cases, wrap_char, wrap_chars, TestCase};
pub use mock_terminal::{
    blank_row, erased_below, moved_column, position_report, row_text, screen_text, scrolled_down,
    scrolled_up, MockTerminal,
};
