//! Input parsing: control characters, escape and control sequences, and
//! UTF-8 characters.

mod action;
mod control_char;
mod csi;
mod parser;
mod state;

pub use action::{control_of, Action};
pub use control_char::{
    control_byte, is_control_byte, lemma_control_byte_injective, lemma_control_byte_roundtrip,
    ControlCharacter,
};
pub use csi::{csi_of, lemma_final_bytes, lemma_tilde_keys, CSI};
pub use parser::{
    after_decoder, all_digits, digits_from, ignores, is_digit, is_final_byte,
    lemma_parses_character, lemma_parses_control_sequence, param, parser_run, parser_step,
    push_digit, run_overflows, step_overflows, Parser,
};
pub use state::{state_wf, State};
