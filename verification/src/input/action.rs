use vstd::prelude::*;

use super::control_char::{control_byte, is_control_byte, ControlCharacter};
use super::csi::{csi_of, CSI};
use crate::utf8::Utf8Char;

verus! {

/// What one input byte amounts to once the parser has seen it.
#[derive(Debug, Eq, PartialEq, Copy, Clone)]
pub enum Action {
    Ignore,
    Print(Utf8Char),
    InvalidUtf8,
    ControlCharacter(ControlCharacter),
    EscapeSequence(u8),
    ControlSequenceIntroducer(CSI),
}

/// The control character of a control byte.
pub open spec fn control_of(byte: u8) -> ControlCharacter
    recommends
        is_control_byte(byte),
{
    choose|c: ControlCharacter| control_byte(c) == byte
}

impl Action {
    pub fn escape_sequence(byte: u8) -> (a: Self)
        ensures
            a == Action::EscapeSequence(byte),
    {
        Action::EscapeSequence(byte)
    }

    pub fn control_character(byte: u8) -> (a: Self)
        requires
            is_control_byte(byte),
        ensures
            a == Action::ControlCharacter(control_of(byte)),
    {
        let r = ControlCharacter::new(byte);
        match r {
            Ok(c) => {
                proof {
                    crate::input::control_char::lemma_control_byte_injective(c, control_of(byte));
                }
                Action::ControlCharacter(c)
            },
            Err(_) => Action::Ignore,
        }
    }

    pub fn csi(byte: u8, arg1: Option<usize>, arg2: Option<usize>) -> (a: Self)
        ensures
            a == Action::ControlSequenceIntroducer(csi_of(byte, arg1, arg2)),
    {
        Action::ControlSequenceIntroducer(CSI::new(byte, arg1, arg2))
    }
}

} // verus!
