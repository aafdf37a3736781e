use vstd::prelude::*;

verus! {

/// The C0 control characters and DEL, as read from the input.
#[allow(clippy::upper_case_acronyms)]
#[derive(Debug, Eq, PartialEq, Copy, Clone, Structural)]
pub enum ControlCharacter {
    NUL,
    CtrlA,
    CtrlB,
    CtrlC,
    CtrlD,
    CtrlE,
    CtrlF,
    CtrlG,
    CtrlH,
    Tab,
    LineFeed,
    CtrlK,
    CtrlL,
    CarriageReturn,
    CtrlN,
    CtrlO,
    CtrlP,
    CtrlQ,
    CtrlR,
    CtrlS,
    CtrlT,
    CtrlU,
    CtrlV,
    CtrlW,
    CtrlX,
    CtrlY,
    CtrlZ,
    Escape,
    FS,
    GS,
    RS,
    US,
    Backspace,
}

/// The bytes that are control characters: 0x00 to 0x1F, and 0x7F.
pub open spec fn is_control_byte(byte: u8) -> bool {
    byte <= 0x1f || byte == 0x7f
}

/// The byte that encodes a control character.
pub open spec fn control_byte(c: ControlCharacter) -> u8 {
    match c {
        ControlCharacter::NUL => 0x00,
        ControlCharacter::CtrlA => 0x01,
        ControlCharacter::CtrlB => 0x02,
        ControlCharacter::CtrlC => 0x03,
        ControlCharacter::CtrlD => 0x04,
        ControlCharacter::CtrlE => 0x05,
        ControlCharacter::CtrlF => 0x06,
        ControlCharacter::CtrlG => 0x07,
        ControlCharacter::CtrlH => 0x08,
        ControlCharacter::Tab => 0x09,
        ControlCharacter::LineFeed => 0x0a,
        ControlCharacter::CtrlK => 0x0b,
        ControlCharacter::CtrlL => 0x0c,
        ControlCharacter::CarriageReturn => 0x0d,
        ControlCharacter::CtrlN => 0x0e,
        ControlCharacter::CtrlO => 0x0f,
        ControlCharacter::CtrlP => 0x10,
        ControlCharacter::CtrlQ => 0x11,
        ControlCharacter::CtrlR => 0x12,
        ControlCharacter::CtrlS => 0x13,
        ControlCharacter::CtrlT => 0x14,
        ControlCharacter::CtrlU => 0x15,
        ControlCharacter::CtrlV => 0x16,
        ControlCharacter::CtrlW => 0x17,
        ControlCharacter::CtrlX => 0x18,
        ControlCharacter::CtrlY => 0x19,
        ControlCharacter::CtrlZ => 0x1a,
        ControlCharacter::Escape => 0x1b,
        ControlCharacter::FS => 0x1c,
        ControlCharacter::GS => 0x1d,
        ControlCharacter::RS => 0x1e,
        ControlCharacter::US => 0x1f,
        ControlCharacter::Backspace => 0x7f,
    }
}

impl ControlCharacter {
    /// The control character encoded by `byte`, or `Err` when `byte` is
    /// not a control character.
    pub fn new(byte: u8) -> (r: Result<Self, ()>)
        ensures
            r is Ok <==> is_control_byte(byte),
            r matches Ok(c) ==> control_byte(c) == byte,
    {
        match byte {
            0x00 => Ok(ControlCharacter::NUL),
            0x01 => Ok(ControlCharacter::CtrlA),
            0x02 => Ok(ControlCharacter::CtrlB),
            0x03 => Ok(ControlCharacter::CtrlC),
            0x04 => Ok(ControlCharacter::CtrlD),
            0x05 => Ok(ControlCharacter::CtrlE),
            0x06 => Ok(ControlCharacter::CtrlF),
            0x07 => Ok(ControlCharacter::CtrlG),
            0x08 => Ok(ControlCharacter::CtrlH),
            0x09 => Ok(ControlCharacter::Tab),
            0x0a => Ok(ControlCharacter::LineFeed),
            0x0b => Ok(ControlCharacter::CtrlK),
            0x0c => Ok(ControlCharacter::CtrlL),
            0x0d => Ok(ControlCharacter::CarriageReturn),
            0x0e => Ok(ControlCharacter::CtrlN),
            0x0f => Ok(ControlCharacter::CtrlO),
            0x10 => Ok(ControlCharacter::CtrlP),
            0x11 => Ok(ControlCharacter::CtrlQ),
            0x12 => Ok(ControlCharacter::CtrlR),
            0x13 => Ok(ControlCharacter::CtrlS),
            0x14 => Ok(ControlCharacter::CtrlT),
            0x15 => Ok(ControlCharacter::CtrlU),
            0x16 => Ok(ControlCharacter::CtrlV),
            0x17 => Ok(ControlCharacter::CtrlW),
            0x18 => Ok(ControlCharacter::CtrlX),
            0x19 => Ok(ControlCharacter::CtrlY),
            0x1a => Ok(ControlCharacter::CtrlZ),
            0x1b => Ok(ControlCharacter::Escape),
            0x1c => Ok(ControlCharacter::FS),
            0x1d => Ok(ControlCharacter::GS),
            0x1e => Ok(ControlCharacter::RS),
            0x1f => Ok(ControlCharacter::US),
            0x7f => Ok(ControlCharacter::Backspace),
            _ => Err(()),
        }
    }
}

impl From<ControlCharacter> for u8 {
    fn from(c: ControlCharacter) -> (b: u8) {
        match c {
            ControlCharacter::NUL => 0x00,
            ControlCharacter::CtrlA => 0x01,
            ControlCharacter::CtrlB => 0x02,
            ControlCharacter::CtrlC => 0x03,
            ControlCharacter::CtrlD => 0x04,
            ControlCharacter::CtrlE => 0x05,
            ControlCharacter::CtrlF => 0x06,
            ControlCharacter::CtrlG => 0x07,
            ControlCharacter::CtrlH => 0x08,
            ControlCharacter::Tab => 0x09,
            ControlCharacter::LineFeed => 0x0a,
            ControlCharacter::CtrlK => 0x0b,
            ControlCharacter::CtrlL => 0x0c,
            ControlCharacter::CarriageReturn => 0x0d,
            ControlCharacter::CtrlN => 0x0e,
            ControlCharacter::CtrlO => 0x0f,
            ControlCharacter::CtrlP => 0x10,
            ControlCharacter::CtrlQ => 0x11,
            ControlCharacter::CtrlR => 0x12,
            ControlCharacter::CtrlS => 0x13,
            ControlCharacter::CtrlT => 0x14,
            ControlCharacter::CtrlU => 0x15,
            ControlCharacter::CtrlV => 0x16,
            ControlCharacter::CtrlW => 0x17,
            ControlCharacter::CtrlX => 0x18,
            ControlCharacter::CtrlY => 0x19,
            ControlCharacter::CtrlZ => 0x1a,
            ControlCharacter::Escape => 0x1b,
            ControlCharacter::FS => 0x1c,
            ControlCharacter::GS => 0x1d,
            ControlCharacter::RS => 0x1e,
            ControlCharacter::US => 0x1f,
            ControlCharacter::Backspace => 0x7f,
        }
    }
}

impl vstd::std_specs::convert::FromSpecImpl<ControlCharacter> for u8 {
    open spec fn obeys_from_spec() -> bool {
        true
    }

    open spec fn from_spec(c: ControlCharacter) -> u8 {
        control_byte(c)
    }
}

/// Law: the byte of every control character reads back as that
/// character.
pub proof fn lemma_control_byte_roundtrip(c: ControlCharacter)
    ensures
        is_control_byte(control_byte(c)),
{
}

/// Law: two control characters with the same byte are the same.
pub proof fn lemma_control_byte_injective(a: ControlCharacter, b: ControlCharacter)
    requires
        control_byte(a) == control_byte(b),
    ensures
        a == b,
{
}

} // verus!
