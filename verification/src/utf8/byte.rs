use vstd::prelude::*;

verus! {

/// Role of a single byte in a UTF-8 encoded sequence.
#[derive(PartialEq, Eq, Copy, Clone, Debug, Structural)]
pub enum Utf8ByteType {
    SingleByte,
    StartTwoByte,
    StartThreeByte,
    StartFourByte,
    Continuation,
    Invalid,
}

/// The role of `byte`, read off its value range (which is what its
/// high bits decide).
pub open spec fn byte_type_of(byte: u8) -> Utf8ByteType {
    if byte < 0x80 {
        Utf8ByteType::SingleByte
    } else if byte < 0xc0 {
        Utf8ByteType::Continuation
    } else if byte < 0xe0 {
        Utf8ByteType::StartTwoByte
    } else if byte < 0xf0 {
        Utf8ByteType::StartThreeByte
    } else if byte < 0xf8 {
        Utf8ByteType::StartFourByte
    } else {
        Utf8ByteType::Invalid
    }
}

/// Number of bytes of the encoding that a start byte of this type opens.
pub open spec fn encoding_len(t: Utf8ByteType) -> nat {
    match t {
        Utf8ByteType::SingleByte => 1,
        Utf8ByteType::StartTwoByte => 2,
        Utf8ByteType::StartThreeByte => 3,
        Utf8ByteType::StartFourByte => 4,
        _ => 0,
    }
}

/// A byte that continues a multi-byte encoding (`10xxxxxx`).
pub open spec fn is_cont(byte: u8) -> bool {
    0x80 <= byte < 0xc0
}

pub trait Utf8Byte {
    spec fn spec_byte_type(&self) -> Utf8ByteType;

    spec fn spec_is_continuation(&self) -> bool;

    fn utf8_byte_type(&self) -> (t: Utf8ByteType)
        ensures
            t == self.spec_byte_type(),
    ;

    fn utf8_is_continuation(&self) -> (b: bool)
        ensures
            b == self.spec_is_continuation(),
    ;
}

impl Utf8Byte for u8 {
    open spec fn spec_byte_type(&self) -> Utf8ByteType {
        byte_type_of(*self)
    }

    open spec fn spec_is_continuation(&self) -> bool {
        is_cont(*self)
    }

    fn utf8_byte_type(&self) -> (t: Utf8ByteType) {
        let byte = *self;

        if byte & 0b10000000 == 0 {
            assert(byte & 0b10000000 == 0 ==> byte < 0x80) by (bit_vector);
            Utf8ByteType::SingleByte
        } else if byte & 0b11000000 == 0b10000000 {
            assert(byte & 0b11000000 == 0b10000000 ==> 0x80 <= byte < 0xc0) by (bit_vector);
            Utf8ByteType::Continuation
        } else if byte & 0b11100000 == 0b11000000 {
            assert(byte & 0b11100000 == 0b11000000 ==> 0xc0 <= byte < 0xe0) by (bit_vector);
            Utf8ByteType::StartTwoByte
        } else if byte & 0b11110000 == 0b11100000 {
            assert(byte & 0b11110000 == 0b11100000 ==> 0xe0 <= byte < 0xf0) by (bit_vector);
            Utf8ByteType::StartThreeByte
        } else if byte & 0b11111000 == 0b11110000 {
            assert(byte & 0b11111000 == 0b11110000 ==> 0xf0 <= byte < 0xf8) by (bit_vector);
            Utf8ByteType::StartFourByte
        } else {
            assert(byte & 0b10000000 != 0 && byte & 0b11000000 != 0b10000000 && byte
                & 0b11100000 != 0b11000000 && byte & 0b11110000 != 0b11100000 && byte
                & 0b11111000 != 0b11110000 ==> byte >= 0xf8) by (bit_vector);
            Utf8ByteType::Invalid
        }
    }

    fn utf8_is_continuation(&self) -> (b: bool) {
        matches!(self.utf8_byte_type(), Utf8ByteType::Continuation)
    }
}

} // verus!
