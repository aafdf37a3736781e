use vstd::prelude::*;
use vstd::utf8::*;
use vstd::string::StringSliceAdditionalSpecFns;

use super::byte::{byte_type_of, is_cont, Utf8Byte, Utf8ByteType};

verus! {

broadcast use vstd::array::group_array_axioms;

/// A single character held as its UTF-8 bytes (at most four).
#[derive(PartialEq, Eq, Copy, Clone, Debug)]
pub struct Utf8Char {
    buf: [u8; 4],
    len: u8,
}

/// The four-byte array holding `s` followed by zero bytes.
pub open spec fn padded_array(s: Seq<u8>) -> [u8; 4] {
    let p = zero_padded(s);
    [p[0], p[1], p[2], p[3]]
}

pub proof fn lemma_padded_array(s: Seq<u8>)
    ensures
        padded_array(s)@ == zero_padded(s),
{
    assert(padded_array(s)@ =~= zero_padded(s));
}

/// `s` followed by zero bytes up to four bytes.
pub open spec fn zero_padded(s: Seq<u8>) -> Seq<u8> {
    Seq::new(4, |i: int| if i < s.len() { s[i] } else { 0u8 })
}

impl View for Utf8Char {
    type V = Seq<u8>;

    /// The encoded bytes of the character.
    closed spec fn view(&self) -> Seq<u8> {
        self.buf@.subrange(0, self.len as int)
    }
}

impl Utf8Char {
    #[verifier::type_invariant]
    closed spec fn inv(self) -> bool {
        self.len <= 4
    }

    /// All four stored bytes, the unused ones included.
    pub closed spec fn padded(&self) -> Seq<u8> {
        self.buf@
    }

    /// At most four bytes are in use and the unused ones are zero, as in
    /// every character built from a byte sequence.
    pub closed spec fn is_canonical(&self) -> bool {
        &&& self.len <= 4
        &&& self.buf@ == zero_padded(self@)
    }

    /// The canonical character with the bytes `s`.
    pub closed spec fn spec_from_bytes(s: Seq<u8>) -> Utf8Char {
        Utf8Char { buf: padded_array(s), len: s.len() as u8 }
    }

    pub proof fn lemma_spec_from_bytes(s: Seq<u8>)
        requires
            s.len() <= 4,
        ensures
            Self::spec_from_bytes(s)@ == s,
            Self::spec_from_bytes(s).is_canonical(),
    {
        let c = Self::spec_from_bytes(s);
        assert(c.buf@ =~= zero_padded(s));
        assert(c@ =~= s);
    }

    /// A canonical character is the one built from its bytes.
    pub proof fn lemma_canonical_from_bytes(c: Utf8Char)
        requires
            c.is_canonical(),
        ensures
            c == Self::spec_from_bytes(c@),
    {
        Self::lemma_spec_from_bytes(c@);
        Self::lemma_canonical_eq(c, Self::spec_from_bytes(c@));
    }

    /// Two canonical characters with the same bytes are the same value.
    pub proof fn lemma_canonical_eq(a: Utf8Char, b: Utf8Char)
        requires
            a.is_canonical(),
            b.is_canonical(),
            a@ == b@,
        ensures
            a == b,
    {
        assert(a.buf@ =~= b.buf@);
        assert(a.buf == b.buf);
        assert(a@.len() == a.len);
        assert(b@.len() == b.len);
    }

    pub fn new(bytes: &[u8; 4], len: usize) -> (c: Self)
        requires
            len <= 4,
        ensures
            c@ == bytes@.subrange(0, len as int),
            c.padded() == bytes@,
            bytes@ == zero_padded(bytes@.subrange(0, len as int)) ==> c.is_canonical(),
    {
        Self { len: len as u8, buf: *bytes }
    }

    /// The character whose UTF-8 encoding is the bytes of `s`.
    pub fn from_str(s: &str) -> (c: Self)
        requires
            s.spec_bytes().len() <= 4,
        ensures
            c@ == s.spec_bytes(),
            c.is_canonical(),
    {
        let bytes = s.as_bytes();
        let mut buf: [u8; 4] = [0; 4];
        let mut i: usize = 0;
        while i < bytes.len()
            invariant
                bytes@ == s.spec_bytes(),
                bytes@.len() <= 4,
                0 <= i <= bytes@.len(),
                buf@ == zero_padded(bytes@.subrange(0, i as int)),
            decreases bytes@.len() - i,
        {
            buf[i] = bytes[i];
            i += 1;
            assert(buf@ =~= zero_padded(bytes@.subrange(0, i as int)));
        }
        let c = Self { len: bytes.len() as u8, buf };
        assert(bytes@.subrange(0, bytes@.len() as int) =~= bytes@);
        assert(c@ =~= s.spec_bytes());
        c
    }

    /// The bytes of the character.
    pub fn as_bytes(&self) -> (b: &[u8])
        ensures
            b@ == self@,
            b@.len() <= 4,
    {
        proof {
            use_type_invariant(self);
        }
        let len = self.len as usize;
        self.buf.as_slice().split_at(len).0
    }

    /// The code point folded from the bytes (see `fold_codepoint`), or
    /// `None` when a byte can be no part of UTF-8.
    pub fn folded(&self) -> (r: Option<u32>)
        ensures
            r is Some <==> no_invalid_byte(self@),
            r matches Some(u) ==> u == fold_codepoint(self@, self@.len() as int),
    {
        let bytes = self.as_bytes();
        let mut codepoint: u32 = 0;
        let mut i: usize = 0;
        while i < bytes.len()
            invariant
                bytes@ == self@,
                0 <= i <= bytes@.len(),
                codepoint == fold_codepoint(bytes@, i as int),
                forall|j: int| 0 <= j < i ==> byte_type_of(#[trigger] bytes@[j]) != Utf8ByteType::Invalid,
            decreases bytes@.len() - i,
        {
            let b = bytes[i];
            codepoint = match b.utf8_byte_type() {
                Utf8ByteType::SingleByte => b as u32,
                Utf8ByteType::StartTwoByte => (b & 0x1f) as u32,
                Utf8ByteType::StartThreeByte => (b & 0xf) as u32,
                Utf8ByteType::StartFourByte => (b & 0x7) as u32,
                Utf8ByteType::Continuation => (codepoint << 6) | (b & 0x3f) as u32,
                Utf8ByteType::Invalid => {
                    return None;
                },
            };
            i += 1;
        }
        Some(codepoint)
    }

    /// The character whose code point the bytes fold to.
    pub fn as_char(&self) -> (c: char)
        requires
            no_invalid_byte(self@),
            is_scalar(fold_codepoint(self@, self@.len() as int)),
        ensures
            c as u32 == fold_codepoint(self@, self@.len() as int),
    {
        let codepoint = match self.folded() {
            Some(u) => u,
            None => {
                proof {
                    assert(false);
                }
                0
            },
        };
        match char_from_u32(codepoint) {
            Some(c) => c,
            None => {
                proof {
                    assert(false);
                }
                '\0'
            },
        }
    }
}

/// No byte of `bytes` is one that never occurs in UTF-8.
pub open spec fn no_invalid_byte(bytes: Seq<u8>) -> bool {
    forall|j: int| 0 <= j < bytes.len() ==> byte_type_of(#[trigger] bytes[j]) != Utf8ByteType::Invalid
}

/// A Unicode scalar value: at most 0x10FFFF and no surrogate.
pub open spec fn is_scalar(u: u32) -> bool {
    u <= 0x10ffff && !(0xd800 <= u <= 0xdfff)
}

/// The code point folded from the first `i` bytes: a start byte sets it
/// to its data bits, a continuation byte shifts in six more.
pub open spec fn fold_codepoint(bytes: Seq<u8>, i: int) -> u32
    decreases i,
{
    if i <= 0 {
        0
    } else {
        let b = bytes[i - 1];
        match byte_type_of(b) {
            Utf8ByteType::SingleByte => b as u32,
            Utf8ByteType::StartTwoByte => (b & 0x1f) as u32,
            Utf8ByteType::StartThreeByte => (b & 0xf) as u32,
            Utf8ByteType::StartFourByte => (b & 0x7) as u32,
            Utf8ByteType::Continuation => (fold_codepoint(bytes, i - 1) << 6) | (b & 0x3f) as u32,
            Utf8ByteType::Invalid => 0,
        }
    }
}

/// On the bytes of one well-formed character the fold follows the
/// encoding: it agrees with `partial_codepoint` byte by byte.
proof fn lemma_fold_partial(bytes: Seq<u8>, i: int)
    requires
        valid_first_scalar(bytes),
        length_of_first_scalar(bytes) == bytes.len(),
        1 <= i <= bytes.len(),
    ensures
        fold_codepoint(bytes, i) == partial_codepoint(bytes, i),
        no_invalid_byte(bytes.subrange(0, i)),
    decreases i,
{
    if i > 1 {
        lemma_fold_partial(bytes, i - 1);
        lemma_partial_codepoint_small(bytes, i - 1);
        assert forall|j: int| 0 <= j < i implies byte_type_of(
            #[trigger] bytes.subrange(0, i)[j],
        ) != Utf8ByteType::Invalid by {
            if j < i - 1 {
                assert(bytes.subrange(0, i)[j] == bytes.subrange(0, i - 1)[j]);
            }
        }
    }
}

/// Law: on the bytes of one well-formed character, `as_char` can be
/// called and gives that character.
pub proof fn lemma_fold_is_decoded(bytes: Seq<u8>)
    requires
        valid_first_scalar(bytes),
        length_of_first_scalar(bytes) == bytes.len(),
    ensures
        no_invalid_byte(bytes),
        fold_codepoint(bytes, bytes.len() as int) == decode_first_scalar(bytes),
        is_scalar(fold_codepoint(bytes, bytes.len() as int)),
{
    lemma_fold_partial(bytes, bytes.len() as int);
    assert(bytes.subrange(0, bytes.len() as int) =~= bytes);
    lemma_partial_codepoint_full(bytes);
}

/// The code point accumulated from the first `i` bytes of a single
/// encoding: the data bits of the start byte, then six bits for each
/// continuation byte.
pub open spec fn partial_codepoint(bytes: Seq<u8>, i: int) -> u32
    decreases i,
{
    if i <= 1 {
        let b = bytes[0];
        if b < 0x80 {
            b as u32
        } else if b < 0xe0 {
            (b & 0x1f) as u32
        } else if b < 0xf0 {
            (b & 0xf) as u32
        } else {
            (b & 0x7) as u32
        }
    } else {
        (partial_codepoint(bytes, i - 1) << 6) | (bytes[i - 1] & 0x3f) as u32
    }
}

proof fn lemma_partial_codepoint_small(bytes: Seq<u8>, i: int)
    requires
        valid_first_scalar(bytes),
        length_of_first_scalar(bytes) == bytes.len(),
        1 <= i < bytes.len(),
    ensures
        byte_type_of(bytes[i]) == Utf8ByteType::Continuation,
{
}

proof fn lemma_partial_codepoint_full(bytes: Seq<u8>)
    requires
        valid_first_scalar(bytes),
        length_of_first_scalar(bytes) == bytes.len(),
    ensures
        partial_codepoint(bytes, bytes.len() as int) == decode_first_scalar(bytes),
        decode_first_scalar(bytes) <= 0x10ffff,
{
    reveal_with_fuel(partial_codepoint, 4);
    let b0 = bytes[0];
    if bytes.len() == 1 {
        assert(b0 < 0x80 ==> (b0 & 0x7f) as u32 == b0 as u32) by (bit_vector);
    } else if bytes.len() == 2 {
        let b1 = bytes[1];
        assert((((b0 & 0x1f) as u32) << 6) | ((b1 & 0x3f) as u32) <= 0x7ff) by (bit_vector);
    } else if bytes.len() == 3 {
        let b1 = bytes[1];
        let b2 = bytes[2];
        assert(((((b0 & 0xf) as u32) << 6 | (b1 & 0x3f) as u32) << 6) | (b2 & 0x3f) as u32 == (((
        b0 & 0x0f) as u32) << 12) | (((b1 & 0x3f) as u32) << 6) | ((b2 & 0x3f) as u32))
            by (bit_vector);
        assert((((b0 & 0x0f) as u32) << 12) | (((b1 & 0x3f) as u32) << 6) | ((b2 & 0x3f) as u32)
            <= 0xffff) by (bit_vector);
    } else {
        let b1 = bytes[1];
        let b2 = bytes[2];
        let b3 = bytes[3];
        assert(((((((b0 & 0x7) as u32) << 6 | (b1 & 0x3f) as u32) << 6) | (b2 & 0x3f) as u32) << 6)
            | (b3 & 0x3f) as u32 == (((b0 & 0x07) as u32) << 18) | (((b1 & 0x3f) as u32) << 12)
            | (((b2 & 0x3f) as u32) << 6) | ((b3 & 0x3f) as u32)) by (bit_vector);
    }
}

/// Converts a code point to a `char` with `char::from_u32`, which returns
/// `Some` exactly for Unicode scalar values (at most 0x10FFFF and outside
/// the surrogate range 0xD800..=0xDFFF), holding that value.
#[verifier::external_body]
fn char_from_u32(u: u32) -> (c: Option<char>)
    ensures
        (u <= 0x10ffff && !(0xd800 <= u <= 0xdfff)) <==> c is Some,
        c matches Some(ch) ==> ch as u32 == u,
{
    core::char::from_u32(u)
}

} // verus!
