use vstd::prelude::*;

use super::byte::{byte_type_of, encoding_len, is_cont, Utf8Byte, Utf8ByteType};
use super::char::{lemma_padded_array, padded_array, zero_padded, Utf8Char};

verus! {

broadcast use vstd::array::group_array_axioms;

/// Progress of a [`Utf8Decoder`] through one encoded character.
#[derive(Debug, Eq, PartialEq, Copy, Clone, Structural)]
pub enum Utf8DecoderState {
    New,
    ExpectingOneByte,
    ExpectingTwoBytes,
    ExpectingThreeBytes,
    Done,
}

/// What a decoder reports after each byte.
#[derive(Debug, Eq, PartialEq)]
pub enum Utf8DecoderStatus {
    Continuation,
    Done(Utf8Char),
    Error,
}

/// Decodes one UTF-8 encoded character, one byte at a time.
#[derive(Debug, Eq, PartialEq, Clone, Copy)]
pub struct Utf8Decoder {
    state: Utf8DecoderState,
    buf: [u8; 4],
    pos: usize,
}

/// Number of continuation bytes a state still waits for.
pub open spec fn expected_count(s: Utf8DecoderState) -> nat {
    match s {
        Utf8DecoderState::ExpectingOneByte => 1,
        Utf8DecoderState::ExpectingTwoBytes => 2,
        Utf8DecoderState::ExpectingThreeBytes => 3,
        _ => 0,
    }
}

/// The state that waits for `k` more continuation bytes.
pub open spec fn expecting(k: nat) -> Utf8DecoderState {
    if k == 1 {
        Utf8DecoderState::ExpectingOneByte
    } else if k == 2 {
        Utf8DecoderState::ExpectingTwoBytes
    } else {
        Utf8DecoderState::ExpectingThreeBytes
    }
}

/// One step of the decoder on `byte`: the decoder afterwards and the
/// status it reports.
///
/// A fresh decoder takes any byte: a single-byte character is done at
/// once, a start byte opens a multi-byte character, and anything else is
/// an error that ends the decoder. While a multi-byte character is open a
/// continuation byte is taken (completing the character when it is the
/// last one) and any other byte is an error that leaves the decoder as
/// it was. A finished decoder answers every byte with an error.
pub open spec fn decoder_step(d: Utf8Decoder, byte: u8) -> (Utf8Decoder, Utf8DecoderStatus) {
    let state = d.spec_state();
    let received = d.received();
    match state {
        Utf8DecoderState::New => {
            let r = seq![byte];
            let t = byte_type_of(byte);
            if t == Utf8ByteType::SingleByte {
                (
                    Utf8Decoder::from_parts(Utf8DecoderState::Done, r),
                    Utf8DecoderStatus::Done(Utf8Char::spec_from_bytes(r)),
                )
            } else if encoding_len(t) > 1 {
                (
                    Utf8Decoder::from_parts(expecting((encoding_len(t) - 1) as nat), r),
                    Utf8DecoderStatus::Continuation,
                )
            } else {
                (Utf8Decoder::from_parts(Utf8DecoderState::Done, r), Utf8DecoderStatus::Error)
            }
        },
        Utf8DecoderState::Done => (d, Utf8DecoderStatus::Error),
        _ => {
            if is_cont(byte) {
                let r = received.push(byte);
                if expected_count(state) == 1 {
                    (
                        Utf8Decoder::from_parts(Utf8DecoderState::Done, r),
                        Utf8DecoderStatus::Done(Utf8Char::spec_from_bytes(r)),
                    )
                } else {
                    (
                        Utf8Decoder::from_parts(expecting((expected_count(state) - 1) as nat), r),
                        Utf8DecoderStatus::Continuation,
                    )
                }
            } else {
                (d, Utf8DecoderStatus::Error)
            }
        },
    }
}

/// Feeds `bytes` in order: the decoder at the end and the statuses
/// reported, one per byte.
pub open spec fn decoder_run(d: Utf8Decoder, bytes: Seq<u8>) -> (Utf8Decoder, Seq<Utf8DecoderStatus>)
    decreases bytes.len(),
{
    if bytes.len() == 0 {
        (d, Seq::empty())
    } else {
        let (d1, status) = decoder_step(d, bytes[0]);
        let (d2, rest) = decoder_run(d1, bytes.drop_first());
        (d2, seq![status] + rest)
    }
}

/// The bytes are the complete encoding of one character in the form the
/// decoder reads: a start byte followed by as many continuation bytes as
/// it announces.
pub open spec fn is_encoded_char(bytes: Seq<u8>) -> bool {
    &&& bytes.len() >= 1
    &&& encoding_len(byte_type_of(bytes[0])) == bytes.len()
    &&& forall|i: int| 1 <= i < bytes.len() ==> is_cont(#[trigger] bytes[i])
}

impl Utf8Decoder {
    /// The taken bytes sit at the front of the buffer with zeros after
    /// them, and the state agrees with how many were taken and with what
    /// the start byte announced.
    pub closed spec fn wf(&self) -> bool {
        &&& self.pos <= 4
        &&& self.buf@ == zero_padded(self.buf@.subrange(0, self.pos as int))
        &&& (self.state == Utf8DecoderState::New <==> self.pos == 0)
        &&& expected_count(self.state) > 0 ==> {
            &&& self.pos >= 1
            &&& self.pos + expected_count(self.state) == encoding_len(byte_type_of(self.buf[0]))
        }
    }

    /// Where the decoder is in its character.
    pub closed spec fn spec_state(&self) -> Utf8DecoderState {
        self.state
    }

    /// The bytes taken so far.
    pub closed spec fn received(&self) -> Seq<u8> {
        self.buf@.subrange(0, self.pos as int)
    }

    /// The decoder in `state` that has taken `received`.
    pub closed spec fn from_parts(state: Utf8DecoderState, received: Seq<u8>) -> Utf8Decoder {
        Utf8Decoder { state, buf: padded_array(received), pos: received.len() as usize }
    }

    proof fn lemma_from_parts(state: Utf8DecoderState, received: Seq<u8>)
        requires
            received.len() <= 4,
        ensures
            Self::from_parts(state, received).spec_state() == state,
            Self::from_parts(state, received).received() == received,
            ((state == Utf8DecoderState::New <==> received.len() == 0) && (expected_count(state) > 0
                ==> received.len() >= 1 && received.len() + expected_count(state) == encoding_len(
                byte_type_of(received[0])))) ==> Self::from_parts(state, received).wf(),
    {
        let d = Self::from_parts(state, received);
        lemma_padded_array(received);
        assert(d.buf@ =~= zero_padded(received));
        assert(d.received() =~= received);
    }

    /// A well-formed decoder is the one built from its state and bytes.
    proof fn lemma_wf_from_parts(d: Utf8Decoder)
        requires
            d.wf(),
        ensures
            d == Self::from_parts(d.spec_state(), d.received()),
    {
        let e = Self::from_parts(d.spec_state(), d.received());
        lemma_padded_array(d.received());
        assert(d.buf@ =~= e.buf@);
        assert(d.buf == e.buf);
    }

    /// A fresh decoder.
    pub open spec fn spec_new() -> Utf8Decoder {
        Self::from_parts(Utf8DecoderState::New, Seq::empty())
    }

    pub fn new() -> (d: Self)
        ensures
            d == Self::spec_new(),
            d.wf(),
            d.spec_state() == Utf8DecoderState::New,
            d.received() == Seq::<u8>::empty(),
    {
        let d = Self { state: Utf8DecoderState::New, buf: [0, 0, 0, 0], pos: 0 };
        proof {
            Self::lemma_from_parts(Utf8DecoderState::New, Seq::empty());
            assert(d.buf@ =~= zero_padded(d.buf@.subrange(0, 0)));
            assert(d.buf == padded_array(Seq::empty()));
        }
        d
    }

    fn insert_byte(&mut self, byte: u8) -> (r: Result<(), ()>)
        requires
            old(self).pos < 4,
        ensures
            old(self).pos > 0 && !is_cont(byte) ==> r is Err && *final(self) == *old(self),
            !(old(self).pos > 0 && !is_cont(byte)) ==> {
                &&& r is Ok
                &&& final(self).buf@ == old(self).buf@.update(old(self).pos as int, byte)
                &&& final(self).pos == old(self).pos + 1
                &&& final(self).state == old(self).state
            },
    {
        if self.pos > 0 && !byte.utf8_is_continuation() {
            return Err(());
        }
        self.buf[self.pos] = byte;
        self.pos += 1;

        Ok(())
    }

    /// Takes the next byte; see [`decoder_step`].
    pub fn advance(&mut self, byte: u8) -> (status: Utf8DecoderStatus)
        requires
            old(self).wf(),
        ensures
            final(self).wf(),
            (*final(self), status) == decoder_step(*old(self), byte),
            status is Continuation ==> expected_count(final(self).spec_state()) > 0,
            status is Done ==> final(self).spec_state() == Utf8DecoderState::Done,
            old(self).spec_state() == Utf8DecoderState::New && status is Error
                ==> final(self).spec_state() == Utf8DecoderState::Done,
            old(self).spec_state() == Utf8DecoderState::Done ==> status is Error && *final(self)
                == *old(self),
    {
        let ghost old_self = *self;
        let ghost old_received = self.received();
        let status = match self.state {
            Utf8DecoderState::New => {
                let _ = self.insert_byte(byte);
                let t = self.buf[0].utf8_byte_type();
                match t {
                    Utf8ByteType::SingleByte => {
                        self.state = Utf8DecoderState::Done;
                        Utf8DecoderStatus::Done(Utf8Char::new(&self.buf, 1))
                    },
                    Utf8ByteType::StartTwoByte => {
                        self.state = Utf8DecoderState::ExpectingOneByte;
                        Utf8DecoderStatus::Continuation
                    },
                    Utf8ByteType::StartThreeByte => {
                        self.state = Utf8DecoderState::ExpectingTwoBytes;
                        Utf8DecoderStatus::Continuation
                    },
                    Utf8ByteType::StartFourByte => {
                        self.state = Utf8DecoderState::ExpectingThreeBytes;
                        Utf8DecoderStatus::Continuation
                    },
                    Utf8ByteType::Continuation | Utf8ByteType::Invalid => {
                        self.state = Utf8DecoderState::Done;
                        Utf8DecoderStatus::Error
                    },
                }
            },
            Utf8DecoderState::ExpectingOneByte => {
                if self.insert_byte(byte).is_ok() {
                    self.state = Utf8DecoderState::Done;
                    Utf8DecoderStatus::Done(Utf8Char::new(&self.buf, self.pos))
                } else {
                    Utf8DecoderStatus::Error
                }
            },
            Utf8DecoderState::ExpectingTwoBytes => {
                if self.insert_byte(byte).is_ok() {
                    self.state = Utf8DecoderState::ExpectingOneByte;
                    Utf8DecoderStatus::Continuation
                } else {
                    Utf8DecoderStatus::Error
                }
            },
            Utf8DecoderState::ExpectingThreeBytes => {
                if self.insert_byte(byte).is_ok() {
                    self.state = Utf8DecoderState::ExpectingTwoBytes;
                    Utf8DecoderStatus::Continuation
                } else {
                    Utf8DecoderStatus::Error
                }
            },
            Utf8DecoderState::Done => Utf8DecoderStatus::Error,
        };
        proof {
            let (d2, s2) = decoder_step(old_self, byte);
            if old_self.state == Utf8DecoderState::New {
                assert(self.buf[0] == byte);
            }
            if self.pos != old_self.pos {
                let r = old_received.push(byte);
                assert(self.buf@ =~= zero_padded(r));
                assert(self.received() =~= r);
                Self::lemma_from_parts(self.state, r);
                Self::lemma_wf_from_parts(*self);
                if let Utf8DecoderStatus::Done(c) = status {
                    Utf8Char::lemma_spec_from_bytes(r);
                    assert(c@ =~= r);
                    assert(c.padded() == self.buf@);
                    Utf8Char::lemma_canonical_from_bytes(c);
                    assert(c == Utf8Char::spec_from_bytes(r));
                    assert(status == Utf8DecoderStatus::Done(Utf8Char::spec_from_bytes(r)));
                }
                if old_self.state == Utf8DecoderState::New {
                    assert(r =~= seq![byte]);
                }
                assert(*self == d2);
                assert(status == s2);
            } else {
                assert(*self == d2);
                assert(status == s2);
            }
        }
        status
    }
}

/// Law: a fresh decoder fed the complete encoding of one character
/// reports `Continuation` for every byte but the last and, for the last,
/// `Done` with the character made of exactly those bytes.
pub proof fn lemma_decodes_encoded_char(bytes: Seq<u8>)
    requires
        is_encoded_char(bytes),
    ensures
        ({
            let (_, statuses) = decoder_run(Utf8Decoder::spec_new(), bytes);
            &&& statuses.len() == bytes.len()
            &&& forall|i: int| 0 <= i < bytes.len() - 1 ==> #[trigger] statuses[i]
                == Utf8DecoderStatus::Continuation
            &&& statuses[bytes.len() - 1] == Utf8DecoderStatus::Done(Utf8Char::spec_from_bytes(bytes))
            &&& Utf8Char::spec_from_bytes(bytes)@ == bytes
        }),
{
    Utf8Char::lemma_spec_from_bytes(bytes);
    Utf8Decoder::lemma_from_parts(Utf8DecoderState::New, Seq::empty());
    let d0 = Utf8Decoder::spec_new();
    assert(d0.received() =~= bytes.subrange(0, 0));
    assert(bytes.subrange(0, bytes.len() as int) =~= bytes);
    lemma_run_open(d0, bytes, 0);
}

/// A finished decoder stays as it is and answers every byte with
/// `Error`.
proof fn lemma_finished_run(d: Utf8Decoder, bytes: Seq<u8>)
    requires
        d.spec_state() == Utf8DecoderState::Done,
    ensures
        decoder_run(d, bytes).0 == d,
        decoder_run(d, bytes).1 == Seq::new(bytes.len(), |i: int| Utf8DecoderStatus::Error),
    decreases bytes.len(),
{
    if bytes.len() > 0 {
        lemma_finished_run(d, bytes.drop_first());
        assert(decoder_run(d, bytes).1 =~= Seq::new(bytes.len(), |i: int| Utf8DecoderStatus::Error));
    } else {
        assert(decoder_run(d, bytes).1 =~= Seq::new(bytes.len(), |i: int| Utf8DecoderStatus::Error));
    }
}

/// Law: once the decoder has reported a character (or, from a fresh
/// start, an error), it answers every later byte with `Error`.
pub proof fn lemma_finished_decoder_errs(d: Utf8Decoder, byte: u8, later: Seq<u8>)
    requires
        d.wf(),
        decoder_step(d, byte).1 is Done || (d.spec_state() == Utf8DecoderState::New
            && decoder_step(d, byte).1 is Error),
    ensures
        forall|i: int|
            0 <= i < later.len() ==> #[trigger] decoder_run(decoder_step(d, byte).0, later).1[i]
                == Utf8DecoderStatus::Error,
{
    let d1 = decoder_step(d, byte).0;
    let r = if d.spec_state() == Utf8DecoderState::New {
        seq![byte]
    } else {
        d.received().push(byte)
    };
    Utf8Decoder::lemma_from_parts(Utf8DecoderState::Done, r);
    lemma_finished_run(d1, later);
}

/// Feeding the encoding from byte `k` on, to a decoder that has taken
/// the first `k` bytes, reports what the law above says of those bytes.
proof fn lemma_run_open(d: Utf8Decoder, bytes: Seq<u8>, k: int)
    requires
        is_encoded_char(bytes),
        0 <= k < bytes.len(),
        k == 0 ==> d.spec_state() == Utf8DecoderState::New,
        k > 0 ==> d.spec_state() == expecting((bytes.len() - k) as nat),
        d.received() == bytes.subrange(0, k),
    ensures
        ({
            let (_, statuses) = decoder_run(d, bytes.subrange(k, bytes.len() as int));
            &&& statuses.len() == bytes.len() - k
            &&& forall|i: int| 0 <= i < bytes.len() - k - 1 ==> #[trigger] statuses[i]
                == Utf8DecoderStatus::Continuation
            &&& statuses[bytes.len() - k - 1] == Utf8DecoderStatus::Done(Utf8Char::spec_from_bytes(bytes))
        }),
    decreases bytes.len() - k,
{
    let rest = bytes.subrange(k, bytes.len() as int);
    let b = bytes[k];
    let (d1, s1) = decoder_step(d, b);
    let r = bytes.subrange(0, k + 1);
    assert(d.received().push(b) =~= r);
    if k == 0 {
        assert(seq![b] =~= r);
    }
    Utf8Decoder::lemma_from_parts(d1.spec_state(), r);
    assert(rest.drop_first() =~= bytes.subrange(k + 1, bytes.len() as int));
    if k == 0 {
        assert(byte_type_of(b) != Utf8ByteType::Continuation);
    } else {
        assert(is_cont(b));
    }
    if k + 1 == bytes.len() {
        assert(r =~= bytes);
        assert(rest.drop_first().len() == 0);
        let (_, tail) = decoder_run(d1, rest.drop_first());
        assert(tail.len() == 0);
        assert(decoder_run(d, rest).1 =~= seq![s1]);
    } else {
        Utf8Decoder::lemma_from_parts(expecting((bytes.len() - k - 1) as nat), r);
        lemma_run_open(d1, bytes, k + 1);
        let (_, tail) = decoder_run(d1, bytes.subrange(k + 1, bytes.len() as int));
        assert(decoder_run(d, rest).1 =~= seq![s1] + tail);
    }
}

} // verus!
