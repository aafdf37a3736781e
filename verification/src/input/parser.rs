use vstd::prelude::*;

use super::action::{control_of, Action};
use super::control_char::is_control_byte;
use super::csi::csi_of;
use super::state::{state_wf, State};
use crate::utf8::{
    decoder_run, decoder_step, expected_count, is_encoded_char, lemma_decodes_encoded_char,
    Utf8Char, Utf8Decoder, Utf8DecoderState, Utf8DecoderStatus,
};

verus! {

/// Turns input bytes into [`Action`]s.
#[derive(Clone, Copy)]
pub struct Parser {
    state: State,
}

/// An ASCII decimal digit.
pub open spec fn is_digit(byte: u8) -> bool {
    0x30 <= byte <= 0x39
}

/// A final byte of a control sequence.
pub open spec fn is_final_byte(byte: u8) -> bool {
    0x40 <= byte <= 0x7e
}

/// The parameter `value` (absent counts as 0) with the digit `byte`
/// appended.
pub open spec fn push_digit(value: Option<usize>, byte: u8) -> int {
    value.unwrap_or(0) * 10 + (byte - 0x30)
}

/// Appending the digit `byte` to the parameter being read would not fit
/// in a `usize`.
pub open spec fn step_overflows(s: State, byte: u8) -> bool {
    is_digit(byte) && match s {
        State::CSIArg1(v) => push_digit(v, byte) > usize::MAX,
        State::CSIArg2(_, v) => push_digit(v, byte) > usize::MAX,
        _ => false,
    }
}

/// The parser's state after a decoder step and the action it yields.
pub open spec fn after_decoder(d: Utf8Decoder, status: Utf8DecoderStatus) -> (State, Action) {
    match status {
        Utf8DecoderStatus::Continuation => (State::Utf8Sequence(Some(d)), Action::Ignore),
        Utf8DecoderStatus::Done(c) => (State::Ground, Action::Print(c)),
        Utf8DecoderStatus::Error => (State::Ground, Action::InvalidUtf8),
    }
}

/// One step of the parser on `byte`: the state afterwards and the action.
///
/// In the ground state ESC opens an escape sequence, a control byte is a
/// control character and any other byte goes to a fresh UTF-8 decoder.
/// After ESC, `[` opens a control sequence and any other byte is an
/// escape sequence. A control sequence collects up to two decimal
/// parameters separated by `;` and ends at a final byte (0x40..=0x7E);
/// other bytes inside it are ignored.
pub open spec fn parser_step(s: State, byte: u8) -> (State, Action) {
    match s {
        State::Ground => {
            if byte == 0x1b {
                (State::EscapeSequence, Action::Ignore)
            } else if is_control_byte(byte) {
                (State::Ground, Action::ControlCharacter(control_of(byte)))
            } else {
                let (d, status) = decoder_step(Utf8Decoder::spec_new(), byte);
                after_decoder(d, status)
            }
        },
        State::Utf8Sequence(Some(d)) => {
            let (d2, status) = decoder_step(d, byte);
            after_decoder(d2, status)
        },
        State::Utf8Sequence(None) => (s, Action::Ignore),
        State::EscapeSequence => {
            if byte == 0x5b {
                (State::CSIStart, Action::Ignore)
            } else {
                (State::Ground, Action::EscapeSequence(byte))
            }
        },
        State::CSIStart => {
            if is_digit(byte) {
                (State::CSIArg1(Some((byte - 0x30) as usize)), Action::Ignore)
            } else if byte == 0x3b {
                (State::CSIArg2(None, None), Action::Ignore)
            } else if is_final_byte(byte) {
                (State::Ground, Action::ControlSequenceIntroducer(csi_of(byte, None, None)))
            } else {
                (s, Action::Ignore)
            }
        },
        State::CSIArg1(v) => {
            if is_digit(byte) {
                (State::CSIArg1(Some(push_digit(v, byte) as usize)), Action::Ignore)
            } else if byte == 0x3b {
                (State::CSIArg2(v, None), Action::Ignore)
            } else if is_final_byte(byte) {
                (State::Ground, Action::ControlSequenceIntroducer(csi_of(byte, v, None)))
            } else {
                (s, Action::Ignore)
            }
        },
        State::CSIArg2(a1, a2) => {
            if is_digit(byte) {
                (State::CSIArg2(a1, Some(push_digit(a2, byte) as usize)), Action::Ignore)
            } else if is_final_byte(byte) {
                (State::Ground, Action::ControlSequenceIntroducer(csi_of(byte, a1, a2)))
            } else {
                (s, Action::Ignore)
            }
        },
    }
}

impl Parser {
    /// The parser's state.
    pub closed spec fn spec_state(&self) -> State {
        self.state
    }

    pub open spec fn wf(&self) -> bool {
        state_wf(self.spec_state())
    }

    pub fn new() -> (p: Self)
        ensures
            p.spec_state() == State::Ground,
            p.wf(),
    {
        Self { state: State::Ground }
    }

    /// The parser's state.
    pub fn state(&self) -> (s: &State)
        ensures
            *s == self.spec_state(),
    {
        &self.state
    }

    /// Whether taking `byte` would make a parameter too large for a
    /// `usize`; see [`step_overflows`].
    pub fn would_overflow(&self, byte: u8) -> (b: bool)
        ensures
            b == step_overflows(self.spec_state(), byte),
    {
        if byte < 0x30 || byte > 0x39 {
            return false;
        }
        let v = match &self.state {
            State::CSIArg1(v) => *v,
            State::CSIArg2(_, v) => *v,
            _ => {
                return false;
            },
        };
        let x: usize = match v {
            Some(x) => x,
            None => 0,
        };
        let d: usize = (byte - 0x30) as usize;
        match x.checked_mul(10) {
            None => true,
            Some(y) => y.checked_add(d).is_none(),
        }
    }

    /// Takes the next input byte; see [`parser_step`].
    pub fn advance(&mut self, byte: u8) -> (action: Action)
        requires
            old(self).wf(),
            !step_overflows(old(self).spec_state(), byte),
        ensures
            final(self).wf(),
            (final(self).spec_state(), action) == parser_step(old(self).spec_state(), byte),
    {
        let mut state = State::Ground;
        core::mem::swap(&mut state, &mut self.state);
        match state {
            State::Ground => match byte {
                0x1b => {
                    self.state = State::EscapeSequence;
                    Action::Ignore
                },
                0x0..=0x1a | 0x1c..=0x1f | 0x7f => Action::control_character(byte),
                _ => {
                    let mut decoder = Utf8Decoder::new();

                    match decoder.advance(byte) {
                        Utf8DecoderStatus::Continuation => {
                            self.state = State::Utf8Sequence(Some(decoder));
                            Action::Ignore
                        },
                        Utf8DecoderStatus::Done(c) => Action::Print(c),
                        Utf8DecoderStatus::Error => Action::InvalidUtf8,
                    }
                },
            },
            State::Utf8Sequence(decoder) => {
                match decoder {
                    Some(mut decoder) => match decoder.advance(byte) {
                        Utf8DecoderStatus::Continuation => {
                            self.state = State::Utf8Sequence(Some(decoder));
                            Action::Ignore
                        },
                        Utf8DecoderStatus::Done(c) => Action::Print(c),
                        Utf8DecoderStatus::Error => Action::InvalidUtf8,
                    },
                    None => {
                        self.state = State::Utf8Sequence(None);
                        Action::Ignore
                    },
                }
            },
            State::EscapeSequence => {
                if byte == 0x5b {
                    self.state = State::CSIStart;
                    Action::Ignore
                } else {
                    Action::escape_sequence(byte)
                }
            },
            State::CSIStart => match byte {
                0x30..=0x39 => {
                    let value: usize = (byte - 0x30) as usize;
                    self.state = State::CSIArg1(Some(value));
                    Action::Ignore
                },
                0x3b => {
                    self.state = State::CSIArg2(None, None);
                    Action::Ignore
                },
                0x40..=0x7e => Action::csi(byte, None, None),
                _ => {
                    self.state = State::CSIStart;
                    Action::Ignore
                },
            },
            State::CSIArg1(value) => match byte {
                0x30..=0x39 => {
                    let value: usize = value.unwrap_or(0) * 10 + (byte - 0x30) as usize;
                    self.state = State::CSIArg1(Some(value));
                    Action::Ignore
                },
                0x3b => {
                    self.state = State::CSIArg2(value, None);
                    Action::Ignore
                },
                0x40..=0x7e => Action::csi(byte, value, None),
                _ => {
                    self.state = State::CSIArg1(value);
                    Action::Ignore
                },
            },
            State::CSIArg2(arg1, arg2) => match byte {
                0x30..=0x39 => {
                    let arg2: usize = arg2.unwrap_or(0) * 10 + (byte - 0x30) as usize;
                    self.state = State::CSIArg2(arg1, Some(arg2));
                    Action::Ignore
                },
                0x40..=0x7e => Action::csi(byte, arg1, arg2),
                _ => {
                    self.state = State::CSIArg2(arg1, arg2);
                    Action::Ignore
                },
            },
        }
    }
}

} // verus!

verus! {

/// Feeds `bytes` in order: the state at the end and the actions, one per
/// byte.
pub open spec fn parser_run(s: State, bytes: Seq<u8>) -> (State, Seq<Action>)
    decreases bytes.len(),
{
    if bytes.len() == 0 {
        (s, Seq::empty())
    } else {
        let (s1, a) = parser_step(s, bytes[0]);
        let (s2, rest) = parser_run(s1, bytes.drop_first());
        (s2, seq![a] + rest)
    }
}

/// Some byte of `bytes`, fed in order from `s`, would overflow a
/// parameter.
pub open spec fn run_overflows(s: State, bytes: Seq<u8>) -> bool
    decreases bytes.len(),
{
    bytes.len() > 0 && (step_overflows(s, bytes[0]) || run_overflows(
        parser_step(s, bytes[0]).0,
        bytes.drop_first(),
    ))
}

/// `n` ignored bytes.
pub open spec fn ignores(n: nat) -> Seq<Action> {
    Seq::new(n, |i: int| Action::Ignore)
}

/// The decimal number `acc` followed by the digits `ds`.
pub open spec fn digits_from(acc: int, ds: Seq<u8>) -> int
    decreases ds.len(),
{
    if ds.len() == 0 {
        acc
    } else {
        digits_from(acc * 10 + (ds[0] - 0x30), ds.drop_first())
    }
}

/// A control sequence parameter written as the digits `ds`: absent when
/// there are none.
pub open spec fn param(ds: Seq<u8>) -> Option<usize> {
    if ds.len() == 0 {
        None
    } else {
        Some(digits_from(0, ds) as usize)
    }
}

pub open spec fn all_digits(ds: Seq<u8>) -> bool {
    forall|i: int| 0 <= i < ds.len() ==> is_digit(#[trigger] ds[i])
}

proof fn lemma_digits_from_grows(acc: int, ds: Seq<u8>)
    requires
        acc >= 0,
        all_digits(ds),
    ensures
        digits_from(acc, ds) >= acc,
    decreases ds.len(),
{
    if ds.len() > 0 {
        lemma_digits_from_grows(acc * 10 + (ds[0] - 0x30), ds.drop_first());
    }
}

/// Running `a` then `b` is running their concatenation.
proof fn lemma_run_append(s: State, a: Seq<u8>, b: Seq<u8>)
    ensures
        ({
            let (s1, acts1) = parser_run(s, a);
            let (s2, acts2) = parser_run(s1, b);
            &&& parser_run(s, a + b) == (s2, acts1 + acts2)
            &&& run_overflows(s, a + b) == (run_overflows(s, a) || run_overflows(s1, b))
        }),
    decreases a.len(),
{
    if a.len() == 0 {
        assert(a + b =~= b);
        assert(parser_run(s, a).1 + parser_run(s, b).1 =~= parser_run(s, b).1);
    } else {
        let (t, act) = parser_step(s, a[0]);
        lemma_run_append(t, a.drop_first(), b);
        assert((a + b).drop_first() =~= a.drop_first() + b);
        let (s1, acts1) = parser_run(t, a.drop_first());
        let (s2, acts2) = parser_run(s1, b);
        assert(seq![act] + (acts1 + acts2) =~= (seq![act] + acts1) + acts2);
    }
}

/// Digits read into the first parameter.
proof fn lemma_run_arg1(v: Option<usize>, ds: Seq<u8>)
    requires
        all_digits(ds),
        digits_from(v.unwrap_or(0) as int, ds) <= usize::MAX,
    ensures
        !run_overflows(State::CSIArg1(v), ds),
        parser_run(State::CSIArg1(v), ds) == (
            State::CSIArg1(
                if ds.len() == 0 {
                    v
                } else {
                    Some(digits_from(v.unwrap_or(0) as int, ds) as usize)
                },
            ),
            ignores(ds.len()),
        ),
    decreases ds.len(),
{
    if ds.len() > 0 {
        let w = push_digit(v, ds[0]);
        lemma_digits_from_grows(w, ds.drop_first());
        lemma_run_arg1(Some(w as usize), ds.drop_first());
        assert(seq![Action::Ignore] + ignores((ds.len() - 1) as nat) =~= ignores(ds.len()));
    } else {
        assert(ignores(0) =~= Seq::<Action>::empty());
    }
}

/// Digits read into the second parameter.
proof fn lemma_run_arg2(a1: Option<usize>, v: Option<usize>, ds: Seq<u8>)
    requires
        all_digits(ds),
        digits_from(v.unwrap_or(0) as int, ds) <= usize::MAX,
    ensures
        !run_overflows(State::CSIArg2(a1, v), ds),
        parser_run(State::CSIArg2(a1, v), ds) == (
            State::CSIArg2(
                a1,
                if ds.len() == 0 {
                    v
                } else {
                    Some(digits_from(v.unwrap_or(0) as int, ds) as usize)
                },
            ),
            ignores(ds.len()),
        ),
    decreases ds.len(),
{
    if ds.len() > 0 {
        let w = push_digit(v, ds[0]);
        lemma_digits_from_grows(w, ds.drop_first());
        lemma_run_arg2(a1, Some(w as usize), ds.drop_first());
        assert(seq![Action::Ignore] + ignores((ds.len() - 1) as nat) =~= ignores(ds.len()));
    } else {
        assert(ignores(0) =~= Seq::<Action>::empty());
    }
}

proof fn lemma_run_single(s: State, b: u8)
    ensures
        parser_run(s, seq![b]) == (parser_step(s, b).0, seq![parser_step(s, b).1]),
        run_overflows(s, seq![b]) == step_overflows(s, b),
{
    reveal_with_fuel(parser_run, 2);
    reveal_with_fuel(run_overflows, 2);
    assert(seq![b].drop_first() =~= Seq::<u8>::empty());
    assert(seq![parser_step(s, b).1] + Seq::<Action>::empty() =~= seq![parser_step(s, b).1]);
}

/// Law: from the ground state, a control sequence `ESC [ p1 F` (or
/// `ESC [ p1 ; p2 F` when `sep` holds) with decimal parameters that fit
/// in a `usize` is ignored byte by byte up to its final byte `F`, which
/// yields the control sequence with those parameters, and the parser is
/// back in the ground state.
pub proof fn lemma_parses_control_sequence(p1: Seq<u8>, sep: bool, p2: Seq<u8>, fin: u8)
    requires
        all_digits(p1),
        all_digits(p2),
        is_final_byte(fin),
        digits_from(0, p1) <= usize::MAX,
        digits_from(0, p2) <= usize::MAX,
    ensures
        ({
            let params = if sep {
                p1 + seq![0x3bu8] + p2
            } else {
                p1
            };
            let bytes = seq![0x1bu8, 0x5bu8] + params + seq![fin];
            let arg2 = if sep {
                param(p2)
            } else {
                None
            };
            &&& !run_overflows(State::Ground, bytes)
            &&& parser_run(State::Ground, bytes) == (
                State::Ground,
                ignores((bytes.len() - 1) as nat) + seq![
                    Action::ControlSequenceIntroducer(csi_of(fin, param(p1), arg2)),
                ],
            )
        }),
{
    let params = if sep {
        p1 + seq![0x3bu8] + p2
    } else {
        p1
    };
    let bytes = seq![0x1bu8, 0x5bu8] + params + seq![fin];
    let arg2 = if sep {
        param(p2)
    } else {
        None
    };
    let head = seq![0x1bu8, 0x5bu8];
    // ESC [ enters the control sequence.
    lemma_run_single(State::Ground, 0x1bu8);
    lemma_run_single(State::EscapeSequence, 0x5bu8);
    assert(head =~= seq![0x1bu8] + seq![0x5bu8]);
    lemma_run_append(State::Ground, seq![0x1bu8], seq![0x5bu8]);
    assert(parser_run(State::Ground, head) == (State::CSIStart, ignores(2))) by {
        assert(seq![Action::Ignore] + seq![Action::Ignore] =~= ignores(2));
    };
    // The first digit behaves as in an empty first parameter.
    let s_after_p1: State = State::CSIArg1(param(p1));
    assert(!run_overflows(State::CSIStart, p1) && parser_run(State::CSIStart, p1) == (
        if p1.len() == 0 {
            State::CSIStart
        } else {
            s_after_p1
        },
        ignores(p1.len()),
    )) by {
        if p1.len() > 0 {
            let d = p1[0];
            assert(is_digit(d));
            lemma_digits_from_grows((d - 0x30) as int, p1.drop_first());
            lemma_run_arg1(Some((d - 0x30) as usize), p1.drop_first());
            assert(push_digit(None, d) == (d - 0x30) as int);
            assert(seq![Action::Ignore] + ignores((p1.len() - 1) as nat) =~= ignores(p1.len()));
            assert(all_digits(p1.drop_first()));
        } else {
            assert(ignores(0) =~= Seq::<Action>::empty());
        }
    };
    let s1 = if p1.len() == 0 {
        State::CSIStart
    } else {
        s_after_p1
    };
    let (s_params, acts_params, fin_action) = if sep {
        // `;` moves to the second parameter.
        lemma_run_single(s1, 0x3bu8);
        let s2 = State::CSIArg2(param(p1), None);
        lemma_run_arg2(param(p1), None, p2);
        lemma_run_append(s1, seq![0x3bu8], p2);
        lemma_run_append(State::CSIStart, p1, seq![0x3bu8] + p2);
        assert(p1 + seq![0x3bu8] + p2 =~= p1 + (seq![0x3bu8] + p2));
        let s3 = State::CSIArg2(param(p1), param(p2));
        lemma_run_single(s3, fin);
        assert(ignores(p1.len()) + (seq![Action::Ignore] + ignores(p2.len())) =~= ignores(
            params.len(),
        ));
        (s3, ignores(params.len()), Action::ControlSequenceIntroducer(csi_of(fin, param(p1), param(p2))))
    } else {
        lemma_run_single(s1, fin);
        (s1, ignores(params.len()), Action::ControlSequenceIntroducer(csi_of(fin, param(p1), None)))
    };
    assert(parser_run(State::CSIStart, params) == (s_params, acts_params));
    assert(!run_overflows(State::CSIStart, params));
    lemma_run_single(s_params, fin);
    assert(parser_step(s_params, fin) == (State::Ground, fin_action));
    lemma_run_append(State::Ground, head, params);
    lemma_run_append(State::Ground, head + params, seq![fin]);
    assert(ignores(2) + ignores(params.len()) =~= ignores((bytes.len() - 1) as nat));
}

/// While a character is open, the parser reports what the decoder does:
/// nothing until the character is done, then the character.
proof fn lemma_run_decoder(d: Utf8Decoder, bs: Seq<u8>, c: Utf8Char)
    requires
        bs.len() >= 1,
        decoder_run(d, bs).1 == Seq::new(
            bs.len(),
            |i: int|
                if i < bs.len() - 1 {
                    Utf8DecoderStatus::Continuation
                } else {
                    Utf8DecoderStatus::Done(c)
                },
        ),
    ensures
        !run_overflows(State::Utf8Sequence(Some(d)), bs),
        parser_run(State::Utf8Sequence(Some(d)), bs) == (
            State::Ground,
            ignores((bs.len() - 1) as nat) + seq![Action::Print(c)],
        ),
    decreases bs.len(),
{
    reveal_with_fuel(parser_run, 2);
    reveal_with_fuel(run_overflows, 2);
    let (d1, s1) = decoder_step(d, bs[0]);
    let (_, tail) = decoder_run(d1, bs.drop_first());
    assert(decoder_run(d, bs).1 == seq![s1] + tail);
    assert((seq![s1] + tail)[0] == s1);
    if bs.len() == 1 {
        assert(s1 == Utf8DecoderStatus::Done(c));
        assert(bs.drop_first().len() == 0);
        assert(ignores(0) + seq![Action::Print(c)] =~= seq![Action::Print(c)]);
        assert(seq![Action::Print(c)] + Seq::<Action>::empty() =~= seq![Action::Print(c)]);
    } else {
        assert(s1 == Utf8DecoderStatus::Continuation);
        assert(tail =~= Seq::new(
            (bs.len() - 1) as nat,
            |i: int|
                if i < bs.len() - 2 {
                    Utf8DecoderStatus::Continuation
                } else {
                    Utf8DecoderStatus::Done(c)
                },
        )) by {
            assert forall|i: int| 0 <= i < tail.len() implies tail[i] == (seq![s1] + tail)[i + 1] by {
            };
        };
        lemma_run_decoder(d1, bs.drop_first(), c);
        assert(seq![Action::Ignore] + (ignores((bs.len() - 2) as nat) + seq![Action::Print(c)])
            =~= ignores((bs.len() - 1) as nat) + seq![Action::Print(c)]);
    }
}

/// Law: from the ground state, the complete encoding of a character
/// that is neither a control character nor ESC is ignored byte by byte
/// up to its last byte, which yields the character made of those bytes,
/// and the parser is back in the ground state.
pub proof fn lemma_parses_character(bytes: Seq<u8>)
    requires
        is_encoded_char(bytes),
        !is_control_byte(bytes[0]),
    ensures
        !run_overflows(State::Ground, bytes),
        parser_run(State::Ground, bytes) == (
            State::Ground,
            ignores((bytes.len() - 1) as nat) + seq![Action::Print(Utf8Char::spec_from_bytes(bytes))],
        ),
{
    reveal_with_fuel(parser_run, 2);
    reveal_with_fuel(run_overflows, 2);
    lemma_decodes_encoded_char(bytes);
    let c = Utf8Char::spec_from_bytes(bytes);
    let d0 = Utf8Decoder::spec_new();
    let (d1, s1) = decoder_step(d0, bytes[0]);
    let (_, tail) = decoder_run(d1, bytes.drop_first());
    let (_, all) = decoder_run(d0, bytes);
    assert(all == seq![s1] + tail);
    assert(all[0] == s1);
    if bytes.len() == 1 {
        assert(s1 == Utf8DecoderStatus::Done(c));
        assert(bytes.drop_first().len() == 0);
        assert(ignores(0) + seq![Action::Print(c)] =~= seq![Action::Print(c)]);
        assert(seq![Action::Print(c)] + Seq::<Action>::empty() =~= seq![Action::Print(c)]);
    } else {
        assert(s1 == Utf8DecoderStatus::Continuation);
        assert(tail =~= Seq::new(
            (bytes.len() - 1) as nat,
            |i: int|
                if i < bytes.len() - 2 {
                    Utf8DecoderStatus::Continuation
                } else {
                    Utf8DecoderStatus::Done(c)
                },
        )) by {
            assert forall|i: int| 0 <= i < tail.len() implies tail[i] == all[i + 1] by {};
        };
        lemma_run_decoder(d1, bytes.drop_first(), c);
        assert(seq![Action::Ignore] + (ignores((bytes.len() - 2) as nat) + seq![Action::Print(c)])
            =~= ignores((bytes.len() - 1) as nat) + seq![Action::Print(c)]);
    }
}

} // verus!
