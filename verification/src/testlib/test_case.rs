use vstd::prelude::*;

use super::byte_vec::ToByteVec;
use super::csi;
use super::input_builder::InputBuilder;
use crate::input::{control_byte, ControlCharacter};
use vstd::string::StringSliceAdditionalSpecFns;
use vstd::std_specs::iter::IteratorSpec;

verus! {

/// Feeding character `c` to a screen row `line` of at most `columns`
/// characters: the text written out when the row fills up (with its line
/// break), and the row afterwards.
pub open spec fn wrap_char(line: Seq<char>, c: char, columns: nat) -> (Seq<char>, Seq<char>) {
    let l = line.push(c);
    if l.len() >= columns {
        (l.push('\n'), Seq::empty())
    } else {
        (Seq::empty(), l)
    }
}

/// Feeding the characters `s` to a screen row `line`: the rows filled,
/// and the row afterwards.
pub open spec fn wrap_chars(line: Seq<char>, s: Seq<char>, columns: nat) -> (Seq<char>, Seq<char>)
    decreases s.len(),
{
    if s.len() == 0 {
        (Seq::empty(), line)
    } else {
        let (out1, l1) = wrap_chars(line, s.drop_last(), columns);
        let (out2, l2) = wrap_char(l1, s.last(), columns);
        (out1 + out2, l2)
    }
}

/// The screen that printing the `outputs` after `prompt` leaves, each
/// output followed by a line break and a new prompt; a row is broken once
/// `columns` characters were fed to it since the last break: the text so
/// far, and the characters fed since the last break.
pub open spec fn screen_of(prompt: Seq<char>, outputs: Seq<Seq<char>>, columns: nat) -> (Seq<char>, Seq<char>)
    decreases outputs.len(),
{
    if outputs.len() == 0 {
        (Seq::empty(), prompt)
    } else {
        let (screen, line) = screen_of(prompt, outputs.drop_last(), columns);
        let (out, rest) = wrap_chars(line, outputs.last(), columns);
        if rest.len() > 0 {
            (screen + out + rest.push('\n') + prompt, Seq::empty())
        } else {
            (screen + out, rest)
        }
    }
}

/// An editor session to check: the lines typed and the lines read back.
#[derive(Debug)]
pub struct TestCase {
    pub input: Vec<Vec<u8>>,
    pub output: Vec<String>,
}

/// `String::push`: `s` with `c` appended.
#[verifier::external_body]
pub(super) fn push_char(s: &mut String, c: char)
    ensures
        final(s)@ == old(s)@.push(c),
{
    s.push(c);
}

/// Writes out the row `line` to `screen` and empties it.
fn flush(screen: &mut String, line: &mut Vec<char>)
    ensures
        final(screen)@ == old(screen)@ + old(line)@,
        final(line)@ == Seq::<char>::empty(),
{
    let ghost start = screen@;
    let mut i: usize = 0;
    while i < line.len()
        invariant
            i <= line@.len(),
            screen@ == start + line@.subrange(0, i as int),
        decreases line@.len() - i,
    {
        push_char(screen, line[i]);
        i += 1;
    }
    proof {
        assert(line@.subrange(0, i as int) =~= line@);
    }
    line.clear();
}

/// Appends the characters of `s` to `line`.
fn push_chars(line: &mut Vec<char>, s: &str)
    ensures
        final(line)@ == old(line)@ + s@,
{
    let ghost start = line@;
    let mut chars = s.chars();
    let ghost mut k: int = 0;
    loop
        invariant
            0 <= k <= s@.len(),
            chars.remaining() == s@.subrange(k, s@.len() as int),
            line@ == start + s@.subrange(0, k),
        ensures
            line@ == start + s@,
        decreases s@.len() - k,
    {
        match chars.next() {
            Some(c) => {
                line.push(c);
                proof {
                    assert(s@.subrange(k, s@.len() as int).drop_first() =~= s@.subrange(
                        k + 1,
                        s@.len() as int,
                    ));
                    assert(start + s@.subrange(0, k + 1) =~= (start + s@.subrange(0, k)).push(c));
                    k = k + 1;
                }
            },
            None => {
                proof {
                    assert(s@.subrange(0, k) =~= s@);
                }
                break;
            },
        }
    }
}

impl TestCase {
    /// A session typing each of `input` and reading back each of `output`.
    pub fn new<T: ToByteVec>(input: Vec<T>, output: Vec<&str>) -> (t: Self)
        ensures
            t.input@.len() == input@.len(),
            forall|i: int| 0 <= i < input@.len() ==> (#[trigger] t.input@[i])@ == input@[i].byte_view(),
            t.output@.len() == output@.len(),
            forall|i: int| 0 <= i < output@.len() ==> (#[trigger] t.output@[i])@ == output@[i]@,
    {
        let ghost all = input@;
        let mut input = input;
        let mut bytes: Vec<Vec<u8>> = Vec::new();
        while input.len() > 0
            invariant
                input@.len() + bytes@.len() == all.len(),
                forall|i: int| 0 <= i < input@.len() ==> input@[i] == all[i],
                forall|i: int|
                    0 <= i < bytes@.len() ==> (#[trigger] bytes@[i])@ == all[input@.len() + i].byte_view(),
            decreases input@.len(),
        {
            let item = input.pop().unwrap();
            bytes.insert(0, item.to_byte_vec());
        }
        let mut strings: Vec<String> = Vec::new();
        let mut i: usize = 0;
        while i < output.len()
            invariant
                i <= output@.len(),
                strings@.len() == i,
                forall|j: int| 0 <= j < i ==> (#[trigger] strings@[j])@ == output@[j]@,
            decreases output@.len() - i,
        {
            strings.push(output[i].to_owned());
            i += 1;
        }
        Self { input: bytes, output: strings }
    }

    /// The screen the session should leave, with `prompt` before each
    /// line and rows of `columns` characters.
    pub fn screen_as_string(&self, prompt: &str, columns: usize) -> (s: String)
        ensures
            s@ == screen_of(
                prompt@,
                Seq::new(self.output@.len(), |i: int| self.output@[i]@),
                columns as nat,
            ).0,
    {
        let ghost outputs = Seq::new(self.output@.len(), |i: int| self.output@[i]@);
        let mut screen = String::new();
        let mut line: Vec<char> = Vec::new();
        push_chars(&mut line, prompt);
        let mut n: usize = 0;
        proof {
            assert(outputs.subrange(0, 0) =~= Seq::<Seq<char>>::empty());
            assert(line@ =~= prompt@);
        }
        while n < self.output.len()
            invariant
                n <= self.output@.len(),
                outputs == Seq::new(self.output@.len(), |i: int| self.output@[i]@),
                (screen@, line@) == screen_of(prompt@, outputs.subrange(0, n as int), columns as nat),
            decreases self.output@.len() - n,
        {
            let ghost screen0 = screen@;
            let ghost line0 = line@;
            let s = self.output[n].as_str();
            let mut chars = s.chars();
            let ghost mut k: int = 0;
            proof {
                assert(s@.subrange(0, 0) =~= Seq::<char>::empty());
            }
            loop
                invariant
                    0 <= k <= s@.len(),
                    chars.remaining() == s@.subrange(k, s@.len() as int),
                    ({
                        let (out, l) = wrap_chars(line0, s@.subrange(0, k), columns as nat);
                        screen@ == screen0 + out && line@ == l
                    }),
                ensures
                    ({
                        let (out, l) = wrap_chars(line0, s@, columns as nat);
                        screen@ == screen0 + out && line@ == l
                    }),
                decreases s@.len() - k,
            {
                match chars.next() {
                    Some(c) => {
                        let ghost before = screen@;
                        line.push(c);
                        if line.len() >= columns {
                            flush(&mut screen, &mut line);
                            push_char(&mut screen, '\n');
                        }
                        proof {
                            assert(s@.subrange(k, s@.len() as int).drop_first() =~= s@.subrange(
                                k + 1,
                                s@.len() as int,
                            ));
                            assert(s@.subrange(0, k + 1).drop_last() =~= s@.subrange(0, k));
                            let (out, l) = wrap_chars(line0, s@.subrange(0, k), columns as nat);
                            let (out2, l2) = wrap_char(l, c, columns as nat);
                            assert(screen@ =~= screen0 + (out + out2));
                            k = k + 1;
                        }
                    },
                    None => {
                        proof {
                            assert(s@.subrange(0, k) =~= s@);
                        }
                        break;
                    },
                }
            }
            if line.len() > 0 {
                flush(&mut screen, &mut line);
                push_char(&mut screen, '\n');
                let mut p: Vec<char> = Vec::new();
                push_chars(&mut p, prompt);
                flush(&mut screen, &mut p);
            }
            proof {
                assert(outputs.subrange(0, n + 1).drop_last() =~= outputs.subrange(0, n as int));
                assert(outputs.subrange(0, n + 1).last() == s@);
                assert(line@ =~= screen_of(prompt@, outputs.subrange(0, n + 1), columns as nat).1);
                assert(screen@ =~= screen_of(prompt@, outputs.subrange(0, n + 1), columns as nat).0);
            }
            n += 1;
        }
        proof {
            assert(outputs.subrange(0, n as int) =~= outputs);
        }
        screen
    }
}

/// The sessions that every editor should pass.
pub fn test_cases() -> (cases: Vec<TestCase>)
    ensures
        cases@.len() == 3,
        cases@[0].input@.len() == 1,
        cases@[0].input@[0]@ == "Hello, World!".spec_bytes(),
        cases@[0].output@.len() == 1,
        cases@[0].output@[0]@ == "Hello, World!"@,
        cases@[1].input@.len() == 1,
        cases@[1].input@[0]@ == "abc".spec_bytes() + csi::LEFT.spec_bytes() + seq![
            control_byte(ControlCharacter::CtrlD),
        ] + "de".spec_bytes(),
        cases@[1].output@.len() == 1,
        cases@[1].output@[0]@ == "abde"@,
        cases@[2].input@.len() == 2,
        cases@[2].input@[0]@ == "abc".spec_bytes(),
        cases@[2].input@[1]@ == "def".spec_bytes(),
        cases@[2].output@.len() == 2,
        cases@[2].output@[0]@ == "abc"@,
        cases@[2].output@[1]@ == "def"@,
{
    let mut input = InputBuilder::new();
    input.add("abc");
    input.add(csi::LEFT);
    input.add(ControlCharacter::CtrlD);
    input.add("de");

    let mut cases: Vec<TestCase> = Vec::new();
    cases.push(TestCase::new(vec!["Hello, World!"], vec!["Hello, World!"]));
    cases.push(TestCase::new(vec![input], vec!["abde"]));
    cases.push(TestCase::new(vec!["abc", "def"], vec!["abc", "def"]));
    cases
}

} // verus!
