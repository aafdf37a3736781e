use vstd::prelude::*;

use crate::line_buffer::{
    at_char, byte_pos, byte_position, char_count, count_chars, lemma_byte_pos_at_char,
    lemma_split_at_char,
};

verus! {

/// A piece of printable text: characters, or a line break owed after a
/// full row.
pub enum PrintableItem<'a> {
    Str(&'a [u8]),
    Newline,
}

/// Text still to be printed: the current piece, whether a line break is
/// owed first, and the pieces after it.
#[verifier::ext_equal]
pub struct PrintableView {
    pub text: Seq<u8>,
    pub newline: bool,
    pub parts: Seq<Seq<u8>>,
}

/// What printing with at most `max_chars` characters left on the row
/// yields next: `None` when nothing is left, `Some(None)` for a line
/// break, `Some(Some(bytes))` for the characters that fit on the row.
pub open spec fn printable_next(v: PrintableView, max_chars: nat) -> (PrintableView, Option<Option<Seq<u8>>>) {
    if v.newline {
        (PrintableView { newline: false, ..v }, Some(None))
    } else if v.text.len() == 0 && v.parts.len() == 0 {
        (v, None)
    } else {
        let (s, parts) = if v.text.len() == 0 {
            (v.parts[0], v.parts.drop_first())
        } else {
            (v.text, v.parts)
        };
        let count = if max_chars < char_count(s) {
            max_chars
        } else {
            char_count(s)
        };
        let split = byte_pos(s, count);
        (
            PrintableView {
                text: s.subrange(split, s.len() as int),
                newline: count == max_chars,
                parts,
            },
            Some(Some(s.subrange(0, split))),
        )
    }
}

/// Law: text is printed in pieces that fit what is left of the row, split
/// only where a character starts, and nothing is lost; a line break is
/// owed exactly when the piece filled the row.
pub proof fn lemma_printable_chunk(v: PrintableView, max_chars: nat)
    requires
        !v.newline,
    ensures
        ({
            let (v2, item) = printable_next(v, max_chars);
            let s = if v.text.len() == 0 {
                v.parts[0]
            } else {
                v.text
            };
            item matches Some(Some(chunk)) ==> {
                &&& chunk + v2.text == s
                &&& char_count(chunk) <= max_chars
                &&& char_count(chunk) + char_count(v2.text) == char_count(s)
                &&& at_char(s, chunk.len() as int)
                &&& v2.newline == (char_count(chunk) == max_chars)
            }
        }),
{
    let (v2, item) = printable_next(v, max_chars);
    if item is Some && !v.newline {
        let s = if v.text.len() == 0 {
            v.parts[0]
        } else {
            v.text
        };
        let count = if max_chars < char_count(s) {
            max_chars
        } else {
            char_count(s)
        };
        lemma_split_at_char(s, count);
        lemma_byte_pos_at_char(s, count);
        assert(s.subrange(0, byte_pos(s, count)) + s.subrange(byte_pos(s, count), s.len() as int)
            =~= s);
    }
}

/// Text printed in pieces that fit the rows.
pub struct Printable<'a> {
    s: &'a [u8],
    newline: bool,
    parts: Vec<&'a [u8]>,
    next: usize,
}

/// The item as printing saw it.
pub open spec fn printable_item_view(r: Option<PrintableItem>) -> Option<Option<Seq<u8>>> {
    match r {
        Some(PrintableItem::Str(s)) => Some(Some(s@)),
        Some(PrintableItem::Newline) => Some(None),
        None => None,
    }
}

impl<'a> View for Printable<'a> {
    type V = PrintableView;

    closed spec fn view(&self) -> PrintableView {
        PrintableView {
            text: self.s@,
            newline: self.newline,
            parts: Seq::new(
                (self.parts@.len() - self.next) as nat,
                |i: int| self.parts@[self.next + i]@,
            ),
        }
    }
}

impl<'a> Printable<'a> {
    pub closed spec fn wf(&self) -> bool {
        self.next <= self.parts@.len()
    }

    pub fn from_str(s: &'a [u8]) -> (p: Self)
        ensures
            p.wf(),
            p@ == (PrintableView { text: s@, newline: false, parts: Seq::empty() }),
    {
        let p = Self { s, newline: false, parts: Vec::new(), next: 0 };
        proof {
            assert(p@ =~= (PrintableView { text: s@, newline: false, parts: Seq::empty() }));
        }
        p
    }

    pub fn from_iter(parts: Vec<&'a [u8]>) -> (p: Self)
        ensures
            p.wf(),
            p@ == (PrintableView {
                text: Seq::empty(),
                newline: false,
                parts: Seq::new(parts@.len(), |i: int| parts@[i]@),
            }),
    {
        let s: &[u8] = &[];
        let p = Self { s, newline: false, parts, next: 0 };
        proof {
            assert(p@ =~= (PrintableView {
                text: Seq::empty(),
                newline: false,
                parts: Seq::new(parts@.len(), |i: int| parts@[i]@),
            }));
        }
        p
    }

    /// The next piece, with at most `max_chars` characters left on the
    /// row.
    pub fn next_item(&mut self, max_chars: usize) -> (r: Option<PrintableItem<'a>>)
        requires
            old(self).wf(),
        ensures
            final(self).wf(),
            final(self)@ =~= printable_next(old(self)@, max_chars as nat).0,
            printable_item_view(r) =~~= printable_next(old(self)@, max_chars as nat).1,
    {
        if self.newline {
            self.newline = false;
            return Some(PrintableItem::Newline);
        }
        let ghost v = self@;
        let s = if self.s.len() == 0 {
            if self.next < self.parts.len() {
                let part = self.parts[self.next];
                self.next += 1;
                proof {
                    assert(self@.parts =~= v.parts.drop_first());
                }
                part
            } else {
                return None;
            }
        } else {
            self.s
        };
        let chars = count_chars(s);
        let split_at_char = if max_chars < chars {
            max_chars
        } else {
            chars
        };
        let split_at_byte = byte_position(s, split_at_char);
        proof {
            lemma_split_at_char(s@, split_at_char as nat);
        }
        let head = &s[0..split_at_byte];
        let rest = &s[split_at_byte..s.len()];
        if split_at_char == max_chars {
            self.newline = true;
        }
        self.s = rest;
        Some(PrintableItem::Str(head))
    }
}

} // verus!
