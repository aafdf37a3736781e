use vstd::prelude::*;

use super::buffer::Buffer;
use super::slice_buffer::SliceBuffer;
use super::text::{
    byte_pos, char_count, count_from, is_space_char, last_space, lemma_count_from_bound,
    lemma_pos_from_bounds, lemma_pos_from_count, lemma_pos_from_end, lemma_pos_from_mono,
    lemma_pos_from_next, pos_from, starts_char,
};
use crate::utf8::{Utf8Byte, Utf8Char};
use core::ops::Range;
use vstd::string::StringSliceAdditionalSpecFns;
use vstd::utf8::valid_utf8;
use super::text::{at_char, lemma_byte_pos_at_char, lemma_valid_range};

verus! {

/// `core::str::from_utf8`: the bytes of `s` as a string when they are
/// valid UTF-8 (as its documentation states), `None` otherwise.
#[verifier::external_body]
pub(crate) fn str_from_utf8(s: &[u8]) -> (r: Option<&str>)
    ensures
        r is Some <==> valid_utf8(s@),
        r matches Some(x) ==> x.spec_bytes() == s@,
{
    match core::str::from_utf8(s) {
        Ok(x) => Some(x),
        Err(_) => None,
    }
}

/// High level interface to line buffer
pub struct LineBuffer<B: Buffer> {
    pub(crate) buf: B,
}

/// `s` with `bytes` inserted at byte `index`.
pub open spec fn inserted(s: Seq<u8>, index: int, bytes: Seq<u8>) -> Seq<u8> {
    s.subrange(0, index) + bytes + s.subrange(index, s.len() as int)
}

/// `s` without the bytes from `start` up to `end`.
pub open spec fn removed(s: Seq<u8>, start: int, end: int) -> Seq<u8> {
    s.subrange(0, start) + s.subrange(end, s.len() as int)
}

/// `bytes` fit in a buffer holding `len` bytes with capacity `cap`.
pub open spec fn fits(cap: Option<usize>, len: nat, bytes: nat) -> bool {
    match cap {
        Some(c) => bytes <= c - len,
        None => true,
    }
}

/// Number of characters that the word deletion before character `k`
/// covers: those up to character `k`.
pub open spec fn word_end_index(s: Seq<u8>, k: nat) -> nat {
    if k <= char_count(s) {
        k
    } else {
        char_count(s)
    }
}

/// Index of the first character the word deletion before character
/// `k` removes: the one after the last space before the last character
/// considered, or 0.
pub open spec fn word_start_index(s: Seq<u8>, k: nat) -> nat {
    let n = word_end_index(s, k);
    let m = if n < k - 1 {
        n as int
    } else {
        k - 1
    };
    (last_space(s, m) + 1) as nat
}

/// Byte position where character `k` begins, counting the end of the
/// empty prefix as 0.
pub open spec fn boundary(s: Seq<u8>, k: nat) -> int {
    if k == 0 {
        0
    } else {
        byte_pos(s, k)
    }
}

/// `s` without character `k` (unchanged when there is no such
/// character).
pub open spec fn char_deleted(s: Seq<u8>, k: nat) -> Seq<u8> {
    let p = byte_pos(s, k);
    if p < s.len() {
        removed(s, p, byte_pos(s, k + 1))
    } else {
        s
    }
}

/// `s` with characters `k - 1` and `k` swapped (unchanged when there is
/// no character `k`).
pub open spec fn chars_swapped(s: Seq<u8>, k: nat) -> Seq<u8> {
    let p = byte_pos(s, (k - 1) as nat);
    let q = byte_pos(s, k);
    let r = byte_pos(s, k + 1);
    if q < s.len() {
        s.subrange(0, p) + s.subrange(q, r) + s.subrange(p, q) + s.subrange(r, s.len() as int)
    } else {
        s
    }
}

/// `s` without the word before character `k`.
pub open spec fn word_deleted(s: Seq<u8>, k: nat) -> Seq<u8> {
    removed(s, boundary(s, word_start_index(s, k)), boundary(s, word_end_index(s, k)))
}

impl<B: Buffer> View for LineBuffer<B> {
    type V = Seq<u8>;

    closed spec fn view(&self) -> Seq<u8> {
        self.buf.contents()
    }
}

impl<'a> LineBuffer<SliceBuffer<'a>> {
    /// Create new static line buffer
    pub fn from_slice(buffer: &'a mut [u8]) -> (b: Self)
        ensures
            b.wf(),
            b@ == Seq::<u8>::empty(),
            b.spec_capacity() == Some(old(buffer)@.len() as usize),
    {
        Self { buf: SliceBuffer::new(buffer) }
    }
}

impl<B: Buffer> LineBuffer<B> {
    pub closed spec fn wf(&self) -> bool {
        self.buf.wf()
    }

    /// The most bytes the buffer holds, or `None` when unbounded.
    pub closed spec fn spec_capacity(&self) -> Option<usize> {
        self.buf.spec_capacity()
    }

    pub(crate) fn from_buffer(buf: B) -> (b: Self)
        ensures
            b.wf() == buf.wf(),
            b@ == buf.contents(),
            b.spec_capacity() == buf.spec_capacity(),
    {
        Self { buf }
    }

    /// Return buffer as bytes slice
    pub fn as_slice(&self) -> (s: &[u8])
        requires
            self.wf(),
        ensures
            s@ == self@,
    {
        self.buf.as_slice()
    }

    /// Return buffer as string. The buffer should only hold valid UTF-8.
    pub fn as_str(&self) -> (s: &str)
        requires
            self.wf(),
            valid_utf8(self@),
        ensures
            s.spec_bytes() == self@,
    {
        match str_from_utf8(self.as_slice()) {
            Some(s) => s,
            None => vstd::pervasive::unreached(),
        }
    }

    /// Return buffer length
    pub fn len(&self) -> (n: usize)
        requires
            self.wf(),
        ensures
            n == self@.len(),
            self.spec_capacity() matches Some(c) ==> n <= c,
    {
        self.buf.buffer_len()
    }

    /// Position of the first character start at or after byte `from`.
    fn next_char_start(&self, from: usize) -> (p: usize)
        requires
            self.wf(),
            from <= self@.len(),
        ensures
            p == pos_from(self@, from as int, 0),
    {
        let s = self.as_slice();
        let mut i = from;
        while i < s.len()
            invariant
                s@ == self@,
                from <= i <= s@.len(),
                pos_from(s@, from as int, 0) == pos_from(s@, i as int, 0),
            decreases s@.len() - i,
        {
            if !s[i].utf8_is_continuation() {
                return i;
            }
            i += 1;
        }
        i
    }

    /// Byte ranges of the characters, in order.
    fn char_ranges(&self) -> (r: Vec<Range<usize>>)
        requires
            self.wf(),
        ensures
            r@.len() == char_count(self@),
            forall|i: int|
                #![trigger r@[i]]
                0 <= i < r@.len() ==> r@[i].start == byte_pos(self@, i as nat) && r@[i].end
                    == byte_pos(self@, (i + 1) as nat),
    {
        let ghost s = self@;
        let len = self.len();
        let mut ranges: Vec<Range<usize>> = Vec::new();
        let mut p = self.next_char_start(0);
        proof {
            lemma_pos_from_bounds(s, 0, 0);
        }
        while p < len
            invariant
                self.wf(),
                s == self@,
                ranges@.len() <= count_from(s, 0),
                len == s.len(),
                p == byte_pos(s, ranges@.len()),
                p <= len,
                forall|i: int|
                    #![trigger ranges@[i]]
                    0 <= i < ranges@.len() ==> ranges@[i].start == byte_pos(s, i as nat)
                        && ranges@[i].end == byte_pos(s, (i + 1) as nat),
            decreases len - p,
        {
            let q = self.next_char_start(p + 1);
            proof {
                lemma_pos_from_count(s, 0, ranges@.len());
                lemma_pos_from_next(s, 0, ranges@.len());
                lemma_pos_from_bounds(s, p + 1, 0);
            }
            let ghost n = ranges@.len();
            let ghost old_ranges = ranges@;
            ranges.push(p..q);
            assert(ranges@[n as int].start == byte_pos(s, n));
            assert(ranges@[n as int].end == byte_pos(s, n + 1));
            assert forall|i: int| #![trigger ranges@[i]] 0 <= i < ranges@.len() implies ranges@[i].start
                == byte_pos(s, i as nat) && ranges@[i].end == byte_pos(s, (i + 1) as nat) by {
                if i < n {
                    assert(ranges@[i] == old_ranges[i]);
                }
            };
            p = q;
        }
        proof {
            lemma_pos_from_count(s, 0, ranges@.len());
        }
        ranges
    }

    /// Byte position of character `char_index`, or the length when there
    /// is no such character.
    fn get_byte_position(&self, char_index: usize) -> (p: usize)
        requires
            self.wf(),
        ensures
            p == byte_pos(self@, char_index as nat),
    {
        let s = self.as_slice();
        let mut i: usize = 0;
        let mut seen: usize = 0;
        while i < s.len()
            invariant
                s@ == self@,
                0 <= i <= s@.len(),
                seen <= char_index,
                byte_pos(s@, char_index as nat) == pos_from(s@, i as int, (char_index - seen) as nat),
            decreases s@.len() - i,
        {
            if !s[i].utf8_is_continuation() {
                if seen == char_index {
                    return i;
                }
                seen += 1;
            }
            i += 1;
        }
        s.len()
    }

    /// Delete character at character index.
    pub fn delete(&mut self, char_index: usize)
        requires
            old(self).wf(),
        ensures
            final(self).wf(),
            final(self).spec_capacity() == old(self).spec_capacity(),
            final(self)@ == char_deleted(old(self)@, char_index as nat),
            valid_utf8(old(self)@) ==> valid_utf8(final(self)@),
    {
        proof {
            if valid_utf8(self@) {
                lemma_valid_char_deleted(self@, char_index as nat);
            }
        }
        let ghost s = self@;
        let pos = self.get_byte_position(char_index);
        let len = self.len();
        if pos < len {
            let end = self.next_char_start(pos + 1);
            proof {
                lemma_pos_from_next(s, 0, char_index as nat);
                lemma_pos_from_bounds(s, pos + 1, 0);
            }
            self.delete_range(pos..end);
        }
    }

    /// Delete buffer after character index
    pub fn delete_after_char(&mut self, char_index: usize)
        requires
            old(self).wf(),
        ensures
            final(self).wf(),
            final(self).spec_capacity() == old(self).spec_capacity(),
            final(self)@ == old(self)@.subrange(0, byte_pos(old(self)@, char_index as nat)),
            valid_utf8(old(self)@) ==> valid_utf8(final(self)@),
    {
        proof {
            if valid_utf8(self@) {
                lemma_valid_cut(self@, char_index as nat);
            }
        }
        let pos = self.get_byte_position(char_index);
        proof {
            lemma_pos_from_bounds(self@, 0, char_index as nat);
        }
        self.buf.truncate_buffer(pos);
    }

    /// Truncate buffer
    pub fn truncate(&mut self)
        requires
            old(self).wf(),
        ensures
            final(self).wf(),
            final(self).spec_capacity() == old(self).spec_capacity(),
            final(self)@ == old(self)@.subrange(0, byte_pos(old(self)@, 0)),
            valid_utf8(old(self)@) ==> valid_utf8(final(self)@),
            valid_utf8(old(self)@) ==> final(self)@.len() == 0,
            final(self)@.subrange(0, byte_pos(final(self)@, 0)) == final(self)@,
    {
        self.delete_after_char(0);
        proof {
            super::text::lemma_truncated(old(self)@);
        }
    }

    fn delete_range(&mut self, range: Range<usize>)
        requires
            old(self).wf(),
            range.start <= range.end <= old(self)@.len(),
        ensures
            final(self).wf(),
            final(self).spec_capacity() == old(self).spec_capacity(),
            final(self)@ == removed(old(self)@, range.start as int, range.end as int),
    {
        let ghost s = self@;
        let pos = range.start;
        let mut j = range.start;
        while j < range.end
            invariant
                self.wf(),
                self.spec_capacity() == old(self).spec_capacity(),
                pos == range.start,
                range.start <= j <= range.end,
                range.end <= s.len(),
                self@ == removed(s, pos as int, j as int),
            decreases range.end - j,
        {
            self.buf.remove_byte(pos);
            assert(self@ =~= removed(s, pos as int, (j + 1) as int));
            j += 1;
        }
        assert(removed(s, pos as int, pos as int) =~= s);
    }

    /// Delete previous word from character index
    pub fn delete_previous_word(&mut self, char_index: usize) -> (deleted: usize)
        requires
            old(self).wf(),
        ensures
            final(self).wf(),
            final(self).spec_capacity() == old(self).spec_capacity(),
            ({
                let s = old(self)@;
                let n = word_end_index(s, char_index as nat);
                let first = word_start_index(s, char_index as nat);
                &&& first <= n
                &&& deleted == n - first
                &&& final(self)@ == word_deleted(s, char_index as nat)
            }),
            valid_utf8(old(self)@) ==> valid_utf8(final(self)@),
    {
        let ghost s = self@;
        let mut word_start: usize = 0;
        let mut word_end: usize = 0;
        let mut first: usize = 0;

        let ranges = self.char_ranges();
        let mut i: usize = 0;
        proof {
            lemma_count_from_bound(s, 0);
        }
        while i < char_index && i < ranges.len()
            invariant
                self.wf(),
                s == self@,
                ranges@.len() == char_count(s),
                char_count(s) <= s.len(),
                forall|j: int|
                    #![trigger ranges@[j]]
                    0 <= j < ranges@.len() ==> ranges@[j].start == byte_pos(s, j as nat)
                        && ranges@[j].end == byte_pos(s, (j + 1) as nat),
                i <= char_index,
                i <= ranges@.len(),
                first <= i,
                word_end == boundary(s, i as nat),
                word_start == boundary(s, first as nat),
                first == (last_space(
                    s,
                    if i < char_index - 1 {
                        i as int
                    } else {
                        char_index - 1
                    },
                ) + 1),
            decreases char_index - i,
        {
            let start = ranges[i].start;
            let end = ranges[i].end;
            let bytes = self.as_slice();
            proof {
                lemma_pos_from_count(s, 0, i as nat);
            }
            if bytes[start] == 0x20 && i < char_index - 1 {
                word_start = end;
                first = i + 1;
            }
            word_end = end;
            i += 1;
        }
        proof {
            lemma_pos_from_count(s, 0, i as nat);
            lemma_last_space_bound(s, i as int);
            assert(i == word_end_index(s, char_index as nat));
            lemma_pos_from_mono(s, 0, first as nat, i as nat);
            lemma_pos_from_bounds(s, 0, i as nat);
            if valid_utf8(s) {
                lemma_valid_word_deleted(s, char_index as nat);
            }
        }
        let deleted = i - first;
        self.delete_range(word_start..word_end);
        deleted
    }

    /// Swap characters at index
    pub fn swap_chars(&mut self, char_index: usize)
        requires
            old(self).wf(),
            char_index >= 1,
        ensures
            final(self).wf(),
            final(self).spec_capacity() == old(self).spec_capacity(),
            final(self)@ == chars_swapped(old(self)@, char_index as nat),
            valid_utf8(old(self)@) ==> valid_utf8(final(self)@),
    {
        proof {
            if valid_utf8(self@) {
                lemma_valid_swapped(self@, char_index as nat);
            }
        }
        let ghost s = self@;
        let len = self.len();
        let prev = self.get_byte_position(char_index - 1);
        proof {
            lemma_pos_from_bounds(s, 0, (char_index - 1) as nat);
            lemma_pos_from_bounds(s, 0, char_index as nat);
            if prev == len {
                lemma_pos_from_end(s, 0, (char_index - 1) as nat);
                lemma_pos_from_end(s, 0, char_index as nat);
            }
        }
        if prev < len {
            let cur_start = self.next_char_start(prev + 1);
            proof {
                lemma_pos_from_next(s, 0, (char_index - 1) as nat);
                lemma_pos_from_bounds(s, prev + 1, 0);
                if cur_start == len {
                    lemma_pos_from_end(s, 0, char_index as nat);
                }
            }
            if cur_start < len {
                let cur_end = self.next_char_start(cur_start + 1);
                proof {
                    lemma_pos_from_next(s, 0, char_index as nat);
                    lemma_pos_from_bounds(s, cur_start + 1, 0);
                }
                let ghost pp = s.subrange(prev as int, cur_start as int);
                let ghost cc = s.subrange(cur_start as int, cur_end as int);
                let ghost aa = s.subrange(0, prev as int);
                let ghost rr = s.subrange(cur_end as int, s.len() as int);
                let mut j: usize = 0;
                assert(cc.subrange(0, 0) =~= Seq::<u8>::empty());
                assert(cc.subrange(0, cc.len() as int) =~= cc);
                assert(s =~= aa + pp + cc + rr);
                assert(s =~= aa + cc.subrange(0, 0) + pp + cc.subrange(0, cc.len() as int) + rr);
                while cur_start + j < cur_end
                    invariant
                        self.wf(),
                        self.spec_capacity() matches Some(c) ==> s.len() <= c,
                        aa.len() == prev,
                        rr.len() == s.len() - cur_end,
                        self.spec_capacity() == old(self).spec_capacity(),
                        self@.len() == s.len(),
                        prev < cur_start < cur_end <= s.len(),
                        cc.len() == cur_end - cur_start,
                        pp.len() == cur_start - prev,
                        0 <= j <= cc.len(),
                        self@ == aa + cc.subrange(0, j as int) + pp + cc.subrange(
                            j as int,
                            cc.len() as int,
                        ) + rr,
                    decreases cur_end - cur_start - j,
                {
                    let ghost before = self@;
                    assert(before[cur_start + j] == cc[j as int]) by {
                        let left = aa + cc.subrange(0, j as int) + pp;
                        assert(left.len() == cur_start + j);
                        assert(before == left + (cc.subrange(j as int, cc.len() as int) + rr));
                        assert(before[cur_start + j] == (cc.subrange(j as int, cc.len() as int)
                            + rr)[0]);
                    };
                    let byte = self.buf.remove_byte(cur_start + j);
                    self.buf.insert_byte(prev + j, byte);
                    assert(self@ =~= aa + cc.subrange(0, j + 1) + pp + cc.subrange(
                        j + 1,
                        cc.len() as int,
                    ) + rr);
                    j += 1;
                }
                assert(self@ =~= aa + cc + pp + rr);
            }
        }
    }

    /// Insert bytes at index
    pub fn insert_bytes(&mut self, index: usize, bytes: &[u8]) -> (r: Result<(), ()>)
        requires
            old(self).wf(),
            index <= old(self)@.len(),
            old(self)@.len() + bytes@.len() <= usize::MAX,
        ensures
            final(self).wf(),
            final(self).spec_capacity() == old(self).spec_capacity(),
            r is Ok <==> fits(old(self).spec_capacity(), old(self)@.len(), bytes@.len()),
            r is Ok ==> final(self)@ == inserted(old(self)@, index as int, bytes@),
            r is Err ==> final(self)@ == old(self)@,
            valid_utf8(old(self)@) && valid_utf8(bytes@) && (at_char(old(self)@, index as int)
                || index == 0) ==> valid_utf8(final(self)@),
    {
        proof {
            if valid_utf8(self@) && valid_utf8(bytes@) && (at_char(self@, index as int) || index == 0) {
                lemma_valid_inserted(self@, index as int, bytes@);
            }
        }
        let ghost s = self@;
        if let Some(capacity) = self.buf.capacity() {
            let len = self.buf.buffer_len();
            if bytes.len() > capacity - len {
                return Err(());
            }
        }
        let mut i: usize = 0;
        while i < bytes.len()
            invariant
                self.wf(),
                self.spec_capacity() == old(self).spec_capacity(),
                index <= s.len(),
                s.len() + bytes@.len() <= usize::MAX,
                fits(self.spec_capacity(), s.len(), bytes@.len()),
                0 <= i <= bytes@.len(),
                self@ == inserted(s, index as int, bytes@.subrange(0, i as int)),
            decreases bytes@.len() - i,
        {
            self.buf.insert_byte(index + i, bytes[i]);
            assert(self@ =~= inserted(s, index as int, bytes@.subrange(0, i + 1)));
            i += 1;
        }
        assert(bytes@.subrange(0, bytes@.len() as int) =~= bytes@);
        Ok(())
    }

    /// Insert UTF-8 char at position
    pub fn insert_utf8_char(&mut self, char_index: usize, c: Utf8Char) -> (r: Result<(), Utf8Char>)
        requires
            old(self).wf(),
            old(self)@.len() + 4 <= usize::MAX,
        ensures
            final(self).wf(),
            final(self).spec_capacity() == old(self).spec_capacity(),
            r is Ok <==> fits(old(self).spec_capacity(), old(self)@.len(), c@.len()),
            r is Ok ==> final(self)@ == inserted(
                old(self)@,
                byte_pos(old(self)@, char_index as nat),
                c@,
            ),
            r matches Err(e) ==> e == c && final(self)@ == old(self)@,
            valid_utf8(old(self)@) && valid_utf8(c@) ==> valid_utf8(final(self)@),
    {
        proof {
            lemma_byte_pos_at_char(self@, char_index as nat);
        }
        let pos = self.get_byte_position(char_index);
        proof {
            lemma_pos_from_bounds(self@, 0, char_index as nat);
        }
        let bytes = c.as_bytes();
        match self.insert_bytes(pos, bytes) {
            Ok(()) => Ok(()),
            Err(()) => Err(c),
        }
    }

    /// Insert string at char position
    pub fn insert_str(&mut self, char_index: usize, s: &str) -> (r: Result<(), ()>)
        requires
            old(self).wf(),
            old(self)@.len() + s.spec_bytes().len() <= usize::MAX,
        ensures
            final(self).wf(),
            final(self).spec_capacity() == old(self).spec_capacity(),
            r is Ok <==> fits(old(self).spec_capacity(), old(self)@.len(), s.spec_bytes().len()),
            r is Ok ==> final(self)@ == inserted(
                old(self)@,
                byte_pos(old(self)@, char_index as nat),
                s.spec_bytes(),
            ),
            r is Err ==> final(self)@ == old(self)@,
            valid_utf8(old(self)@) ==> valid_utf8(final(self)@),
    {
        proof {
            vstd::utf8::encode_utf8_valid_utf8(s@);
            lemma_byte_pos_at_char(self@, char_index as nat);
        }
        let pos = self.get_byte_position(char_index);
        proof {
            lemma_pos_from_bounds(self@, 0, char_index as nat);
        }
        self.insert_bytes(pos, s.as_bytes())
    }
}

proof fn lemma_last_space_bound(s: Seq<u8>, m: int)
    ensures
        -1 <= last_space(s, m) < if m > 0 {
            m
        } else {
            0
        },
        last_space(s, m) == -1 || m > 0,
    decreases m,
{
    if m > 0 {
        lemma_last_space_bound(s, m - 1);
    }
}

/// Removing the bytes between two character starts keeps valid UTF-8.
proof fn lemma_valid_removed(s: Seq<u8>, a: int, b: int)
    requires
        valid_utf8(s),
        0 <= a <= b <= s.len(),
        at_char(s, a) || a == 0,
        at_char(s, b) || b == 0,
    ensures
        valid_utf8(removed(s, a, b)),
{
    lemma_valid_range(s, 0, a);
    lemma_valid_range(s, b, s.len() as int);
    vstd::utf8::valid_utf8_concat(s.subrange(0, a), s.subrange(b, s.len() as int));
}

/// Inserting valid UTF-8 where a character starts keeps valid UTF-8.
proof fn lemma_valid_inserted(s: Seq<u8>, i: int, x: Seq<u8>)
    requires
        valid_utf8(s),
        valid_utf8(x),
        0 <= i <= s.len(),
        at_char(s, i) || i == 0,
    ensures
        valid_utf8(inserted(s, i, x)),
{
    lemma_valid_range(s, 0, i);
    lemma_valid_range(s, i, s.len() as int);
    vstd::utf8::valid_utf8_concat(s.subrange(0, i), x);
    vstd::utf8::valid_utf8_concat(s.subrange(0, i) + x, s.subrange(i, s.len() as int));
}

/// Swapping two neighbouring characters keeps valid UTF-8.
proof fn lemma_valid_swapped(s: Seq<u8>, k: nat)
    requires
        valid_utf8(s),
        k >= 1,
    ensures
        valid_utf8(chars_swapped(s, k)),
{
    let p = byte_pos(s, (k - 1) as nat);
    let q = byte_pos(s, k);
    let r = byte_pos(s, k + 1);
    lemma_byte_pos_at_char(s, (k - 1) as nat);
    lemma_byte_pos_at_char(s, k);
    lemma_byte_pos_at_char(s, k + 1);
    lemma_pos_from_mono(s, 0, (k - 1) as nat, k);
    lemma_pos_from_mono(s, 0, k, k + 1);
    if q < s.len() {
        lemma_valid_range(s, 0, p);
        lemma_valid_range(s, q, r);
        lemma_valid_range(s, p, q);
        lemma_valid_range(s, r, s.len() as int);
        vstd::utf8::valid_utf8_concat(s.subrange(0, p), s.subrange(q, r));
        vstd::utf8::valid_utf8_concat(s.subrange(0, p) + s.subrange(q, r), s.subrange(p, q));
        vstd::utf8::valid_utf8_concat(
            s.subrange(0, p) + s.subrange(q, r) + s.subrange(p, q),
            s.subrange(r, s.len() as int),
        );
    }
}

/// Deleting a character keeps valid UTF-8.
proof fn lemma_valid_char_deleted(s: Seq<u8>, k: nat)
    requires
        valid_utf8(s),
    ensures
        valid_utf8(char_deleted(s, k)),
{
    lemma_byte_pos_at_char(s, k);
    lemma_byte_pos_at_char(s, k + 1);
    lemma_pos_from_mono(s, 0, k, k + 1);
    if byte_pos(s, k) < s.len() {
        lemma_valid_removed(s, byte_pos(s, k), byte_pos(s, k + 1));
    }
}

/// Cutting the line at a character keeps valid UTF-8.
proof fn lemma_valid_cut(s: Seq<u8>, k: nat)
    requires
        valid_utf8(s),
    ensures
        valid_utf8(s.subrange(0, byte_pos(s, k))),
{
    lemma_byte_pos_at_char(s, k);
    lemma_valid_range(s, 0, byte_pos(s, k));
}

/// Deleting a word keeps valid UTF-8.
proof fn lemma_valid_word_deleted(s: Seq<u8>, k: nat)
    requires
        valid_utf8(s),
        word_start_index(s, k) <= word_end_index(s, k),
    ensures
        valid_utf8(word_deleted(s, k)),
{
    let first = word_start_index(s, k);
    let n = word_end_index(s, k);
    lemma_byte_pos_at_char(s, first);
    lemma_byte_pos_at_char(s, n);
    lemma_pos_from_mono(s, 0, first, n);
    lemma_valid_removed(s, boundary(s, first), boundary(s, n));
}

} // verus!
