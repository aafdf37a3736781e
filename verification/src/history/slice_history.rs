use vstd::prelude::*;

use super::circ_range::{circular_runs, run_len, CircularRange};
use super::circ_slice::{run_bytes, CircularSlice};
use super::history::History;
use super::window::Window;
use vstd::string::StringSliceAdditionalSpecFns;

verus! {

/// Static history backed by array
///
/// Lines are kept one after the other in a circular buffer, each
/// followed by a zero byte; adding a line that does not fit gives up the
/// oldest lines.
pub struct SliceHistory<'a> {
    buffer: &'a mut [u8],
    pub(super) window: Window,
}

/// The slot `x` places after slot `s` in a circular buffer of `cap`
/// slots (for `s < cap` and `x <= cap`).
pub open spec fn slot(s: int, x: int, cap: int) -> int {
    if s + x < cap {
        s + x
    } else {
        s + x - cap
    }
}

/// The `len` bytes of the circular buffer `buf` from slot `start` on.
pub open spec fn circular_content(buf: Seq<u8>, start: int, len: int) -> Seq<u8> {
    Seq::new(len as nat, |i: int| buf[slot(start, i, buf.len() as int)])
}

/// Index of the first zero byte of `w`, or its length.
pub open spec fn first_zero(w: Seq<u8>) -> int
    decreases w.len(),
{
    if w.len() == 0 {
        0
    } else if w[0] == 0 {
        0
    } else {
        first_zero(w.drop_first()) + 1
    }
}

/// The non-empty lines of the zero-separated bytes `w`, in order.
pub open spec fn pieces(w: Seq<u8>) -> Seq<Seq<u8>>
    decreases w.len(),
{
    let z = first_zero(w);
    proof {
        lemma_first_zero_bounds(w);
    }
    let head = if z > 0 {
        seq![w.subrange(0, z)]
    } else {
        Seq::empty()
    };
    if z >= w.len() {
        head
    } else {
        head + pieces(w.subrange(z + 1, w.len() as int))
    }
}

/// `buf` with `bytes` written from slot `p` on, wrapping around.
pub open spec fn written(buf: Seq<u8>, p: int, bytes: Seq<u8>) -> Seq<u8> {
    Seq::new(
        buf.len(),
        |j: int|
            {
                let d = if j >= p {
                    j - p
                } else {
                    j + buf.len() - p
                };
                if d < bytes.len() {
                    bytes[d]
                } else {
                    buf[j]
                }
            },
    )
}

/// The last `n` bytes of `w` (all of them when there are fewer).
pub open spec fn last_bytes(w: Seq<u8>, n: int) -> Seq<u8> {
    if w.len() <= n {
        w
    } else {
        w.subrange(w.len() - n, w.len() as int)
    }
}

/// `w` from its first zero byte on.
pub open spec fn from_first_zero(w: Seq<u8>) -> Seq<u8> {
    w.subrange(first_zero(w), w.len() as int)
}

/// The bytes of the circular buffer that a range covers.
pub open spec fn range_bytes(buf: Seq<u8>, r: CircularRange) -> Seq<u8> {
    run_bytes(buf, r.spec_ranges().0) + run_bytes(buf, r.spec_ranges().1)
}

/// The runs from slot `ps` to slot `slot(s, b)` cover the stored bytes
/// `a..b`, where `ps` is the slot of byte `a` (or the capacity, when byte
/// `a` is in slot 0 right after the last slot).
proof fn lemma_run_bytes(buf: Seq<u8>, s: int, len: int, a: int, b: int, ps: int)
    requires
        buf.len() < isize::MAX,
        0 <= s < buf.len(),
        0 < len <= buf.len(),
        0 <= a <= b <= len,
        ps == slot(s, a, buf.len() as int) || (ps == buf.len() && slot(s, a, buf.len() as int)
            == 0 && a > 0),
        ps != slot(s, b, buf.len() as int) || b - a == buf.len(),
    ensures
        ({
            let cap = buf.len() as int;
            let pe = slot(s, b, cap);
            let (r1, r2) = circular_runs(ps as usize, pe as usize, len as usize, cap as usize);
            &&& r1.start <= r1.end <= cap
            &&& r2.start <= r2.end <= cap
            &&& run_len(r1) + run_len(r2) == b - a
            &&& forall|k: int|
                0 <= k < run_len(r1) ==> r1.start + k == #[trigger] slot(s, a + k, cap)
            &&& forall|k: int|
                run_len(r1) <= k < run_len(r1) + run_len(r2) ==> r2.start + (k - run_len(r1))
                    == #[trigger] slot(s, a + k, cap)
            &&& run_bytes(buf, r1) + run_bytes(buf, r2) == circular_content(buf, s, len).subrange(
                a,
                b,
            )
        }),
{
    let cap = buf.len() as int;
    let pe = slot(s, b, cap);
    let (r1, r2) = circular_runs(ps as usize, pe as usize, len as usize, cap as usize);
    let w = circular_content(buf, s, len);
    if ps == cap {
        assert(s + a == cap);
        assert(pe == b - a);
        assert(r1 == (cap as usize..cap as usize));
        assert(r2 == (0usize..pe as usize));
    } else if s + b < cap {
        assert(ps == s + a && pe == s + b);
        assert(r1 == (ps as usize..pe as usize));
    } else if s + a < cap {
        if b - a == cap {
            assert(ps == pe);
        } else {
            assert(pe < ps);
        }
        assert(r1 == (ps as usize..cap as usize));
        assert(r2 == (0usize..pe as usize));
    } else {
        assert(ps == s + a - cap && pe == s + b - cap);
        assert(r1 == (ps as usize..pe as usize));
    }
    assert(run_bytes(buf, r1) + run_bytes(buf, r2) =~= w.subrange(a, b));
}

/// `new` is `old` with the line `line` added: the line and its zero byte
/// are written after the stored bytes (wrapping around), the oldest bytes
/// are given up as needed and, when the slot after the line held a
/// non-zero byte, also the bytes up to the next zero byte (the rest of a
/// partly overwritten line).
pub open spec fn is_added(old: SliceHistory, new: SliceHistory, line: Seq<u8>) -> bool {
    let cap = old.buf().len() as int;
    let e = old.spec_end();
    let n = line.len() as int;
    let narrowed = old.buf()[slot(e, n, cap)] != 0;
    let all = last_bytes(old.content() + line + seq![0u8], cap);
    &&& new.buf() == written(old.buf(), e, line + seq![0u8])
    &&& new.spec_end() == slot(e, n + 1, cap)
    &&& new.content() == if narrowed {
        from_first_zero(all)
    } else {
        all
    }
}

impl<'a> SliceHistory<'a> {
    /// The whole backing buffer.
    pub closed spec fn buf(&self) -> Seq<u8> {
        self.buffer@
    }

    /// Slot of the oldest stored byte.
    pub closed spec fn spec_start(&self) -> int {
        self.window.spec_start() as int
    }

    /// Number of stored bytes.
    pub closed spec fn spec_len(&self) -> int {
        self.window.spec_len() as int
    }

    /// Slot after the newest stored byte.
    pub open spec fn spec_end(&self) -> int {
        slot(self.spec_start(), self.spec_len(), self.buf().len() as int)
    }

    /// The stored bytes, oldest first.
    pub open spec fn content(&self) -> Seq<u8> {
        circular_content(self.buf(), self.spec_start(), self.spec_len())
    }

    /// The window fits the buffer.
    closed spec fn raw_wf(&self) -> bool {
        &&& self.window.wf()
        &&& self.window.size() == self.buffer@.len()
    }

    /// The window fits the buffer and every stored line is followed by
    /// its zero byte.
    pub closed spec fn spec_wf(&self) -> bool {
        &&& self.raw_wf()
        &&& (self.window.spec_len() == 0 || self.content().last() == 0)
    }

    proof fn lemma_wf(&self)
        requires
            self.raw_wf(),
        ensures
            0 < self.buf().len() < isize::MAX / 2,
            0 <= self.spec_start() < self.buf().len(),
            0 <= self.spec_len() <= self.buf().len(),
    {
        self.window.lemma_bounds();
    }

    /// Create new static history. The window's counters run up to twice
    /// the buffer's length and their difference is taken as an `isize`,
    /// so the buffer holds fewer than `isize::MAX / 2` bytes; an empty
    /// buffer has no slot to wrap around.
    pub fn new(buffer: &'a mut [u8]) -> (h: Self)
        requires
            0 < old(buffer)@.len() < isize::MAX / 2,
        ensures
            h.wf(),
            h.buf() == old(buffer)@,
            h.spec_start() == 0,
            h.spec_len() == 0,
            h.entries() == Seq::<Seq<u8>>::empty(),
    {
        let h = Self { window: Window::new(buffer.len()), buffer };
        proof {
            h.window.lemma_bounds();
            assert(h.content() =~= Seq::<u8>::empty());
        }
        h
    }
}

impl<'a> SliceHistory<'a> {
    pub fn get_available_range(&self) -> (r: CircularRange)
        requires
            self.wf(),
        ensures
            r.spec_ranges() == circular_runs(
                self.spec_end() as usize,
                self.spec_end() as usize,
                self.buf().len() as usize,
                self.buf().len() as usize,
            ),
            run_len(r.spec_ranges().0) + run_len(r.spec_ranges().1) == self.buf().len(),
    {
        proof {
            self.lemma_wf();
            self.lemma_end();
        }
        let len = self.buffer.len();
        let end = self.window.end();
        CircularRange::new(end, end, len, len)
    }

    proof fn lemma_end(&self)
        requires
            self.raw_wf(),
        ensures
            self.window.spec_end() == self.spec_end(),
            0 <= self.spec_end() < self.buf().len(),
    {
        self.lemma_wf();
        lemma_mod_slot(self.spec_start(), self.spec_len(), self.buf().len() as int);
    }

    /// Stores `b` after the newest byte, giving up the oldest one when
    /// the buffer is full.
    fn push_byte(&mut self, b: u8)
        requires
            old(self).raw_wf(),
        ensures
            final(self).raw_wf(),
            final(self).buf() == old(self).buf().update(old(self).spec_end(), b),
            final(self).spec_end() == slot(old(self).spec_end(), 1, old(self).buf().len() as int),
            final(self).content() == last_bytes(
                old(self).content().push(b),
                old(self).buf().len() as int,
            ),
            final(self).content().last() == b,
    {
        proof {
            self.lemma_wf();
            self.lemma_end();
            lemma_push_content(self.buf(), self.spec_start(), self.spec_len(), b);
            lemma_mod_slot(self.spec_start(), 1, self.buf().len() as int);
        }
        let end = self.window.end();
        self.buffer[end] = b;
        self.window.widen();
        proof {
            self.lemma_wf();
        }
    }

    /// Stores the first `count` bytes of `bytes` after the newest byte,
    /// giving up the oldest ones as needed.
    fn write_bytes(&mut self, bytes: &[u8], count: usize)
        requires
            old(self).raw_wf(),
            count == bytes@.len(),
            bytes@.len() < old(self).buf().len(),
        ensures
            final(self).raw_wf(),
            final(self).buf() == written(old(self).buf(), old(self).spec_end(), bytes@),
            final(self).spec_end() == slot(
                old(self).spec_end(),
                bytes@.len() as int,
                old(self).buf().len() as int,
            ),
            final(self).content() == last_bytes(
                old(self).content() + bytes@,
                old(self).buf().len() as int,
            ),
    {
        proof {
            self.lemma_wf();
            self.lemma_end();
        }
        let ghost buf0 = self.buf();
        let ghost c0 = self.content();
        let ghost e0 = self.spec_end();
        let ghost cap = buf0.len() as int;
        let ghost n = bytes@.len() as int;
        let mut i: usize = 0;
        proof {
            assert(buf0 =~= written(buf0, e0, bytes@.subrange(0, 0)));
            assert(c0 + bytes@.subrange(0, 0) =~= c0);
        }
        while i < count
            invariant
                self.raw_wf(),
                self.buf().len() == cap,
                0 <= e0 < cap,
                count == n,
                n == bytes@.len(),
                n + 1 <= cap,
                0 <= i <= n,
                self.buf() == written(buf0, e0, bytes@.subrange(0, i as int)),
                self.spec_end() == slot(e0, i as int, cap),
                self.content() == last_bytes(c0 + bytes@.subrange(0, i as int), cap),
            decreases n - i,
        {
            self.push_byte(bytes[i]);
            proof {
                assert(self.buf() =~= written(buf0, e0, bytes@.subrange(0, i + 1)));
                assert(c0 + bytes@.subrange(0, i + 1) =~= (c0 + bytes@.subrange(0, i as int)).push(
                    bytes@[i as int],
                ));
                lemma_last_bytes_push(c0 + bytes@.subrange(0, i as int), bytes@[i as int], cap);
            }
            i += 1;
        }
        proof {
            assert(bytes@.subrange(0, n) =~= bytes@);
        }
    }

    /// Gives up the oldest stored bytes up to the first zero byte.
    fn trim_to_zero(&mut self)
        requires
            old(self).raw_wf(),
            old(self).spec_len() > 0,
            old(self).content().last() == 0,
        ensures
            final(self).raw_wf(),
            final(self).buf() == old(self).buf(),
            final(self).spec_end() == old(self).spec_end(),
            final(self).content() == from_first_zero(old(self).content()),
            final(self).spec_len() > 0,
            final(self).content().last() == 0,
    {
        let ghost all = self.content();
        let ghost mut k: int = 0;
        proof {
            self.lemma_wf();
            assert(all.subrange(0, all.len() as int) =~= all);
        }
        while self.buffer[self.window.start()] != 0x0
            invariant
                self.raw_wf(),
                0 <= self.spec_start() < self.buf().len(),
                self.buf() == old(self).buf(),
                self.spec_end() == old(self).spec_end(),
                all == old(self).content(),
                all.len() > 0,
                all.last() == 0,
                0 <= k < all.len(),
                self.content() == all.subrange(k, all.len() as int),
                self.spec_len() == all.len() - k,
                forall|j: int| 0 <= j < k ==> all[j] != 0,
            decreases all.len() - k,
        {
            proof {
                assert(self.content()[0] == all[k]);
            }
            self.drop_first_byte();
            proof {
                self.lemma_wf();
                assert(all.subrange(k + 1, all.len() as int) =~= all.subrange(
                    k,
                    all.len() as int,
                ).drop_first());
                k = k + 1;
            }
        }
        proof {
            assert(self.content()[0] == all[k]);
            lemma_first_zero(all, k);
        }
    }

    /// Gives up the oldest stored byte.
    fn drop_first_byte(&mut self)
        requires
            old(self).raw_wf(),
            old(self).spec_len() > 0,
        ensures
            final(self).raw_wf(),
            final(self).buf() == old(self).buf(),
            final(self).spec_end() == old(self).spec_end(),
            final(self).content() == old(self).content().drop_first(),
    {
        proof {
            self.lemma_wf();
            lemma_drop_content(self.buf(), self.spec_start(), self.spec_len());
            lemma_mod_slot(self.spec_start(), 1, self.buf().len() as int);
        }
        self.window.narrow();
        proof {
            self.lemma_wf();
        }
    }

    /// The stored bytes as a slice of the buffer.
    fn get_buffer(&self) -> (c: CircularSlice<'_>)
        requires
            self.wf(),
        ensures
            c.wf(),
            c.buffer() == self.buf(),
            c@ == self.content(),
            forall|i: int|
                0 <= i < run_len(c.range().spec_ranges().0) ==> c.range().spec_ranges().0.start + i
                    == #[trigger] slot(self.spec_start(), i, self.buf().len() as int),
            forall|i: int|
                run_len(c.range().spec_ranges().0) <= i < self.spec_len() ==> c.range().spec_ranges().1.start
                    + (i - run_len(c.range().spec_ranges().0)) == #[trigger] slot(
                    self.spec_start(),
                    i,
                    self.buf().len() as int,
                ),
    {
        proof {
            self.lemma_wf();
            self.lemma_end();
        }
        let c = CircularSlice::new(
            self.buffer,
            self.window.start(),
            self.window.end(),
            self.window.len(),
        );
        proof {
            let w = self.content();
            if self.spec_len() > 0 {
                lemma_run_bytes(self.buf(), self.spec_start(), self.spec_len(), 0, self.spec_len(), self.spec_start());
                assert(w.subrange(0, self.spec_len()) =~= w);
            } else {
                assert(c@ =~= w);
            }
        }
        c
    }

    /// The ranges of the stored lines, oldest first.
    fn get_entry_ranges(&self) -> (v: Vec<CircularRange>)
        requires
            self.wf(),
        ensures
            v@.len() == self.entries().len(),
            forall|i: int|
                0 <= i < v@.len() ==> (#[trigger] v@[i]).wf(self.buf().len()) && range_bytes(
                    self.buf(),
                    v@[i],
                ) == self.entries()[i],
    {
        proof {
            self.lemma_wf();
            self.lemma_end();
        }
        let ghost w = self.content();
        let ghost st = self.spec_start();
        let ghost cap = self.buf().len() as int;
        let ghost ln = self.spec_len();
        let ghost entries = self.entries();
        let items = self.get_buffer().indexed_bytes();
        let len = self.window.len();
        let capacity = self.buffer.len();
        let window_end = self.window.end();
        let mut ranges: Vec<CircularRange> = Vec::new();
        let mut start = self.window.start();
        let ghost mut a: int = 0;
        proof {
            assert(w.subrange(0, ln) =~= w);
            assert(Seq::new(ranges@.len(), |j: int| range_bytes(self.buf(), ranges@[j])) + pieces(w)
                =~= pieces(w));
        }
        let mut i: usize = 0;
        while i < items.len()
            invariant
                self.wf(),
                w == self.content(),
                entries == self.entries(),
                st == self.spec_start(),
                cap == self.buf().len(),
                ln == self.spec_len(),
                len == ln,
                capacity == cap,
                0 < cap < isize::MAX / 2,
                0 <= st < cap,
                0 <= ln <= cap,
                items@.len() == ln,
                forall|j: int| 0 <= j < items@.len() ==> (#[trigger] items@[j]).1 == w[j],
                forall|j: int| 0 <= j < items@.len() ==> (#[trigger] items@[j]).0 == slot(st, j, cap),
                0 <= a <= i <= ln,
                forall|j: int| a <= j < i ==> w[j] != 0,
                start == slot(st, a, cap),
                forall|j: int|
                    0 <= j < ranges@.len() ==> (#[trigger] ranges@[j]).wf(cap as nat),
                Seq::new(ranges@.len(), |j: int| range_bytes(self.buf(), ranges@[j])) + pieces(
                    w.subrange(a, ln),
                ) == entries,
            decreases ln - i,
        {
            let (index, b) = items[i];
            if b == 0 {
                let ghost piece_start = a;
                let ghost old_ranges = ranges@;
                proof {
                    let rest = w.subrange(a, ln);
                    lemma_first_zero(rest, i - a);
                }
                if start != index {
                    let r = CircularRange::new(start, index, len, capacity);
                    proof {
                        lemma_run_bytes(self.buf(), st, ln, a, i as int, start as int);
                    }
                    ranges.push(r);
                }
                proof {
                    let rest = w.subrange(a, ln);
                    assert(rest.subrange(i - a + 1, rest.len() as int) =~= w.subrange(i + 1, ln));
                    assert(rest.subrange(0, i - a) =~= w.subrange(a, i as int));
                    let head = if i - a > 0 {
                        seq![rest.subrange(0, i - a)]
                    } else {
                        Seq::empty()
                    };
                    assert(pieces(rest) == head + pieces(w.subrange(i + 1, ln)));
                    assert(Seq::new(ranges@.len(), |j: int| range_bytes(self.buf(), ranges@[j]))
                        =~= Seq::new(old_ranges.len(), |j: int| range_bytes(self.buf(), old_ranges[j]))
                        + head);
                    a = i + 1;
                }
                start = if index + 1 == capacity {
                    0
                } else {
                    index + 1
                };
            }
            i += 1;
        }
        if start != window_end {
            proof {
                lemma_run_bytes(self.buf(), st, ln, a, ln, start as int);
            }
            ranges.push(CircularRange::new(start, window_end, len, capacity));
        }
        proof {
            let rest = w.subrange(a, ln);
            lemma_first_zero(rest, ln - a);
            assert(ln > 0 ==> a == ln);
        }
        ranges
    }

    /// The stored lines, oldest first.
    pub fn get_entries(&self) -> (v: Vec<CircularSlice<'_>>)
        requires
            self.wf(),
        ensures
            v@.len() == self.entries().len(),
            forall|i: int| 0 <= i < v@.len() ==> (#[trigger] v@[i]).wf() && v@[i]@ == self.entries()[i],
    {
        let ranges = self.get_entry_ranges();
        let mut v: Vec<CircularSlice<'_>> = Vec::new();
        let mut i: usize = 0;
        let mut ranges = ranges;
        let ghost all = ranges@;
        let mut rev: Vec<CircularRange> = Vec::new();
        while ranges.len() > 0
            invariant
                rev@.len() + ranges@.len() == all.len(),
                forall|j: int| 0 <= j < ranges@.len() ==> ranges@[j] == all[j],
                forall|j: int| 0 <= j < rev@.len() ==> rev@[j] == all[all.len() - 1 - j],
            decreases ranges@.len(),
        {
            let r = ranges.pop().unwrap();
            rev.push(r);
        }
        while rev.len() > 0
            invariant
                self.wf(),
                v@.len() + rev@.len() == all.len(),
                all.len() == self.entries().len(),
                forall|j: int| 0 <= j < rev@.len() ==> rev@[j] == all[all.len() - 1 - j],
                forall|j: int|
                    0 <= j < all.len() ==> (#[trigger] all[j]).wf(self.buf().len()) && range_bytes(
                        self.buf(),
                        all[j],
                    ) == self.entries()[j],
                forall|j: int| 0 <= j < v@.len() ==> (#[trigger] v@[j]).wf() && v@[j]@ == self.entries()[j],
            decreases rev@.len(),
        {
            let r = rev.pop().unwrap();
            let c = CircularSlice::from_range(self.buffer, r);
            v.push(c);
        }
        v
    }
}

/// The stored bytes after `line` and its zero byte are written after
/// the newest byte of a buffer `buf` whose stored bytes start at slot
/// `start` and are `len` long (see `is_added`).
pub open spec fn added_content(buf: Seq<u8>, start: int, len: int, line: Seq<u8>) -> Seq<u8> {
    let cap = buf.len() as int;
    let e = slot(start, len, cap);
    let all = last_bytes(circular_content(buf, start, len) + line + seq![0u8], cap);
    if buf[slot(e, line.len() as int, cap)] != 0 {
        from_first_zero(all)
    } else {
        all
    }
}

/// What a slice history holds: its buffer, the slot of its oldest stored
/// byte and the number of stored bytes.
pub open spec fn slice_model_add(m: (Seq<u8>, int, int), line: Seq<u8>) -> Option<
    (Seq<u8>, int, int),
> {
    let (buf, start, len) = m;
    let cap = buf.len() as int;
    if line.len() + 1 > cap {
        None
    } else {
        let e = slot(start, len, cap);
        let c = added_content(buf, start, len, line);
        let e2 = slot(e, line.len() + 1int, cap);
        Some((written(buf, e, line + seq![0u8]), slot(e2, cap - c.len(), cap), c.len() as int))
    }
}

impl<'a> History for SliceHistory<'a> {
    type Model = (Seq<u8>, int, int);

    open spec fn model(&self) -> (Seq<u8>, int, int) {
        (self.buf(), self.spec_start(), self.spec_len())
    }

    open spec fn model_entries(m: (Seq<u8>, int, int)) -> Seq<Seq<u8>> {
        pieces(circular_content(m.0, m.1, m.2))
    }

    /// A line is refused when it and its zero byte do not fit in the
    /// buffer; otherwise it is written after the newest byte (see
    /// `is_added`).
    open spec fn model_add(m: (Seq<u8>, int, int), entry: Seq<u8>) -> Option<(Seq<u8>, int, int)> {
        slice_model_add(m, entry)
    }

    proof fn lemma_model_entries(&self) {
    }

    open spec fn entries(&self) -> Seq<Seq<u8>> {
        pieces(self.content())
    }

    open spec fn wf(&self) -> bool {
        self.spec_wf()
    }

    #[verifier::rlimit(40)]
    fn add_entry<'b>(&mut self, entry: &'b str) -> (r: Result<(), &'b str>)
        ensures
            r is Err <==> entry.spec_bytes().len() + 1 > old(self).buf().len(),
            r is Err ==> r == Err::<(), &'b str>(entry) && *final(self) == *old(self),
            r is Ok ==> is_added(*old(self), *final(self), entry.spec_bytes()),
    {
        let ghost h0 = *self;
        proof {
            self.lemma_wf();
            self.lemma_end();
        }
        let bytes = entry.as_bytes();
        if bytes.len() >= self.buffer.len() {
            return Err(entry);
        }
        let ghost buf0 = self.buf();
        let ghost c0 = self.content();
        let ghost e0 = self.spec_end();
        let ghost cap = buf0.len() as int;
        let ghost n = bytes@.len() as int;
        let available = self.get_available_range().into_indices();
        let count = if available.len() < bytes.len() {
            available.len()
        } else {
            bytes.len()
        };
        self.write_bytes(bytes, count);
        proof {
            self.lemma_wf();
            self.lemma_end();
            assert(bytes@.subrange(0, n) =~= bytes@);
            assert(self.buf()[slot(e0, n, cap)] == buf0[slot(e0, n, cap)]);
            assert(c0 + bytes@ + seq![0u8] =~= (c0 + bytes@).push(0u8));
            lemma_last_bytes_push(c0 + bytes@, 0u8, cap);
        }
        let ghost all = last_bytes(c0 + bytes@ + seq![0u8], cap);
        let end = self.window.end();
        if self.buffer[end] != 0x0 {
            self.push_byte(0x0);
            proof {
                assert(self.buf() =~= written(buf0, e0, bytes@ + seq![0u8]));
            }
            self.trim_to_zero();
        } else {
            self.push_byte(0x0);
            proof {
                assert(self.buf() =~= written(buf0, e0, bytes@ + seq![0u8]));
            }
        }
        proof {
            lemma_added_model(h0, *self, bytes@);
        }
        Ok(())
    }

    fn number_of_entries(&self) -> (n: usize) {
        self.get_entries().len()
    }

    fn get_entry(&self, index: usize) -> (e: Option<CircularSlice<'_>>) {
        let mut entries = self.get_entries();
        if index < entries.len() {
            Some(entries.swap_remove(index))
        } else {
            None
        }
    }
}

/// An added line leaves the history holding what `slice_model_add` says.
proof fn lemma_added_model(old: SliceHistory, new: SliceHistory, line: Seq<u8>)
    requires
        old.wf(),
        new.wf(),
        new.buf().len() == old.buf().len(),
        is_added(old, new, line),
        line.len() + 1 <= old.buf().len(),
    ensures
        slice_model_add(old.model(), line) == Some(new.model()),
{
    old.lemma_wf();
    new.lemma_wf();
    let cap = old.buf().len() as int;
    let c = added_content(old.buf(), old.spec_start(), old.spec_len(), line);
    assert(new.content() == c);
    assert(new.spec_len() == c.len());
    assert(new.spec_start() == slot(new.spec_end(), cap - c.len(), cap));
}

proof fn lemma_mod_slot(s: int, x: int, cap: int)
    requires
        0 <= s < cap,
        0 <= x <= cap,
    ensures
        (s + x) % cap == slot(s, x, cap),
{
    if s + x < cap {
        vstd::arithmetic::div_mod::lemma_small_mod((s + x) as nat, cap as nat);
    } else {
        vstd::arithmetic::div_mod::lemma_mod_sub_multiples_vanish(s + x, cap);
        vstd::arithmetic::div_mod::lemma_small_mod((s + x - cap) as nat, cap as nat);
    }
}

/// Writing byte `b` after the stored bytes and widening the window
/// stores `b` last, giving up the oldest byte when the buffer was full.
proof fn lemma_push_content(buf: Seq<u8>, s: int, len: int, b: u8)
    requires
        0 <= s < buf.len(),
        0 <= len <= buf.len(),
    ensures
        ({
            let cap = buf.len() as int;
            let buf2 = buf.update(slot(s, len, cap), b);
            let (s2, len2) = if len < cap {
                (s, len + 1)
            } else {
                (slot(s, 1, cap), len)
            };
            &&& 0 <= s2 < cap
            &&& circular_content(buf2, s2, len2) == last_bytes(
                circular_content(buf, s, len).push(b),
                cap,
            )
            &&& slot(s2, len2, cap) == slot(slot(s, len, cap), 1, cap)
        }),
{
    let cap = buf.len() as int;
    let buf2 = buf.update(slot(s, len, cap), b);
    let (s2, len2) = if len < cap {
        (s, len + 1)
    } else {
        (slot(s, 1, cap), len)
    };
    assert(circular_content(buf2, s2, len2) =~= last_bytes(
        circular_content(buf, s, len).push(b),
        cap,
    ));
}

/// Narrowing the window gives up the oldest stored byte.
proof fn lemma_drop_content(buf: Seq<u8>, s: int, len: int)
    requires
        0 <= s < buf.len(),
        0 < len <= buf.len(),
    ensures
        circular_content(buf, slot(s, 1, buf.len() as int), len - 1) == circular_content(
            buf,
            s,
            len,
        ).drop_first(),
        0 <= slot(s, 1, buf.len() as int) < buf.len(),
        slot(slot(s, 1, buf.len() as int), len - 1, buf.len() as int) == slot(s, len, buf.len() as int),
{
    assert(circular_content(buf, slot(s, 1, buf.len() as int), len - 1) =~= circular_content(
        buf,
        s,
        len,
    ).drop_first());
}

proof fn lemma_last_bytes_push(w: Seq<u8>, b: u8, n: int)
    requires
        n >= 1,
    ensures
        last_bytes(last_bytes(w, n).push(b), n) == last_bytes(w.push(b), n),
        last_bytes(w.push(b), n).last() == b,
        last_bytes(w.push(b), n).len() > 0,
{
    assert(last_bytes(last_bytes(w, n).push(b), n) =~= last_bytes(w.push(b), n));
}

proof fn lemma_first_zero(w: Seq<u8>, k: int)
    requires
        0 <= k <= w.len(),
        forall|j: int| 0 <= j < k ==> w[j] != 0,
        k < w.len() ==> w[k] == 0,
    ensures
        first_zero(w) == k,
    decreases k,
{
    if k > 0 {
        lemma_first_zero(w.drop_first(), k - 1);
    }
}

pub proof fn lemma_first_zero_bounds(w: Seq<u8>)
    ensures
        0 <= first_zero(w) <= w.len(),
        forall|j: int| 0 <= j < first_zero(w) ==> w[j] != 0,
        first_zero(w) < w.len() ==> w[first_zero(w)] == 0,
    decreases w.len(),
{
    if w.len() > 0 && w[0] != 0 {
        lemma_first_zero_bounds(w.drop_first());
        assert forall|j: int| 0 <= j < first_zero(w) implies w[j] != 0 by {
            if j > 0 {
                assert(w[j] == w.drop_first()[j - 1]);
            }
        };
    }
}

/// The lines of zero-free non-empty bytes are those bytes.
proof fn lemma_pieces_single(w: Seq<u8>)
    requires
        w.len() > 0,
        forall|i: int| 0 <= i < w.len() ==> w[i] != 0,
    ensures
        pieces(w) == seq![w],
{
    lemma_first_zero(w, w.len() as int);
    assert(w.subrange(0, w.len() as int) =~= w);
}

/// No bytes hold no lines.
proof fn lemma_pieces_empty()
    ensures
        pieces(Seq::<u8>::empty()) == Seq::<Seq<u8>>::empty(),
{
    assert(Seq::<u8>::empty().subrange(0, 0) =~= Seq::<u8>::empty());
}

/// The lines of `x`, a zero byte and `q` are the lines of `x` followed by
/// those of `q`.
proof fn lemma_pieces_split(x: Seq<u8>, q: Seq<u8>)
    ensures
        pieces(x + seq![0u8] + q) == pieces(x) + pieces(q),
    decreases x.len(),
{
    let u = x + seq![0u8] + q;
    lemma_first_zero_bounds(x);
    let z = first_zero(x);
    if z == x.len() {
        lemma_first_zero(u, x.len() as int);
        assert(u.subrange(0, z) =~= x);
        assert(u.subrange(z + 1, u.len() as int) =~= q);
        assert(x.subrange(0, z) =~= x);
        if z > 0 {
            assert(pieces(x) == seq![x]);
        } else {
            assert(pieces(x) =~= Seq::<Seq<u8>>::empty());
        }
    } else {
        lemma_first_zero(u, z);
        let x2 = x.subrange(z + 1, x.len() as int);
        assert(u.subrange(0, z) =~= x.subrange(0, z));
        assert(u.subrange(z + 1, u.len() as int) =~= x2 + seq![0u8] + q);
        lemma_pieces_split(x2, q);
    }
}

/// Keeping the last `cap` bytes of `c0`, a line and a zero byte (and
/// maybe dropping them up to the first zero byte) leaves some older bytes,
/// empty or ending with a zero byte, then the line and its zero byte.
proof fn lemma_added_bytes(c0: Seq<u8>, line: Seq<u8>, cap: int, narrowed: bool) -> (y: Seq<u8>)
    requires
        c0.len() <= cap,
        c0.len() == 0 || c0.last() == 0,
        line.len() + 1 <= cap,
        narrowed ==> c0.len() > 0 && line.len() + 1 < cap,
        forall|i: int| 0 <= i < line.len() ==> line[i] != 0,
    ensures
        ({
            let all = last_bytes(c0 + line + seq![0u8], cap);
            let c = if narrowed {
                from_first_zero(all)
            } else {
                all
            };
            &&& c == y + line + seq![0u8]
            &&& y.len() == 0 || y.last() == 0
            &&& y.len() + line.len() + 1 <= cap
        }),
{
    let n = line.len() as int;
    let t = c0 + line + seq![0u8];
    let all = last_bytes(t, cap);
    assert(all.len() >= n + 1);
    assert(all.subrange(all.len() - n - 1, all.len() as int) =~= line + seq![0u8]);
    let c = if narrowed {
        from_first_zero(all)
    } else {
        all
    };
    if narrowed {
        lemma_first_zero_bounds(all);
        let z = first_zero(all);
        assert(all[all.len() - n - 2] == 0) by {
            assert(all[all.len() - n - 2] == t[t.len() - n - 2]);
            assert(t[t.len() - n - 2] == c0.last());
        };
        assert(z <= all.len() - n - 2);
    }
    let y = c.subrange(0, c.len() - n - 1);
    assert(c.len() >= n + 1);
    assert(c.subrange(c.len() - n - 1, c.len() as int) =~= line + seq![0u8]);
    assert(c =~= y + line + seq![0u8]);
    assert(y.len() == 0 || y.last() == 0) by {
        if y.len() > 0 {
            if narrowed {
                assert(y.last() == c[c.len() - n - 2]);
            } else if t.len() <= cap {
                assert(y.last() == c0.last());
            } else {
                assert(y.last() == t[t.len() - n - 2]);
                assert(t[t.len() - n - 2] == c0.last());
            }
        }
    };
    y
}

/// The lines of `y`, a line and its zero byte end with that line, when
/// `y` is empty or ends with a zero byte.
proof fn lemma_pieces_last(y: Seq<u8>, line: Seq<u8>)
    requires
        y.len() == 0 || y.last() == 0,
        line.len() > 0,
        forall|i: int| 0 <= i < line.len() ==> line[i] != 0,
    ensures
        pieces(y + line + seq![0u8]).len() >= 1,
        pieces(y + line + seq![0u8]).last() == line,
{
    lemma_pieces_empty();
    assert(line + seq![0u8] + Seq::<u8>::empty() =~= line + seq![0u8]);
    lemma_pieces_split(line, Seq::empty());
    lemma_pieces_single(line);
    if y.len() == 0 {
        assert(y + line + seq![0u8] =~= line + seq![0u8]);
    } else {
        let x = y.drop_last();
        assert(y =~= x + seq![0u8]);
        assert(y + line + seq![0u8] =~= x + seq![0u8] + (line + seq![0u8]));
        lemma_pieces_split(x, line + seq![0u8]);
    }
}

/// Law: after a non-empty line without zero bytes is added, it is the
/// newest line. This holds unless the line is written right after a stored part that
/// has no zero byte left to keep (a slot after the line that held a
/// non-zero byte while nothing was stored, or a line taking the whole
/// buffer but one byte).
pub proof fn lemma_added_line_is_newest(old: SliceHistory, new: SliceHistory, line: Seq<u8>)
    requires
        old.wf(),
        new.wf(),
        new.buf().len() == old.buf().len(),
        is_added(old, new, line),
        line.len() > 0,
        line.len() + 1 <= old.buf().len(),
        line.len() + 1 < old.buf().len() || old.buf()[slot(old.spec_end(), line.len() as int, old.buf().len() as int)] == 0,
        old.spec_len() > 0 || old.buf()[slot(old.spec_end(), line.len() as int, old.buf().len() as int)] == 0,
        forall|i: int| 0 <= i < line.len() ==> line[i] != 0,
    ensures
        new.entries().len() >= 1,
        new.entries().last() == line,
{
    old.lemma_wf();
    new.lemma_wf();
    let cap = old.buf().len() as int;
    let narrowed = old.buf()[slot(old.spec_end(), line.len() as int, cap)] != 0;
    assert(old.content().len() == old.spec_len());
    let y = lemma_added_bytes(old.content(), line, cap, narrowed);
    lemma_pieces_last(y, line);
}

} // verus!
