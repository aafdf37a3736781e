use vstd::prelude::*;

use super::circ_range::{circular_runs, run_len, CircularRange};
use core::ops::Range;

verus! {

/// Slice of a circular buffer
///
/// Consists of two separate consecutive slices if the circular slice
/// wraps around.
pub struct CircularSlice<'a> {
    buffer: &'a [u8],
    range: CircularRange,
}

/// The bytes of `buffer` in run `r`.
pub open spec fn run_bytes(buffer: Seq<u8>, r: Range<usize>) -> Seq<u8> {
    buffer.subrange(r.start as int, r.end as int)
}

impl<'a> View for CircularSlice<'a> {
    type V = Seq<u8>;

    /// The bytes of the slice, in order.
    open spec fn view(&self) -> Seq<u8> {
        run_bytes(self.buffer(), self.range().spec_ranges().0) + run_bytes(
            self.buffer(),
            self.range().spec_ranges().1,
        )
    }
}

impl<'a> CircularSlice<'a> {
    /// The whole circular buffer.
    pub closed spec fn buffer(&self) -> Seq<u8> {
        self.buffer@
    }

    pub closed spec fn range(&self) -> CircularRange {
        self.range
    }

    /// The runs lie within the buffer.
    pub open spec fn wf(&self) -> bool {
        self.range().wf(self.buffer().len())
    }

    pub fn new(buffer: &'a [u8], start: usize, end: usize, len: usize) -> (c: Self)
        requires
            start <= buffer@.len(),
            end <= buffer@.len(),
        ensures
            c.buffer() == buffer@,
            c.range().spec_ranges() == circular_runs(start, end, len, buffer@.len() as usize),
            (len > 0 || start <= end) ==> c.wf(),
    {
        Self::from_range(buffer, CircularRange::new(start, end, len, buffer.len()))
    }

    pub fn from_range(buffer: &'a [u8], range: CircularRange) -> (c: Self)
        ensures
            c.buffer() == buffer@,
            c.range() == range,
    {
        Self { buffer, range }
    }

    pub fn get_ranges(&self) -> (r: (Range<usize>, Range<usize>))
        ensures
            r == self.range().spec_ranges(),
    {
        self.range.get_ranges()
    }

    pub fn get_slices(&self) -> (s: (&'a [u8], &'a [u8]))
        requires
            self.wf(),
        ensures
            s.0@ == run_bytes(self.buffer(), self.range().spec_ranges().0),
            s.1@ == run_bytes(self.buffer(), self.range().spec_ranges().1),
            s.0@ + s.1@ == self@,
    {
        let (range1, range2) = self.get_ranges();

        (&self.buffer[range1.start..range1.end], &self.buffer[range2.start..range2.end])
    }

    /// Each byte of the slice with its index in the buffer, in order.
    pub fn indexed_bytes(&self) -> (v: Vec<(usize, u8)>)
        requires
            self.wf(),
        ensures
            v@.len() == self@.len(),
            forall|i: int| 0 <= i < v@.len() ==> (#[trigger] v@[i]).1 == self@[i],
            forall|i: int|
                0 <= i < run_len(self.range().spec_ranges().0) ==> (#[trigger] v@[i]).0
                    == self.range().spec_ranges().0.start + i,
            forall|i: int|
                run_len(self.range().spec_ranges().0) <= i < v@.len() ==> (#[trigger] v@[i]).0
                    == self.range().spec_ranges().1.start + (i - run_len(
                    self.range().spec_ranges().0,
                )),
    {
        let (range1, range2) = self.get_ranges();
        let ghost bytes = self@;
        let mut v: Vec<(usize, u8)> = Vec::new();
        let mut i = range1.start;
        while i < range1.end
            invariant
                self.wf(),
                bytes == self@,
                range1 == self.range().spec_ranges().0,
                range1.start <= i <= range1.end,
                v@.len() == i - range1.start,
                forall|j: int| 0 <= j < v@.len() ==> (#[trigger] v@[j]).1 == bytes[j],
                forall|j: int| 0 <= j < v@.len() ==> (#[trigger] v@[j]).0 == range1.start + j,
            decreases range1.end - i,
        {
            v.push((i, self.buffer[i]));
            i += 1;
        }
        let n1 = v.len();
        let mut i = range2.start;
        while i < range2.end
            invariant
                self.wf(),
                bytes == self@,
                range1 == self.range().spec_ranges().0,
                range2 == self.range().spec_ranges().1,
                range2.start <= i <= range2.end,
                n1 == run_len(range1),
                v@.len() == n1 + i - range2.start,
                forall|j: int| 0 <= j < v@.len() ==> (#[trigger] v@[j]).1 == bytes[j],
                forall|j: int| 0 <= j < n1 ==> (#[trigger] v@[j]).0 == range1.start + j,
                forall|j: int| n1 <= j < v@.len() ==> (#[trigger] v@[j]).0 == range2.start + (j - n1),
            decreases range2.end - i,
        {
            v.push((i, self.buffer[i]));
            i += 1;
        }
        v
    }
}

} // verus!
