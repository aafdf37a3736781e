use vstd::prelude::*;

use core::ops::Range;

verus! {

/// Indices of a part of a circular buffer: one run of indices, or two
/// when the part wraps around the end.
#[derive(Debug)]
pub enum CircularRange {
    Consecutive(Range<usize>),
    Split(Range<usize>, Range<usize>),
}

/// The two runs that `CircularRange::new(start, end, len, capacity)`
/// describes: a non-empty part that does not run forward from `start` to
/// `end` wraps around the end of the buffer.
pub open spec fn circular_runs(start: usize, end: usize, len: usize, capacity: usize) -> (
    Range<usize>,
    Range<usize>,
) {
    if len > 0 && !(start < end) {
        (start..capacity, 0..end)
    } else {
        (start..end, 0..0)
    }
}

/// Number of indices in a run (none when it runs backwards).
pub open spec fn run_len(r: Range<usize>) -> int {
    if r.start <= r.end {
        r.end - r.start
    } else {
        0
    }
}

impl CircularRange {
    /// The two runs, the second empty unless the range wraps.
    pub open spec fn spec_ranges(&self) -> (Range<usize>, Range<usize>) {
        match self {
            CircularRange::Consecutive(range) => (*range, 0..0),
            CircularRange::Split(range1, range2) => (*range1, *range2),
        }
    }

    /// Both runs go forward and stay within `capacity` slots.
    pub open spec fn wf(&self, capacity: nat) -> bool {
        let (r1, r2) = self.spec_ranges();
        &&& r1.start <= r1.end <= capacity
        &&& r2.start <= r2.end <= capacity
    }

    pub fn new(start: usize, end: usize, len: usize, capacity: usize) -> (r: Self)
        requires
            start <= capacity,
            end <= capacity,
        ensures
            r.spec_ranges() == circular_runs(start, end, len, capacity),
            (len > 0 || start <= end) ==> r.wf(capacity as nat),
    {
        if len > 0 {
            if start < end {
                Self::Consecutive(start..end)
            } else {
                Self::Split(start..capacity, 0..end)
            }
        } else {
            Self::Consecutive(start..end)
        }
    }

    pub fn get_ranges(&self) -> (r: (Range<usize>, Range<usize>))
        ensures
            r == self.spec_ranges(),
    {
        match self {
            CircularRange::Consecutive(range) => (range.start..range.end, 0..0),
            CircularRange::Split(range1, range2) => (
                range1.start..range1.end,
                range2.start..range2.end,
            ),
        }
    }

    /// The indices, in order: the first run, then the second.
    pub fn into_indices(self) -> (v: Vec<usize>)
        ensures
            v@.len() == run_len(self.spec_ranges().0) + run_len(self.spec_ranges().1),
            forall|i: int|
                0 <= i < run_len(self.spec_ranges().0) ==> #[trigger] v@[i] == self.spec_ranges().0.start
                    + i,
            forall|i: int|
                run_len(self.spec_ranges().0) <= i < v@.len() ==> #[trigger] v@[i]
                    == self.spec_ranges().1.start + (i - run_len(self.spec_ranges().0)),
    {
        let (range1, range2) = self.get_ranges();
        let mut v: Vec<usize> = Vec::new();
        let mut i = range1.start;
        while i < range1.end
            invariant
                range1.start <= i <= range1.end || (range1.start > range1.end && i == range1.start),
                v@.len() == i - range1.start,
                forall|j: int| 0 <= j < v@.len() ==> #[trigger] v@[j] == range1.start + j,
            decreases range1.end - i,
        {
            v.push(i);
            i += 1;
        }
        let n1 = v.len();
        let mut i = range2.start;
        while i < range2.end
            invariant
                range2.start <= i <= range2.end || (range2.start > range2.end && i == range2.start),
                n1 == run_len(range1),
                v@.len() == n1 + i - range2.start,
                forall|j: int| 0 <= j < n1 ==> #[trigger] v@[j] == range1.start + j,
                forall|j: int| n1 <= j < v@.len() ==> #[trigger] v@[j] == range2.start + (j - n1),
            decreases range2.end - i,
        {
            v.push(i);
            i += 1;
        }
        v
    }
}

/// Law: a non-empty part of `len` slots (at most the capacity) that
/// starts at slot `start` and ends where the next part begins covers
/// exactly `len` indices.
pub proof fn lemma_circular_runs_len(start: usize, len: usize, capacity: usize)
    requires
        0 < len <= capacity,
        start < capacity,
    ensures
        ({
            let (r1, r2) = circular_runs(start, ((start + len) % (capacity as int)) as usize, len, capacity);
            run_len(r1) + run_len(r2) == len
        }),
{
    let c = capacity as int;
    if start + len < c {
        vstd::arithmetic::div_mod::lemma_small_mod((start + len) as nat, c as nat);
    } else {
        vstd::arithmetic::div_mod::lemma_fundamental_div_mod(start + len, c);
        assert((start + len) / c == 1) by (nonlinear_arith)
            requires
                start + len == c * ((start + len) / c) + (start + len) % c,
                0 <= (start + len) % c < c,
                c <= start + len < 2 * c,
        ;
    }
}

} // verus!
