use vstd::prelude::*;

verus! {

/// An index that keeps counting past the end of a circular buffer of
/// `size` elements; [`CircularIndex::index`] reduces it to a slot.
#[derive(Copy, Clone, Eq, PartialEq, Debug)]
pub struct CircularIndex {
    pub(super) index: usize,
    pub(super) size: usize,
}

impl CircularIndex {
    /// The unreduced count.
    pub closed spec fn count(&self) -> nat {
        self.index as nat
    }

    pub closed spec fn size(&self) -> nat {
        self.size as nat
    }

    pub(super) proof fn lemma_fields(&self)
        ensures
            self.count() == self.index,
            self.size() == self.size,
    {
    }

    pub fn new(index: usize, size: usize) -> (c: Self)
        ensures
            c.count() == index,
            c.size() == size,
    {
        Self { index, size }
    }

    pub fn set(&mut self, index: usize)
        ensures
            final(self).count() == index,
            final(self).size() == old(self).size(),
    {
        self.index = index;
    }

    pub fn add(&mut self, value: usize)
        requires
            old(self).count() + value <= usize::MAX,
        ensures
            final(self).count() == old(self).count() + value,
            final(self).size() == old(self).size(),
    {
        self.set(self.index + value);
    }

    pub fn increment(&mut self)
        requires
            old(self).count() < usize::MAX,
        ensures
            final(self).count() == old(self).count() + 1,
            final(self).size() == old(self).size(),
    {
        self.add(1);
    }

    /// The slot the index falls on.
    pub fn index(&self) -> (i: usize)
        requires
            self.size() > 0,
        ensures
            i == self.count() % self.size(),
    {
        self.index % self.size
    }

    /// How far this index is ahead of `other`.
    pub fn diff(&self, other: CircularIndex) -> (d: isize)
        requires
            self.count() <= isize::MAX,
            other.count() <= isize::MAX,
        ensures
            d == self.count() - other.count(),
    {
        self.index as isize - other.index as isize
    }
}

} // verus!
