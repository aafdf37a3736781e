use vstd::prelude::*;

verus! {

/// Storage underneath a line buffer.
pub trait Buffer {
    /// The bytes currently in the buffer.
    spec fn contents(&self) -> Seq<u8>;

    /// The most bytes the buffer can hold, or `None` when unbounded.
    spec fn spec_capacity(&self) -> Option<usize>;

    /// The buffer is in a usable state.
    spec fn wf(&self) -> bool;

    /// Return the current length of the buffer. This represents the
    /// number of bytes currently in the buffer, not the capacity.
    fn buffer_len(&self) -> (n: usize)
        requires
            self.wf(),
        ensures
            n == self.contents().len(),
            self.spec_capacity() matches Some(c) ==> n <= c,
    ;

    /// Return buffer capacity or None if unbounded.
    fn capacity(&self) -> (c: Option<usize>)
        requires
            self.wf(),
        ensures
            c == self.spec_capacity(),
    ;

    /// Truncate buffer to `index` bytes.
    fn truncate_buffer(&mut self, index: usize)
        requires
            old(self).wf(),
            index <= old(self).contents().len(),
        ensures
            final(self).wf(),
            final(self).contents() == old(self).contents().subrange(0, index as int),
            final(self).spec_capacity() == old(self).spec_capacity(),
    ;

    /// Insert byte at index
    fn insert_byte(&mut self, index: usize, byte: u8)
        requires
            old(self).wf(),
            index <= old(self).contents().len(),
            old(self).spec_capacity() matches Some(c) ==> old(self).contents().len() < c,
        ensures
            final(self).wf(),
            final(self).contents() == old(self).contents().insert(index as int, byte),
            final(self).spec_capacity() == old(self).spec_capacity(),
    ;

    /// Remove byte from index and return byte
    fn remove_byte(&mut self, index: usize) -> (b: u8)
        requires
            old(self).wf(),
            index < old(self).contents().len(),
        ensures
            final(self).wf(),
            b == old(self).contents()[index as int],
            final(self).contents() == old(self).contents().remove(index as int),
            final(self).spec_capacity() == old(self).spec_capacity(),
    ;

    /// Return byte slice into buffer from 0 up to buffer length.
    fn as_slice(&self) -> (s: &[u8])
        requires
            self.wf(),
        ensures
            s@ == self.contents(),
    ;
}

} // verus!
