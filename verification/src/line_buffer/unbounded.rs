use vstd::prelude::*;

use super::buffer::Buffer;
use super::line_buffer::LineBuffer;

verus! {

/// Unbounded buffer backed by a `Vec<u8>`.
pub struct UnboundedBuffer {
    vec: Vec<u8>,
}

impl UnboundedBuffer {
    pub fn new() -> (b: Self)
        ensures
            b.wf(),
            b.contents() == Seq::<u8>::empty(),
            b.spec_capacity() == None::<usize>,
    {
        Self { vec: Vec::new() }
    }
}

impl Buffer for UnboundedBuffer {
    closed spec fn contents(&self) -> Seq<u8> {
        self.vec@
    }

    closed spec fn spec_capacity(&self) -> Option<usize> {
        None
    }

    closed spec fn wf(&self) -> bool {
        true
    }

    fn buffer_len(&self) -> (n: usize) {
        self.vec.len()
    }

    fn capacity(&self) -> (c: Option<usize>) {
        None
    }

    fn truncate_buffer(&mut self, index: usize) {
        self.vec.truncate(index);
        assert(self.vec@ =~= old(self).vec@.subrange(0, index as int));
    }

    fn insert_byte(&mut self, index: usize, byte: u8) {
        self.vec.insert(index, byte);
    }

    fn remove_byte(&mut self, index: usize) -> (b: u8) {
        self.vec.remove(index)
    }

    fn as_slice(&self) -> (s: &[u8]) {
        self.vec.as_slice()
    }
}

impl LineBuffer<UnboundedBuffer> {
    /// Create new unbounded line buffer
    pub fn new_unbounded() -> (b: Self)
        ensures
            b.wf(),
            b@ == Seq::<u8>::empty(),
            b.spec_capacity() == None::<usize>,
    {
        Self::from_buffer(UnboundedBuffer::new())
    }
}

} // verus!
