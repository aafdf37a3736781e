use vstd::prelude::*;

use super::buffer::Buffer;

verus! {

/// Static buffer backed by slice
pub struct SliceBuffer<'a> {
    data: &'a mut [u8],
    len: usize,
}

impl<'a> SliceBuffer<'a> {
    /// The whole backing slice.
    pub closed spec fn data(&self) -> Seq<u8> {
        self.data@
    }

    pub fn new(data: &'a mut [u8]) -> (b: Self)
        ensures
            b.wf(),
            b.contents() == Seq::<u8>::empty(),
            b.spec_capacity() == Some(old(data)@.len() as usize),
    {
        proof {
            assert(data@.len() == data.len());
        }
        let b = Self { data, len: 0 };
        assert(b.contents() =~= Seq::<u8>::empty());
        b
    }
}

impl<'a> Buffer for SliceBuffer<'a> {
    closed spec fn contents(&self) -> Seq<u8> {
        self.data@.subrange(0, self.len as int)
    }

    closed spec fn spec_capacity(&self) -> Option<usize> {
        Some(self.data@.len() as usize)
    }

    closed spec fn wf(&self) -> bool {
        &&& self.len <= self.data@.len()
        &&& self.data@.len() <= usize::MAX
    }

    fn buffer_len(&self) -> (n: usize) {
        self.len
    }

    fn capacity(&self) -> (c: Option<usize>) {
        Some(self.data.len())
    }

    fn truncate_buffer(&mut self, index: usize) {
        self.len = index;
        assert(self.contents() =~= old(self).contents().subrange(0, index as int));
    }

    fn insert_byte(&mut self, index: usize, byte: u8) {
        let ghost old_data = self.data@;
        let len = self.len;
        let mut i = len;
        while i > index
            invariant
                index <= i <= len,
                len < old_data.len(),
                self.len == len,
                self.data@.len() == old_data.len(),
                forall|j: int| 0 <= j <= i ==> #[trigger] self.data@[j] == old_data[j],
                forall|j: int| i < j <= len ==> #[trigger] self.data@[j] == old_data[j - 1],
                forall|j: int| len < j < old_data.len() ==> #[trigger] self.data@[j] == old_data[j],
            decreases i,
        {
            self.data[i] = self.data[i - 1];
            i -= 1;
        }
        self.data[index] = byte;
        self.len += 1;
        assert(self.contents() =~= old(self).contents().insert(index as int, byte));
    }

    fn remove_byte(&mut self, index: usize) -> (b: u8) {
        let ghost old_data = self.data@;
        let byte = self.data[index];
        let len = self.len;
        let mut i = index;
        while i + 1 < len
            invariant
                index <= i < len,
                len <= old_data.len(),
                self.len == len,
                self.data@.len() == old_data.len(),
                forall|j: int| 0 <= j < index ==> #[trigger] self.data@[j] == old_data[j],
                forall|j: int| index <= j < i ==> #[trigger] self.data@[j] == old_data[j + 1],
                forall|j: int| i <= j < old_data.len() ==> #[trigger] self.data@[j] == old_data[j],
            decreases len - i,
        {
            self.data[i] = self.data[i + 1];
            i += 1;
        }
        self.len -= 1;
        assert(self.contents() =~= old(self).contents().remove(index as int));
        byte
    }

    fn as_slice(&self) -> (s: &[u8]) {
        &self.data[0..self.len]
    }
}

} // verus!
