use vstd::prelude::*;

use super::circ_slice::CircularSlice;
use super::history::History;
use vstd::string::StringSliceAdditionalSpecFns;

verus! {

/// Unbounded history backed by a vector of lines.
pub struct UnboundedHistory {
    buffer: Vec<Vec<u8>>,
}

impl UnboundedHistory {
    pub fn new() -> (h: Self)
        ensures
            h.wf(),
            h.entries() == Seq::<Seq<u8>>::empty(),
    {
        let h = Self { buffer: Vec::new() };
        assert(h.entries() =~= Seq::<Seq<u8>>::empty());
        h
    }
}

impl Default for UnboundedHistory {
    fn default() -> (h: Self)
        ensures
            h.wf(),
            h.entries() == Seq::<Seq<u8>>::empty(),
    {
        Self::new()
    }
}

impl History for UnboundedHistory {
    type Model = Seq<Seq<u8>>;

    open spec fn model(&self) -> Seq<Seq<u8>> {
        self.entries()
    }

    open spec fn model_entries(m: Seq<Seq<u8>>) -> Seq<Seq<u8>> {
        m
    }

    /// Every line is kept, after the others.
    open spec fn model_add(m: Seq<Seq<u8>>, entry: Seq<u8>) -> Option<Seq<Seq<u8>>> {
        Some(m.push(entry))
    }

    proof fn lemma_model_entries(&self) {
    }

    closed spec fn entries(&self) -> Seq<Seq<u8>> {
        Seq::new(self.buffer@.len(), |i: int| self.buffer@[i]@)
    }

    closed spec fn wf(&self) -> bool {
        true
    }

    fn get_entry(&self, index: usize) -> (e: Option<CircularSlice<'_>>) {
        if index < self.buffer.len() {
            let s = self.buffer[index].as_slice();
            let c = CircularSlice::new(s, 0, s.len(), s.len());
            assert(c@ =~= s@.subrange(0, s@.len() as int) + s@.subrange(0, 0));
            assert(c@ =~= self.entries()[index as int]);
            Some(c)
        } else {
            None
        }
    }

    fn add_entry<'a>(&mut self, entry: &'a str) -> (r: Result<(), &'a str>)
        ensures
            r is Ok,
            final(self).entries() == old(self).entries().push(entry.spec_bytes()),
    {
        let bytes = entry.as_bytes();
        let mut line: Vec<u8> = Vec::new();
        let mut i: usize = 0;
        while i < bytes.len()
            invariant
                i <= bytes@.len(),
                line@ == bytes@.subrange(0, i as int),
            decreases bytes@.len() - i,
        {
            line.push(bytes[i]);
            i += 1;
            assert(line@ =~= bytes@.subrange(0, i as int));
        }
        assert(line@ =~= bytes@);
        self.buffer.push(line);
        assert(self.entries() =~= old(self).entries().push(entry.spec_bytes()));
        Ok(())
    }

    fn number_of_entries(&self) -> (n: usize) {
        self.buffer.len()
    }
}

} // verus!
