use vstd::prelude::*;

use super::buffer::Buffer;

verus! {

/// Empty buffer used for builder: it holds nothing and none of its
/// operations may be called.
pub struct NoBuffer {}

impl Buffer for NoBuffer {
    closed spec fn contents(&self) -> Seq<u8> {
        Seq::empty()
    }

    closed spec fn spec_capacity(&self) -> Option<usize> {
        None
    }

    /// A `NoBuffer` is never usable.
    closed spec fn wf(&self) -> bool {
        false
    }

    fn buffer_len(&self) -> (n: usize) {
        vstd::pervasive::unreached()
    }

    fn capacity(&self) -> (c: Option<usize>) {
        vstd::pervasive::unreached()
    }

    fn truncate_buffer(&mut self, _index: usize) {
        vstd::pervasive::unreached()
    }

    fn insert_byte(&mut self, _index: usize, _byte: u8) {
        vstd::pervasive::unreached()
    }

    fn remove_byte(&mut self, _index: usize) -> (b: u8) {
        vstd::pervasive::unreached()
    }

    fn as_slice(&self) -> (s: &[u8]) {
        vstd::pervasive::unreached()
    }
}

} // verus!
