use vstd::prelude::*;

use super::byte_vec::ToByteVec;

verus! {

/// Collects input bytes from pieces of input.
pub struct InputBuilder {
    items: Vec<u8>,
}

impl InputBuilder {
    /// The bytes collected so far.
    pub closed spec fn bytes(&self) -> Seq<u8> {
        self.items@
    }

    pub fn new() -> (b: Self)
        ensures
            b.bytes() == Seq::<u8>::empty(),
    {
        Self { items: Vec::new() }
    }

    /// Appends the bytes of `input`.
    pub fn add<T: ToByteVec>(&mut self, input: T)
        ensures
            final(self).bytes() == old(self).bytes() + input.byte_view(),
    {
        let mut bytes = input.to_byte_vec();
        self.items.append(&mut bytes);
    }
}

impl ToByteVec for InputBuilder {
    open spec fn byte_view(&self) -> Seq<u8> {
        self.bytes()
    }

    fn to_byte_vec(self) -> (v: Vec<u8>) {
        self.items
    }
}

} // verus!
