use vstd::prelude::*;

use crate::input::{control_byte, ControlCharacter};
use vstd::string::StringSliceAdditionalSpecFns;

verus! {

/// Input that can be written as bytes.
pub trait ToByteVec {
    /// The bytes the input stands for.
    spec fn byte_view(&self) -> Seq<u8>;

    fn to_byte_vec(self) -> (v: Vec<u8>)
        ensures
            v@ == self.byte_view(),
    ;
}

/// Appends `bytes` to `v`.
fn extend_bytes(v: &mut Vec<u8>, bytes: &[u8])
    ensures
        final(v)@ == old(v)@ + bytes@,
{
    let ghost start = v@;
    let mut i: usize = 0;
    while i < bytes.len()
        invariant
            i <= bytes@.len(),
            v@ == start + bytes@.subrange(0, i as int),
        decreases bytes@.len() - i,
    {
        v.push(bytes[i]);
        i += 1;
    }
    proof {
        assert(bytes@.subrange(0, i as int) =~= bytes@);
    }
}

/// The bytes of control characters, in order.
pub open spec fn control_bytes(cs: Seq<ControlCharacter>) -> Seq<u8> {
    Seq::new(cs.len(), |i: int| control_byte(cs[i]))
}

/// The bytes of strings, one after the other.
pub open spec fn str_bytes(ss: Seq<&str>) -> Seq<u8>
    decreases ss.len(),
{
    if ss.len() == 0 {
        Seq::empty()
    } else {
        str_bytes(ss.drop_last()) + ss.last().spec_bytes()
    }
}

fn control_slice_bytes(cs: &[ControlCharacter]) -> (v: Vec<u8>)
    ensures
        v@ == control_bytes(cs@),
{
    let mut v: Vec<u8> = Vec::new();
    let mut i: usize = 0;
    while i < cs.len()
        invariant
            i <= cs@.len(),
            v@ == control_bytes(cs@.subrange(0, i as int)),
        decreases cs@.len() - i,
    {
        v.push(u8::from(cs[i]));
        i += 1;
        proof {
            assert(v@ =~= control_bytes(cs@.subrange(0, i as int)));
        }
    }
    proof {
        assert(cs@.subrange(0, i as int) =~= cs@);
    }
    v
}

fn str_slice_bytes(ss: &[&str]) -> (v: Vec<u8>)
    ensures
        v@ == str_bytes(ss@),
{
    let mut v: Vec<u8> = Vec::new();
    let mut i: usize = 0;
    while i < ss.len()
        invariant
            i <= ss@.len(),
            v@ == str_bytes(ss@.subrange(0, i as int)),
        decreases ss@.len() - i,
    {
        extend_bytes(&mut v, ss[i].as_bytes());
        i += 1;
        proof {
            assert(ss@.subrange(0, i as int).drop_last() =~= ss@.subrange(0, i - 1));
        }
    }
    proof {
        assert(ss@.subrange(0, i as int) =~= ss@);
    }
    v
}

impl<'a> ToByteVec for &'a str {
    open spec fn byte_view(&self) -> Seq<u8> {
        self.spec_bytes()
    }

    fn to_byte_vec(self) -> (v: Vec<u8>) {
        let mut v: Vec<u8> = Vec::new();
        extend_bytes(&mut v, self.as_bytes());
        proof {
            assert(v@ =~= self.spec_bytes());
        }
        v
    }
}

impl ToByteVec for ControlCharacter {
    open spec fn byte_view(&self) -> Seq<u8> {
        seq![control_byte(*self)]
    }

    fn to_byte_vec(self) -> (v: Vec<u8>) {
        let mut v: Vec<u8> = Vec::new();
        v.push(u8::from(self));
        proof {
            assert(v@ =~= seq![control_byte(self)]);
        }
        v
    }
}

impl ToByteVec for Vec<ControlCharacter> {
    open spec fn byte_view(&self) -> Seq<u8> {
        control_bytes(self@)
    }

    fn to_byte_vec(self) -> (v: Vec<u8>) {
        control_slice_bytes(self.as_slice())
    }
}

impl<const N: usize> ToByteVec for [ControlCharacter; N] {
    open spec fn byte_view(&self) -> Seq<u8> {
        control_bytes(self@)
    }

    fn to_byte_vec(self) -> (v: Vec<u8>) {
        control_slice_bytes(&self)
    }
}

impl<'a> ToByteVec for Vec<&'a str> {
    open spec fn byte_view(&self) -> Seq<u8> {
        str_bytes(self@)
    }

    fn to_byte_vec(self) -> (v: Vec<u8>) {
        str_slice_bytes(self.as_slice())
    }
}

impl<'a, const N: usize> ToByteVec for [&'a str; N] {
    open spec fn byte_view(&self) -> Seq<u8> {
        str_bytes(self@)
    }

    fn to_byte_vec(self) -> (v: Vec<u8>) {
        str_slice_bytes(&self)
    }
}

} // verus!
