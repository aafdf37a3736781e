use vstd::prelude::*;

use super::uint_to_bytes::UintToBytes;

verus! {

/// One piece of output: bytes to write, or the end of the line being
/// read.
#[derive(Debug)]
pub enum OutputItem<'a> {
    Slice(&'a [u8]),
    UintToBytes(UintToBytes<4>),
    EndOfString,
    Abort,
}

/// What an output item stands for.
#[verifier::ext_equal]
pub enum ItemView {
    Bytes(Seq<u8>),
    EndOfString,
    Abort,
}

impl<'a> View for OutputItem<'a> {
    type V = ItemView;

    open spec fn view(&self) -> ItemView {
        match self {
            OutputItem::Slice(s) => ItemView::Bytes(s@),
            OutputItem::UintToBytes(u) => ItemView::Bytes(u.spec_bytes()),
            OutputItem::EndOfString => ItemView::EndOfString,
            OutputItem::Abort => ItemView::Abort,
        }
    }
}

impl<'a> OutputItem<'a> {
    /// The bytes to write, if the item has any.
    pub fn get_bytes(&self) -> (b: Option<&[u8]>)
        ensures
            match self@ {
                ItemView::Bytes(s) => b matches Some(x) && x@ == s,
                _ => b is None,
            },
    {
        match self {
            OutputItem::Slice(slice) => Some(slice),
            OutputItem::UintToBytes(uint) => Some(uint.as_bytes()),
            OutputItem::EndOfString | OutputItem::Abort => None,
        }
    }
}

} // verus!
