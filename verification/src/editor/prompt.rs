use vstd::prelude::*;

use super::str_iter::StrIter;
use vstd::string::StringSliceAdditionalSpecFns;

verus! {

/// Total number of bytes in `parts`.
pub open spec fn total_len(parts: Seq<Seq<u8>>) -> nat
    decreases parts.len(),
{
    if parts.len() == 0 {
        0
    } else {
        total_len(parts.drop_last()) + parts.last().len()
    }
}

/// The prompt printed before the line, in parts.
#[derive(Debug)]
pub struct Prompt<'a> {
    parts: Vec<&'a str>,
    len: usize,
}

impl<'a> View for Prompt<'a> {
    type V = Seq<Seq<u8>>;

    /// The bytes of the parts.
    closed spec fn view(&self) -> Seq<Seq<u8>> {
        Seq::new(self.parts@.len(), |i: int| self.parts@[i].spec_bytes())
    }
}

impl<'a> Prompt<'a> {
    pub closed spec fn wf(&self) -> bool {
        self.len == total_len(self@)
    }

    /// A prompt of several parts, printed one after the other.
    pub fn new(parts: Vec<&'a str>) -> (p: Self)
        requires
            total_len(Seq::new(parts@.len(), |i: int| parts@[i].spec_bytes())) <= usize::MAX,
        ensures
            p.wf(),
            p@ == Seq::new(parts@.len(), |i: int| parts@[i].spec_bytes()),
    {
        let ghost all = Seq::new(parts@.len(), |i: int| parts@[i].spec_bytes());
        let mut len: usize = 0;
        let mut i: usize = 0;
        while i < parts.len()
            invariant
                i <= parts@.len(),
                all == Seq::new(parts@.len(), |i: int| parts@[i].spec_bytes()),
                total_len(all) <= usize::MAX,
                len == total_len(all.subrange(0, i as int)),
            decreases parts@.len() - i,
        {
            proof {
                assert(all.subrange(0, i + 1).drop_last() =~= all.subrange(0, i as int));
                lemma_total_len_prefix(all, i + 1);
            }
            len = len + parts[i].as_bytes().len();
            i += 1;
        }
        proof {
            assert(all.subrange(0, i as int) =~= all);
        }
        Self { parts, len }
    }

    /// A prompt of one part.
    pub fn from_str(s: &'a str) -> (p: Self)
        ensures
            p.wf(),
            p@ == seq![s.spec_bytes()],
    {
        let bytes = s.as_bytes();
        let _n = bytes.len();
        let mut parts: Vec<&'a str> = Vec::new();
        parts.push(s);
        proof {
            let all = Seq::new(parts@.len(), |i: int| parts@[i].spec_bytes());
            assert(all.drop_last() =~= Seq::<Seq<u8>>::empty());
            assert(all =~= seq![s.spec_bytes()]);
            assert(total_len(all) == total_len(all.drop_last()) + bytes@.len());
        }
        Self::new(parts)
    }

    /// A prompt of the strings the iterator hands out.
    pub fn from_str_iter(iter: StrIter<'a>) -> (p: Self)
        ensures
            p.wf(),
            p@ == match iter.s {
                Some(s) => seq![s.spec_bytes()],
                None => Seq::<Seq<u8>>::empty(),
            },
    {
        let mut it = iter;
        let mut parts: Vec<&'a str> = Vec::new();
        if let Some(s) = it.next() {
            let bytes = s.as_bytes();
            let _n = bytes.len();
            parts.push(s);
            proof {
                let all = Seq::new(parts@.len(), |i: int| parts@[i].spec_bytes());
                assert(all.drop_last() =~= Seq::<Seq<u8>>::empty());
                assert(total_len(all) == total_len(all.drop_last()) + bytes@.len());
            }
        }
        proof {
            let all = Seq::new(parts@.len(), |i: int| parts@[i].spec_bytes());
            assert(all =~= match iter.s {
                Some(s) => seq![s.spec_bytes()],
                None => Seq::<Seq<u8>>::empty(),
            });
        }
        Self::new(parts)
    }

    /// Total number of bytes in the prompt.
    pub fn len(&self) -> (n: usize)
        requires
            self.wf(),
        ensures
            n == total_len(self@),
    {
        self.len
    }

    /// The parts, as bytes.
    pub fn iter(&self) -> (v: Vec<&'a [u8]>)
        ensures
            Seq::new(v@.len(), |i: int| v@[i]@) == self@,
    {
        let mut v: Vec<&'a [u8]> = Vec::new();
        let mut i: usize = 0;
        while i < self.parts.len()
            invariant
                i <= self.parts@.len(),
                v@.len() == i,
                forall|j: int| 0 <= j < i ==> (#[trigger] v@[j])@ == self.parts@[j].spec_bytes(),
            decreases self.parts@.len() - i,
        {
            v.push(self.parts[i].as_bytes());
            i += 1;
        }
        proof {
            assert(Seq::new(v@.len(), |i: int| v@[i]@) =~= self@);
        }
        v
    }
}

/// The total of a prefix grows by the length of the part after it.
proof fn lemma_total_len_prefix(all: Seq<Seq<u8>>, n: int)
    requires
        0 < n <= all.len(),
    ensures
        total_len(all.subrange(0, n)) == total_len(all.subrange(0, n - 1)) + all[n - 1].len(),
        total_len(all.subrange(0, n)) <= total_len(all),
    decreases all.len() - n,
{
    assert(all.subrange(0, n).drop_last() =~= all.subrange(0, n - 1));
    if n < all.len() {
        lemma_total_len_prefix(all, n + 1);
    } else {
        assert(all.subrange(0, n) =~= all);
    }
}

} // verus!
