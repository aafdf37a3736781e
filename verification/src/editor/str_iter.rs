use vstd::prelude::*;

verus! {

/// Hands out one string, once.
#[derive(Clone, Copy)]
pub struct StrIter<'a> {
    pub s: Option<&'a str>,
}

impl<'a> StrIter<'a> {
    pub fn new(s: &'a str) -> (it: Self)
        ensures
            it.s == Some(s),
    {
        StrIter { s: Some(s) }
    }

    /// The string, the first time; `None` afterwards.
    pub fn next(&mut self) -> (r: Option<&'a str>)
        ensures
            r == old(self).s,
            final(self).s is None,
    {
        let r = self.s;
        self.s = None;
        r
    }
}

} // verus!
