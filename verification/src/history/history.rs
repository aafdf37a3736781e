use vstd::prelude::*;

use super::circ_slice::CircularSlice;
use vstd::string::StringSliceAdditionalSpecFns;

verus! {

/// Trait for line history
pub trait History {
    /// What the history holds, as far as what it does next depends on it.
    type Model;

    spec fn model(&self) -> Self::Model;

    /// The lines that a history holding `m` stores, oldest first.
    spec fn model_entries(m: Self::Model) -> Seq<Seq<u8>>;

    /// What a history holding `m` holds once the line `entry` is added,
    /// or `None` when it refuses the line.
    spec fn model_add(m: Self::Model, entry: Seq<u8>) -> Option<Self::Model>;

    /// The stored lines, oldest first, as bytes.
    spec fn entries(&self) -> Seq<Seq<u8>>;

    /// The history is in a usable state.
    spec fn wf(&self) -> bool;

    /// Return entry at index, or None if out of bounds
    fn get_entry(&self, index: usize) -> (e: Option<CircularSlice<'_>>)
        requires
            self.wf(),
        ensures
            e is Some <==> index < self.entries().len(),
            e matches Some(c) ==> c.wf() && c@ == self.entries()[index as int],
    ;

    /// The stored lines are those of what the history holds.
    proof fn lemma_model_entries(&self)
        requires
            self.wf(),
        ensures
            self.entries() == Self::model_entries(self.model()),
    ;

    /// Add new entry at the end; a refused entry is handed back.
    fn add_entry<'a>(&mut self, entry: &'a str) -> (r: Result<(), &'a str>)
        requires
            old(self).wf(),
        ensures
            final(self).wf(),
            r is Err <==> Self::model_add(old(self).model(), entry.spec_bytes()) is None,
            r matches Err(e) ==> e == entry && final(self).entries() == old(self).entries()
                && final(self).model() == old(self).model(),
            r is Ok ==> Self::model_add(old(self).model(), entry.spec_bytes()) == Some(
                final(self).model(),
            ),
    ;

    /// Return number of entries in history
    fn number_of_entries(&self) -> (n: usize)
        requires
            self.wf(),
        ensures
            n == self.entries().len(),
    ;

    /// Add entries in order until one is refused; returns how many were
    /// added.
    fn load_entries<'a>(&mut self, entries: &[&'a str]) -> (n: usize)
        requires
            old(self).wf(),
        ensures
            final(self).wf(),
            n <= entries@.len(),
            exists|ms: Seq<Self::Model>|
                {
                    &&& ms.len() == n + 1
                    &&& ms[0] == old(self).model()
                    &&& ms[n as int] == final(self).model()
                    &&& forall|i: int|
                        0 <= i < n ==> #[trigger] Self::model_add(
                            ms[i],
                            entries@[i].spec_bytes(),
                        ) == Some(ms[i + 1])
                    &&& n < entries@.len() ==> Self::model_add(
                        ms[n as int],
                        entries@[n as int].spec_bytes(),
                    ) is None
                },
    {
        let ghost mut ms: Seq<Self::Model> = seq![self.model()];
        let mut n: usize = 0;
        while n < entries.len()
            invariant
                self.wf(),
                n <= entries@.len(),
                ms.len() == n + 1,
                ms[0] == old(self).model(),
                ms[n as int] == self.model(),
                forall|i: int|
                    0 <= i < n ==> #[trigger] Self::model_add(ms[i], entries@[i].spec_bytes())
                        == Some(ms[i + 1]),
            ensures
                self.wf(),
                n <= entries@.len(),
                ms.len() == n + 1,
                ms[0] == old(self).model(),
                ms[n as int] == self.model(),
                forall|i: int|
                    0 <= i < n ==> #[trigger] Self::model_add(ms[i], entries@[i].spec_bytes())
                        == Some(ms[i + 1]),
                n < entries@.len() ==> Self::model_add(ms[n as int], entries@[n as int].spec_bytes())
                    is None,
            decreases entries@.len() - n,
        {
            if self.add_entry(entries[n]).is_err() {
                break ;
            }
            proof {
                let ms0 = ms;
                ms = ms.push(self.model());
                assert forall|i: int| 0 <= i < n + 1 implies #[trigger] Self::model_add(
                    ms[i],
                    entries@[i].spec_bytes(),
                ) == Some(ms[i + 1]) by {
                    if i < n {
                        assert(ms[i] == ms0[i] && ms[i + 1] == ms0[i + 1]);
                    }
                }
            }
            n += 1;
        }
        n
    }
}



/// Each entry of `history`, oldest first.
pub fn get_history_entries<H: History>(history: &H) -> (v: Vec<CircularSlice<'_>>)
    requires
        history.wf(),
    ensures
        v@.len() == history.entries().len(),
        forall|i: int| 0 <= i < v@.len() ==> (#[trigger] v@[i]).wf() && v@[i]@ == history.entries()[i],
{
    let n = history.number_of_entries();
    let mut v: Vec<CircularSlice<'_>> = Vec::new();
    let mut index: usize = 0;
    while index < n
        invariant
            history.wf(),
            n == history.entries().len(),
            index <= n,
            v@.len() == index,
            forall|i: int| 0 <= i < v@.len() ==> (#[trigger] v@[i]).wf() && v@[i]@ == history.entries()[i],
        decreases n - index,
    {
        match history.get_entry(index) {
            Some(entry) => v.push(entry),
            None => {},
        }
        index += 1;
    }
    v
}

} // verus!
