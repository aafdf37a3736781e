use vstd::prelude::*;

use super::circ_slice::CircularSlice;
use super::history::History;

verus! {

/// Empty implementation for editors with no history
pub struct NoHistory {}

impl NoHistory {
    pub fn new() -> (h: Self)
        ensures
            h.wf(),
            h.entries() == Seq::<Seq<u8>>::empty(),
    {
        Self {  }
    }
}

impl Default for NoHistory {
    fn default() -> (h: Self)
        ensures
            h.wf(),
            h.entries() == Seq::<Seq<u8>>::empty(),
    {
        Self::new()
    }
}

impl History for NoHistory {
    type Model = ();

    open spec fn model(&self) -> () {
        ()
    }

    open spec fn model_entries(m: ()) -> Seq<Seq<u8>> {
        Seq::empty()
    }

    /// Every line is refused.
    open spec fn model_add(m: (), entry: Seq<u8>) -> Option<()> {
        None
    }

    proof fn lemma_model_entries(&self) {
    }

    open spec fn entries(&self) -> Seq<Seq<u8>> {
        Seq::empty()
    }

    open spec fn wf(&self) -> bool {
        true
    }

    fn get_entry(&self, _index: usize) -> (e: Option<CircularSlice<'_>>) {
        None
    }

    fn add_entry<'a>(&mut self, entry: &'a str) -> (r: Result<(), &'a str>)
        ensures
            r == Err::<(), &'a str>(entry),
    {
        Err(entry)
    }

    fn number_of_entries(&self) -> (n: usize) {
        0
    }
}

/// Law: a `NoHistory` stores no line and refuses every line it is given,
/// so it stays empty and loading lines into it loads none.
pub proof fn lemma_no_history_refuses(h: NoHistory, entry: Seq<u8>, loaded: nat, ms: Seq<()>, entries: Seq<Seq<u8>>)
    requires
        ms.len() == loaded + 1,
        forall|i: int| 0 <= i < loaded ==> #[trigger] NoHistory::model_add(ms[i], entries[i]) == Some(ms[i + 1]),
        loaded <= entries.len(),
    ensures
        h.entries() == Seq::<Seq<u8>>::empty(),
        NoHistory::model_add(h.model(), entry) is None,
        loaded == 0,
{
    if loaded > 0 {
        assert(NoHistory::model_add(ms[0], entries[0]) == Some(ms[1]));
    }
}

} // verus!
