use vstd::prelude::*;

use super::output_item::{ItemView, OutputItem};
use super::step::{item_view, step_next, step_ok, Step, StepView};
use crate::terminal::Terminal;

verus! {

/// What asking an output run for its next item does: the steps still to
/// be taken are taken in order until one hands out an item; finished
/// steps are dropped.
pub open spec fn iter_next(steps: Seq<StepView>, t: Terminal) -> (Seq<StepView>, Terminal, Option<ItemView>)
    decreases steps.len(),
{
    if steps.len() == 0 {
        (steps, t, None)
    } else {
        let (s2, t2, item) = step_next(steps[0], t);
        match item {
            Some(i) => (steps.update(0, s2), t2, Some(i)),
            None => iter_next(steps.drop_first(), t2),
        }
    }
}

/// Asking the run for its next item takes only steps that can be taken.
pub open spec fn iter_ok(steps: Seq<StepView>, t: Terminal) -> bool
    decreases steps.len(),
{
    if steps.len() == 0 {
        true
    } else {
        let (s2, t2, item) = step_next(steps[0], t);
        &&& step_ok(steps[0], t)
        &&& (item is None ==> iter_ok(steps.drop_first(), t2))
    }
}

/// The run takes only steps that can be taken and ends within `fuel`
/// more items; with `bytes_only`, every item it hands out is bytes.
pub open spec fn run_ok(steps: Seq<StepView>, t: Terminal, fuel: nat, bytes_only: bool) -> bool
    decreases fuel,
{
    let (s2, t2, item) = iter_next(steps, t);
    &&& iter_ok(steps, t)
    &&& match item {
        None => true,
        Some(i) => {
            &&& fuel > 0
            &&& (bytes_only ==> i is Bytes)
            &&& run_ok(s2, t2, (fuel - 1) as nat, bytes_only)
        },
    }
}

/// The bytes the run writes, in order (for a run that ends within
/// `fuel` items).
pub open spec fn run_bytes(steps: Seq<StepView>, t: Terminal, fuel: nat) -> Seq<u8>
    decreases fuel,
{
    let (s2, t2, item) = iter_next(steps, t);
    match item {
        Some(ItemView::Bytes(b)) => if fuel > 0 {
            b + run_bytes(s2, t2, (fuel - 1) as nat)
        } else {
            Seq::empty()
        },
        _ => Seq::empty(),
    }
}

/// Taking step `v` from terminal `t` hands out exactly `n` items, each
/// step being one that can be taken, and leaves the terminal as `t2`.
pub open spec fn step_runs(v: StepView, t: Terminal, n: nat, t2: Terminal) -> bool
    decreases n,
{
    let (v2, t1, item) = step_next(v, t);
    &&& step_ok(v, t)
    &&& match item {
        None => n == 0 && t1 == t2,
        Some(_) => n > 0 && step_runs(v2, t1, (n - 1) as nat, t2),
    }
}

/// A step that hands out bytes only.
pub open spec fn bytes_step(v: StepView) -> bool {
    !(v is EndOfString) && !(v is Abort)
}

/// A run is one step taken to its end followed by the run of the steps
/// after it.
pub proof fn lemma_run_cons(
    steps: Seq<StepView>,
    t: Terminal,
    n: nat,
    t2: Terminal,
    fuel: nat,
    bytes_only: bool,
)
    requires
        steps.len() > 0,
        step_runs(steps[0], t, n, t2),
        run_ok(steps.drop_first(), t2, fuel, bytes_only),
        bytes_only ==> bytes_step(steps[0]),
    ensures
        run_ok(steps, t, n + fuel, bytes_only),
    decreases n,
{
    let (v2, t1, item) = step_next(steps[0], t);
    if item is Some {
        let rest = steps.update(0, v2);
        assert(rest.drop_first() =~= steps.drop_first());
        assert(rest[0] == v2);
        lemma_run_cons(rest, t1, (n - 1) as nat, t2, fuel, bytes_only);
        assert(iter_next(steps, t) == (rest, t1, item));
    } else {
        assert(iter_next(steps, t) == iter_next(steps.drop_first(), t1));
        assert(iter_ok(steps, t) == iter_ok(steps.drop_first(), t1));
    }
}

/// The items of an output, one at a time.
pub struct OutputIter<'a> {
    /// The terminal the output is written to; it is moved along as the
    /// items are taken.
    pub terminal: &'a mut Terminal,
    pub steps: Vec<Step<'a>>,
    pub pos: usize,
}

impl<'a> OutputIter<'a> {
    /// The steps still to be taken.
    pub closed spec fn spec_steps(&self) -> Seq<StepView> {
        Seq::new((self.steps@.len() - self.pos) as nat, |i: int| self.steps@[self.pos + i]@)
    }

    pub closed spec fn spec_terminal(&self) -> Terminal {
        *self.terminal
    }

    pub closed spec fn wf(&self) -> bool {
        &&& self.pos <= self.steps@.len()
        &&& forall|i: int| 0 <= i < self.steps@.len() ==> (#[trigger] self.steps@[i]).wf()
    }

    pub(super) fn new(terminal: &'a mut Terminal, steps: Vec<Step<'a>>) -> (it: Self)
        requires
            forall|i: int| 0 <= i < steps@.len() ==> (#[trigger] steps@[i]).wf(),
        ensures
            it.wf(),
            it.spec_terminal() == *old(terminal),
            *final(it.terminal) == *final(terminal),
            it.spec_steps() == Seq::new(steps@.len(), |i: int| steps@[i]@),
    {
        let it = OutputIter { terminal, steps, pos: 0 };
        assert(it.spec_steps() =~= Seq::new(it.steps@.len(), |i: int| it.steps@[i]@));
        it
    }

    /// The next item of the output, if any is left.
    pub fn next(&mut self) -> (r: Option<OutputItem<'a>>)
        requires
            old(self).wf(),
            iter_ok(old(self).spec_steps(), old(self).spec_terminal()),
        ensures
            final(self).wf(),
            *final(final(self).terminal) == *final(old(self).terminal),
            ({
                let (s2, t2, item) = iter_next(old(self).spec_steps(), old(self).spec_terminal());
                &&& final(self).spec_steps() =~~= s2
                &&& final(self).spec_terminal() == t2
                &&& item_view(r) =~~= item
            }),
    {
        loop
            invariant
                self.wf(),
                *final(self.terminal) == *final(old(self).terminal),
                iter_ok(self.spec_steps(), self.spec_terminal()),
                iter_next(self.spec_steps(), self.spec_terminal()) =~~= iter_next(
                    old(self).spec_steps(),
                    old(self).spec_terminal(),
                ),
            decreases self.steps@.len() - self.pos,
        {
            if self.pos < self.steps.len() {
                let pos = self.pos;
                let ghost steps0 = self.spec_steps();
                let ghost t0 = self.spec_terminal();
                assert(steps0[0] == self.steps@[pos as int]@);
                let r = self.steps[pos].advance(self.terminal);
                let ghost s2 = step_next(steps0[0], t0).0;
                proof {
                    assert(self.spec_steps() =~~= steps0.update(0, s2));
                }
                match r {
                    Some(item) => {
                        return Some(item);
                    },
                    None => {
                        self.pos = pos + 1;
                        proof {
                            assert(self.spec_steps() =~~= steps0.drop_first());
                        }
                    },
                }
            } else {
                proof {
                    assert(self.spec_steps() =~~= Seq::<StepView>::empty());
                }
                return None;
            }
        }
    }
}

} // verus!
