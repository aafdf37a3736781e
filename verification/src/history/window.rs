use vstd::prelude::*;

use super::circ_index::CircularIndex;

verus! {

/// The occupied part of a circular buffer of `size` slots: `len`
/// consecutive slots from `start`, wrapping around.
pub struct Window {
    size: usize,
    start: CircularIndex,
    end: CircularIndex,
}

impl Window {
    /// Number of slots.
    pub closed spec fn size(&self) -> nat {
        self.size as nat
    }

    /// First occupied slot.
    pub closed spec fn spec_start(&self) -> nat {
        self.start.count() % self.size()
    }

    /// Number of occupied slots.
    pub closed spec fn spec_len(&self) -> nat {
        (self.end.count() - self.start.count()) as nat
    }

    /// Slot after the last occupied one.
    pub open spec fn spec_end(&self) -> nat {
        (self.spec_start() + self.spec_len()) % self.size()
    }

    /// The counters stay below twice the size (they are brought back by
    /// `size` whenever the start passes it), so they never overflow.
    pub closed spec fn wf(&self) -> bool {
        &&& 0 < self.size < isize::MAX / 2
        &&& self.start.size() == self.size
        &&& self.end.size() == self.size
        &&& self.start.count() < self.size
        &&& self.start.count() <= self.end.count() <= self.start.count() + self.size
    }

    pub proof fn lemma_bounds(&self)
        requires
            self.wf(),
        ensures
            0 < self.size() < isize::MAX / 2,
            self.spec_start() < self.size(),
            self.spec_len() <= self.size(),
    {
        vstd::arithmetic::div_mod::lemma_small_mod(self.start.count(), self.size());
    }

    pub fn new(size: usize) -> (w: Self)
        requires
            0 < size < isize::MAX / 2,
        ensures
            w.wf(),
            w.size() == size,
            w.spec_start() == 0,
            w.spec_len() == 0,
    {
        let start = CircularIndex::new(0, size);
        let end = CircularIndex::new(0, size);
        Self { size, start, end }
    }

    pub fn len(&self) -> (n: usize)
        requires
            self.wf(),
        ensures
            n == self.spec_len(),
    {
        self.end.diff(self.start) as usize
    }

    /// Brings both counters back by `size` once the start has passed
    /// it; the slots and the length stay the same.
    fn rebase(&mut self)
        requires
            old(self).size() > 0,
            old(self).start.size() == old(self).size(),
            old(self).end.size() == old(self).size(),
            old(self).start.count() <= old(self).size(),
            old(self).start.count() <= old(self).end.count() <= old(self).start.count() + old(
                self,
            ).size(),
            old(self).size() < isize::MAX / 2,
        ensures
            final(self).wf(),
            final(self).size() == old(self).size(),
            final(self).spec_start() == old(self).start.count() % old(self).size(),
            final(self).spec_len() == old(self).end.count() - old(self).start.count(),
    {
        proof {
            self.start.lemma_fields();
            self.end.lemma_fields();
        }
        if self.start.index >= self.size {
            let s = self.start.index - self.size;
            let e = self.end.index - self.size;
            self.start.set(s);
            self.end.set(e);
            proof {
                vstd::arithmetic::div_mod::lemma_mod_self_0(old(self).size() as int);
                assert(s == 0);
            }
        } else {
            proof {
                vstd::arithmetic::div_mod::lemma_small_mod(
                    old(self).start.count() as nat,
                    old(self).size(),
                );
            }
        }
    }

    /// Occupies one more slot at the end; when full, the first slot is
    /// given up.
    pub fn widen(&mut self)
        requires
            old(self).wf(),
        ensures
            final(self).wf(),
            final(self).size() == old(self).size(),
            final(self).spec_len() == if old(self).spec_len() < old(self).size() {
                old(self).spec_len() + 1
            } else {
                old(self).spec_len()
            },
            final(self).spec_start() == if old(self).spec_len() < old(self).size() {
                old(self).spec_start()
            } else {
                (old(self).spec_start() + 1) % old(self).size()
            },
    {
        self.end.increment();

        if self.end.diff(self.start) as usize > self.size {
            self.start.increment();
        }
        proof {
            let n = old(self).size() as int;
            let s = old(self).start.count() as int;
            vstd::arithmetic::div_mod::lemma_small_mod(s as nat, n as nat);
            if n > 1 {
                vstd::arithmetic::div_mod::lemma_small_mod(1, n as nat);
                vstd::arithmetic::div_mod::lemma_add_mod_noop(s, 1, n);
            } else {
                vstd::arithmetic::div_mod::lemma_mod_self_0(n);
            }
        }
        self.rebase();
    }

    /// Gives up the first occupied slot, if any.
    pub fn narrow(&mut self)
        requires
            old(self).wf(),
        ensures
            final(self).wf(),
            final(self).size() == old(self).size(),
            final(self).spec_len() == if old(self).spec_len() > 0 {
                old(self).spec_len() - 1
            } else {
                0
            },
            final(self).spec_start() == if old(self).spec_len() > 0 {
                (old(self).spec_start() + 1) % old(self).size()
            } else {
                old(self).spec_start()
            },
            old(self).spec_len() > 0 ==> final(self).spec_end() == old(self).spec_end(),
    {
        if self.end.diff(self.start) > 0 {
            self.start.increment();
        }
        proof {
            let n = old(self).size() as int;
            let s = old(self).start.count() as int;
            vstd::arithmetic::div_mod::lemma_small_mod(s as nat, n as nat);
            if n > 1 {
                vstd::arithmetic::div_mod::lemma_small_mod(1, n as nat);
                vstd::arithmetic::div_mod::lemma_add_mod_noop(s, 1, n);
            } else {
                vstd::arithmetic::div_mod::lemma_mod_self_0(n);
            }
        }
        self.rebase();
        proof {
            let n = old(self).size() as int;
            let s = old(self).start.count() as int;
            let l = old(self).spec_len() as int;
            if l > 0 {
                vstd::arithmetic::div_mod::lemma_add_mod_noop_right(l - 1, s + 1, n);
                assert(((s + 1) % n + (l - 1)) % n == (s + l) % n);
                vstd::arithmetic::div_mod::lemma_small_mod(s as nat, n as nat);
            }
        }
    }

    pub fn start(&self) -> (i: usize)
        requires
            self.wf(),
        ensures
            i == self.spec_start(),
    {
        self.start.index()
    }

    pub fn end(&self) -> (i: usize)
        requires
            self.wf(),
        ensures
            i == self.spec_end(),
    {
        proof {
            let n = self.size() as int;
            let s = self.start.count() as int;
            vstd::arithmetic::div_mod::lemma_add_mod_noop(s, self.spec_len() as int, n);
            vstd::arithmetic::div_mod::lemma_small_mod(s as nat, n as nat);
        }
        self.end.index()
    }
}

} // verus!
