use vstd::prelude::*;

use super::circ_slice::CircularSlice;
use super::history::History;
use vstd::string::StringSliceAdditionalSpecFns;

verus! {

/// Moves through the entries of a history, from the newest back.
pub struct HistoryNavigator<'a, H: History> {
    pub history: &'a mut H,
    pub position: Option<usize>,
}

impl<'a, H: History> HistoryNavigator<'a, H> {
    /// The entry shown, or `None` before navigation starts.
    pub closed spec fn position(&self) -> Option<usize> {
        self.position
    }

    /// The navigated history.
    pub open spec fn hist(&self) -> H {
        *self.history
    }

    /// The position, where navigation starts past the newest entry.
    pub open spec fn current(&self) -> nat {
        match self.position() {
            Some(p) => p as nat,
            None => self.hist().entries().len(),
        }
    }

    pub fn new(history: &'a mut H) -> (n: Self)
        ensures
            n.hist() == *old(history),
            *final(n.history) == *final(history),
            n.position() == None::<usize>,
    {
        Self { history, position: None }
    }

    fn set_position(&mut self, position: usize) -> (p: usize)
        ensures
            *final(final(self).history) == *final(old(self).history),
            p == position,
            final(self).position() == Some(position),
            final(self).hist() == old(self).hist(),
    {
        self.position = Some(position);
        position
    }

    fn get_position(&mut self) -> (p: usize)
        requires
            old(self).hist().wf(),
        ensures
            *final(final(self).history) == *final(old(self).history),
            p == old(self).current(),
            final(self).position() == Some(p),
            final(self).hist() == old(self).hist(),
    {
        match self.position {
            Some(p) => p,
            None => {
                let n = self.history.number_of_entries();
                self.position = Some(n);
                n
            },
        }
    }

    /// Shows the entry before the current one, if there is one.
    pub fn move_up(&mut self) -> (r: Result<CircularSlice<'_>, ()>)
        requires
            old(self).hist().wf(),
        ensures
            *final(final(self).history) == *final(old(self).history),
            final(self).hist() == old(self).hist(),
            old(self).current() > 0 ==> {
                &&& final(self).position() == Some((old(self).current() - 1) as usize)
                &&& old(self).current() <= old(self).hist().entries().len() ==> (r matches Ok(c)
                    && c.wf() && c@ == old(self).hist().entries()[old(self).current() - 1])
                &&& old(self).current() > old(self).hist().entries().len() ==> r is Err
            },
            old(self).current() == 0 ==> r is Err && final(self).position() == Some(0usize),
    {
        let position = self.get_position();

        if position > 0 {
            let position = self.set_position(position - 1);
            match self.history.get_entry(position) {
                Some(entry) => Ok(entry),
                None => Err(()),
            }
        } else {
            Err(())
        }
    }

    /// Shows the entry after the current one, if there is one.
    pub fn move_down(&mut self) -> (r: Result<CircularSlice<'_>, ()>)
        requires
            old(self).hist().wf(),
            old(self).current() < usize::MAX,
        ensures
            *final(final(self).history) == *final(old(self).history),
            final(self).hist() == old(self).hist(),
            old(self).current() + 1 < old(self).hist().entries().len() ==> {
                &&& final(self).position() == Some((old(self).current() + 1) as usize)
                &&& r matches Ok(c) && c.wf() && c@ == old(self).hist().entries()[old(self).current() + 1int]
            },
            old(self).current() + 1 >= old(self).hist().entries().len() ==> r is Err
                && final(self).position() == Some(old(self).current() as usize),
    {
        let new_position = self.get_position() + 1;

        if new_position < self.history.number_of_entries() {
            let position = self.set_position(new_position);
            match self.history.get_entry(position) {
                Some(entry) => Ok(entry),
                None => Err(()),
            }
        } else {
            Err(())
        }
    }

    /// Adds `entry` to the history; the position is kept.
    pub fn add_entry<'b>(&mut self, entry: &'b str) -> (r: Result<(), &'b str>)
        requires
            old(self).hist().wf(),
        ensures
            *final(final(self).history) == *final(old(self).history),
            final(self).position() == old(self).position(),
            final(self).hist().wf(),
            r matches Err(e) ==> e == entry && final(self).hist().entries() == old(
                self,
            ).hist().entries(),
            r is Err <==> H::model_add(old(self).hist().model(), entry.spec_bytes()) is None,
            r is Err ==> final(self).hist().model() == old(self).hist().model(),
            r is Ok ==> H::model_add(old(self).hist().model(), entry.spec_bytes()) == Some(
                final(self).hist().model(),
            ),
    {
        self.history.add_entry(entry)
    }

    pub fn reset(&mut self)
        ensures
            *final(final(self).history) == *final(old(self).history),
            final(self).position() == None::<usize>,
            final(self).hist() == old(self).hist(),
    {
        self.position = None;
    }

    pub fn is_active(&self) -> (b: bool)
        ensures
            b == self.position() is Some,
    {
        self.position.is_some()
    }
}

} // verus!
