use vstd::prelude::*;

verus! {

/// The progress of a task that runs in a given number of steps.
pub struct Progress {
    cur: usize,
    total: usize,
}

impl Progress {
    /// The number of steps done.
    pub closed spec fn current(&self) -> nat {
        self.cur as nat
    }

    /// The number of steps of the task.
    pub closed spec fn total_steps(&self) -> nat {
        self.total as nat
    }

    /// Creates a new progress with the given total number of steps.
    pub fn new(total: usize) -> (r: Self)
        ensures
            r.current() == 0,
            r.total_steps() == total,
    {
        Self { cur: 0, total }
    }

    /// Records that one more step of the task is done.
    pub fn update(&mut self)
        requires
            old(self).current() < usize::MAX,
        ensures
            final(self).current() == old(self).current() + 1,
            final(self).total_steps() == old(self).total_steps(),
    {
        self.cur += 1;
    }

    /// Returns the number of steps done.
    pub fn get_current(&self) -> (r: usize)
        ensures
            r == self.current(),
    {
        self.cur
    }

    /// Returns the number of steps of the task.
    pub fn get_total(&self) -> (r: usize)
        ensures
            r == self.total_steps(),
    {
        self.total
    }
}

} // verus!
