use vstd::prelude::*;

verus! {

/// What a job does each time one of its occurrences comes due. It may change
/// its own state; a job never runs it twice at once.
pub trait Action {
    fn run(&mut self);
}

/// An action and the number of times it has run. The action is reached only
/// through `Runner::run`, which counts each call.
pub struct Runner<A> {
    action: A,
    runs: Ghost<nat>,
}

impl<A: Action> Runner<A> {
    /// How many times the action has run.
    pub closed spec fn runs(&self) -> nat {
        self.runs@
    }

    pub closed spec fn action(&self) -> A {
        self.action
    }

    /// `action`, not run yet.
    pub fn new(action: A) -> (r: Runner<A>)
        ensures
            r.runs() == 0,
            r.action() == action,
    {
        Runner { action, runs: Ghost(0) }
    }

    /// Runs the action once.
    pub fn run(&mut self)
        ensures
            final(self).runs() == old(self).runs() + 1,
    {
        self.action.run();
        self.runs = Ghost(self.runs@ + 1);
    }
}

} // verus!
