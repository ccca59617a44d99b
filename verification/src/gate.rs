use vstd::prelude::*;

verus! {

/// The one-submission gate: a judgment holds it from acceptance to its final
/// result, and a second acceptance attempt meanwhile is turned away.
#[derive(Debug, Clone, Copy, PartialEq, Eq, Structural)]
pub struct JudgeGate {
    pub busy: bool,
}

impl JudgeGate {
    /// An open gate: no judgment running.
    pub fn new() -> (r: JudgeGate)
        ensures
            !r.busy,
    {
        JudgeGate { busy: false }
    }

    /// Takes the permit where it is free, and reports whether it was.
    pub fn try_acquire(&mut self) -> (r: bool)
        ensures
            r == !old(self).busy,
            final(self).busy,
    {
        let free = !self.busy;
        self.busy = true;
        free
    }

    /// Frees the permit when judging ends, however it ended.
    pub fn release(&mut self)
        ensures
            !final(self).busy,
    {
        self.busy = false;
    }

    /// Cancellation frees the permit too, so the next submission is accepted.
    pub fn cancel(&mut self)
        ensures
            !final(self).busy,
    {
        self.busy = false;
    }
}

} // verus!
