use vstd::prelude::*;

verus! {

/// A single-use guard around the child-termination action. Both the
/// normal end-of-stream path and the asynchronous signal path ask it
/// before terminating the child; it grants the action to the first
/// request only, so the cleanup runs exactly once even when the two
/// paths race.
pub struct CleanupLatch {
    fired: bool,
}

impl CleanupLatch {
    /// Whether the action has already been granted.
    pub closed spec fn has_fired(&self) -> bool {
        self.fired
    }

    /// A fresh latch: the action has not been granted yet.
    pub fn new() -> (l: CleanupLatch)
        ensures
            !l.has_fired(),
    {
        CleanupLatch { fired: false }
    }

    /// Ask for the termination action. It is granted if and only if
    /// this is the first request; afterwards the latch has fired for
    /// good, so no later request is granted.
    pub fn fire(&mut self) -> (granted: bool)
        ensures
            granted == !old(self).has_fired(),
            final(self).has_fired(),
    {
        let granted = !self.fired;
        self.fired = true;
        granted
    }
}

} // verus!
