//! The single-instance guard of the poll loop.
//!
//! Exactly one poll loop may run per process. The guard owns the "already
//! running" flag; a start request reads and sets the flag through one
//! exclusive borrow, so there is no window between the check and the set in
//! which a second request could slip through.

use vstd::prelude::*;

verus! {

/// Owns the flag that records whether a poll loop instance is active.
pub struct PollGuard {
    running: bool,
}

impl PollGuard {
    /// Whether a loop instance currently holds the guard.
    pub closed spec fn is_running(&self) -> bool {
        self.running
    }

    /// A fresh guard: no loop is running yet.
    pub fn new() -> (g: Self)
        ensures
            !g.is_running(),
    {
        PollGuard { running: false }
    }

    /// Asks to start the loop. The request is granted exactly when no
    /// instance is running yet; afterwards one is, so of any number of
    /// requests on one guard only the first is granted.
    pub fn try_start(&mut self) -> (granted: bool)
        ensures
            granted == !old(self).is_running(),
            final(self).is_running(),
    {
        let was_running = self.running;
        self.running = true;
        !was_running
    }
}

} // verus!
