//! Progress of the pass that refreshes the recent-activity flag of every
//! program: how many programs were handled, and when to report it.

use vstd::prelude::*;

verus! {

/// A report is due after every this many programs.
pub const REPORT_EVERY: usize = 1000;

/// The number of programs handled so far.
pub struct ProgressCounter {
    count: usize,
}

impl ProgressCounter {
    pub closed spec fn count(&self) -> nat {
        self.count as nat
    }

    /// No program handled yet.
    pub fn new() -> (r: Self)
        ensures
            r.count() == 0,
    {
        ProgressCounter { count: 0 }
    }

    /// The number handled so far.
    pub fn handled(&self) -> (r: usize)
        ensures
            r == self.count(),
    {
        self.count
    }

    /// Counts one more program; returns whether a progress report is due,
    /// that is whether the new count is a multiple of `REPORT_EVERY`.
    pub fn tick(&mut self) -> (r: bool)
        requires
            old(self).count() < usize::MAX,
        ensures
            final(self).count() == old(self).count() + 1,
            r == (final(self).count() % (REPORT_EVERY as nat) == 0),
    {
        self.count = self.count + 1;
        self.count % REPORT_EVERY == 0
    }
}

} // verus!
