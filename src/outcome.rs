use vstd::prelude::*;

verus! {

/// How the check of one crate ended.
#[derive(Clone, Copy, Debug, PartialEq, Eq, Structural)]
pub enum CrateOutcome {
    Passed,
    Failed,
    Ignored,
}

/// The tally of a run of tests. Each count stops at `usize::MAX`.
#[derive(Clone, Copy, Debug, PartialEq, Eq, Structural)]
pub struct TestResult {
    pub successful: usize,
    pub failed: usize,
    pub ignored: usize,
}

/// `n + 1`, or `n` at the largest count.
pub open spec fn bump(n: usize) -> usize {
    if n < usize::MAX {
        (n + 1) as usize
    } else {
        n
    }
}

impl TestResult {
    pub fn new() -> (r: Self)
        ensures
            r.successful == 0 && r.failed == 0 && r.ignored == 0,
    {
        TestResult { successful: 0, failed: 0, ignored: 0 }
    }

    /// Counts one crate's outcome.
    pub fn record(&mut self, outcome: CrateOutcome)
        ensures
            final(self).successful == if outcome == CrateOutcome::Passed {
                bump(old(self).successful)
            } else {
                old(self).successful
            },
            final(self).failed == if outcome == CrateOutcome::Failed {
                bump(old(self).failed)
            } else {
                old(self).failed
            },
            final(self).ignored == if outcome == CrateOutcome::Ignored {
                bump(old(self).ignored)
            } else {
                old(self).ignored
            },
    {
        match outcome {
            CrateOutcome::Passed => {
                if self.successful < usize::MAX {
                    self.successful = self.successful + 1;
                }
            },
            CrateOutcome::Failed => {
                if self.failed < usize::MAX {
                    self.failed = self.failed + 1;
                }
            },
            CrateOutcome::Ignored => {
                if self.ignored < usize::MAX {
                    self.ignored = self.ignored + 1;
                }
            },
        }
    }

    /// Whether no crate failed.
    pub fn is_success(&self) -> (r: bool)
        ensures
            r == (self.failed == 0),
    {
        self.failed == 0
    }
}

} // verus!
