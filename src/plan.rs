use vstd::prelude::*;

use crate::config::Config;

verus! {

/// The crates of one test and the filter that selects among them.
pub struct TestPlan<F> {
    pub config: Config,
    pub crates: Vec<String>,
    pub crates_filter: F,
}

impl<F: Fn(&str) -> bool> TestPlan<F> {
    pub fn new(config: Config, crates: Vec<String>, crates_filter: F) -> (r: Self)
        ensures
            r.config == config,
            r.crates == crates,
            r.crates_filter == crates_filter,
    {
        TestPlan { config, crates, crates_filter }
    }

    /// The crates of the test, in the order given.
    pub fn crates(&self) -> (r: &[String])
        ensures
            r@ == self.crates@,
    {
        self.crates.as_slice()
    }

    /// Whether the filter leaves the crate at `crate_path` out.
    pub fn is_crate_filtered_out(&self, crate_path: &str) -> (r: bool)
        requires
            self.crates_filter.requires((crate_path,)),
        ensures
            self.crates_filter.ensures((crate_path,), !r),
    {
        let kept = (self.crates_filter)(crate_path);
        !kept
    }
}

} // verus!
