use vstd::prelude::*;

use crate::config::Config;
use crate::error::TestingError;

verus! {

/// Makes the check of one crate, from what can be learnt before building it.
pub trait TestStepFactory {
    type Step: TestStep;

    fn initialize(&self, config: &Config, crate_path: &str) -> Result<Self::Step, TestingError>;
}

/// A check of one crate, run with a scratch directory for the build output.
pub trait TestStep {
    fn execute(&self, config: &Config, build_path: &str) -> Result<(), TestingError>;
}

} // verus!
