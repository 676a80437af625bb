use vstd::prelude::*;

use crate::messages::CompilerMessage;

verus! {

/// A module whose expansion differs from its expected tokens: the module,
/// the tokens expected, and the tokens found, if the module has a stream.
#[derive(Debug)]
pub struct ModuleMismatch {
    pub module: String,
    pub expected: Vec<String>,
    pub actual: Option<Vec<String>>,
}

/// Why a test of a crate failed.
#[derive(Debug)]
pub enum TestingError {
    /// The crate built although it was expected to fail.
    UnexpectedBuildSuccess,
    /// The crate failed to build and reported no structured message.
    CrateBuildFailed { stdout: String, stderr: String },
    /// The reported messages differ from the expected ones.
    MessageExpectationsFailed { unexpected: Vec<CompilerMessage>, missing: Vec<CompilerMessage> },
    /// The expanded source could not be parsed.
    UnableToParseExpansion,
    /// The expansion of some modules differs from the expected tokens.
    ExpansionMismatch { mismatches: Vec<ModuleMismatch> },
    /// The build tool could not be run, or its output could not be read.
    ToolFailed { message: String },
    /// A directive in a source file cannot be used: its pattern is not a
    /// valid regular expression, or it points above the first line.
    InvalidAnnotation { file: String, line: usize },
}

} // verus!
