//! Checks a compiler's diagnostics and macro expansion against
//! expectations written as comments in the sources of test crates.

use vstd::prelude::*;

pub mod annotations;
pub mod cargo_messages;
pub mod check_errors;
pub mod check_expansion;
pub mod collect_errors;
pub mod config;
pub mod error;
pub mod formatting;
pub mod messages;
pub mod outcome;
pub mod partition;
pub mod plan;
pub mod regex_ffi;
pub mod render;
pub mod steps;
pub mod text;
pub mod tokens;

verus! {

} // verus!
