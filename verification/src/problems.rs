//! The process-wide error type: everything that can stop a run, by the
//! component it came from.

use vstd::prelude::*;

verus! {

/// Everything that can stop a run.
#[derive(Debug, PartialEq)]
pub enum Problem {
    /// Command-line validation failed.
    Cli(crate::cli::Problem),
}

} // verus!
