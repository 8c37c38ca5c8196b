//! Human-readable reports for the process-wide errors.

use vstd::prelude::*;

use crate::cli;
use crate::problems::Problem;

verus! {

/// The message text for a problem, ready to print.
pub fn report(problem: Problem) -> (r: String)
    ensures
        match problem {
            Problem::Cli(cli::Problem::InvalidLanguage(lang)) => r@ == lang@
                + " is not a supported language. Supported languages include JavaScript and Elm."@,
        },
{
    match problem {
        Problem::Cli(cli::Problem::InvalidLanguage(lang)) => lang.concat(
            " is not a supported language. Supported languages include JavaScript and Elm.",
        ),
    }
}

} // verus!
