//! The command-line entry point.
use vstd::prelude::*;

verus! {

/// What can go wrong on the command line.
#[derive(Debug)]
pub enum CliError {
    /// The input could not be parsed.
    ParseError,
}

/// Runs the command line; it does nothing yet and always succeeds.
pub fn cli() -> (r: Result<(), CliError>)
    ensures
        r is Ok,
{
    Ok(())
}

} // verus!
