//! Exit codes.

use vstd::prelude::*;

verus! {

/// The exit code of a run that did what it was asked.
pub const SCAN_COMPLETE: u8 = 0;

/// The exit code of a run that was refused.
pub const REFUSAL: u8 = 2;

/// Why the command line gave no request.
#[derive(Debug, Clone, Copy, PartialEq, Eq, Structural)]
pub enum ParseFailure {
    /// Help was asked for and shown.
    DisplayHelp,
    /// The version was asked for and shown.
    DisplayVersion,
    /// The arguments were wrong.
    Usage,
}

/// The exit code for a command line that gave no request: asking for help or
/// for the version is no failure; wrong arguments are refused.
pub fn from_clap_error(failure: ParseFailure) -> (code: u8)
    ensures
        code == match failure {
            ParseFailure::DisplayHelp => SCAN_COMPLETE,
            ParseFailure::DisplayVersion => SCAN_COMPLETE,
            ParseFailure::Usage => REFUSAL,
        },
{
    match failure {
        ParseFailure::DisplayHelp => SCAN_COMPLETE,
        ParseFailure::DisplayVersion => SCAN_COMPLETE,
        ParseFailure::Usage => REFUSAL,
    }
}

} // verus!
