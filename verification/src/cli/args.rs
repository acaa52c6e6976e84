//! What the command line asked for.

use vstd::prelude::*;

verus! {

/// What the command line asked for.
#[derive(Debug, PartialEq, Eq)]
pub struct Cli {
    pub command: Option<Command>,
    /// The roots to scan, as written.
    pub roots: Vec<String>,
    /// Globs of which a listed record must match one, where there are any.
    pub includes: Vec<String>,
    /// Globs of which a listed record must match none.
    pub excludes: Vec<String>,
    pub no_follow: bool,
    pub no_witness: bool,
    pub describe: bool,
    pub schema: bool,
    pub progress: bool,
}

/// A subcommand, which takes the place of a scan.
#[derive(Debug, PartialEq, Eq)]
pub enum Command {
    Witness { action: WitnessAction },
}

/// A question put to the audit ledger.
#[derive(Debug, PartialEq, Eq)]
pub enum WitnessAction {
    Query {
        tool: Option<String>,
        since: Option<String>,
        until: Option<String>,
        outcome: Option<String>,
        input_hash: Option<String>,
        limit: Option<usize>,
        json: bool,
    },
    Last { json: bool },
    Count {
        tool: Option<String>,
        since: Option<String>,
        until: Option<String>,
        outcome: Option<String>,
        input_hash: Option<String>,
        json: bool,
    },
}

} // verus!
