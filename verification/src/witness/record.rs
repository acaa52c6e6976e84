//! The record that an invocation leaves in the audit ledger.

use vstd::prelude::*;

use crate::record::builder::TOOL_NAME;
use crate::record::time::{now_rfc3339, Precision};

verus! {

/// The schema tag of a ledger record.
pub const WITNESS_VERSION: &'static str = "witness.v0";

/// One line of the audit ledger: how an invocation ended, and when.
#[derive(Debug, PartialEq, Eq)]
pub struct WitnessRecord {
    pub version: &'static str,
    pub tool: String,
    pub outcome: String,
    pub exit_code: u8,
    pub ts: String,
}

impl WitnessRecord {
    /// The record of an invocation that ended at `ts`.
    pub fn stamped(outcome: &str, exit_code: u8, ts: String) -> (record: Self)
        ensures
            record.version@ == WITNESS_VERSION@,
            record.tool@ == TOOL_NAME@,
            record.outcome@ == outcome@,
            record.exit_code == exit_code,
            record.ts@ == ts@,
    {
        WitnessRecord {
            version: WITNESS_VERSION,
            tool: TOOL_NAME.to_string(),
            outcome: outcome.to_string(),
            exit_code,
            ts,
        }
    }

    /// The record of an invocation that ends now. The time is read from the
    /// clock and written as UTC with milliseconds and a closing `Z`, so two
    /// records made of the same outcome may differ in it.
    pub fn new(outcome: &str, exit_code: u8) -> (record: Self)
        ensures
            record.version@ == WITNESS_VERSION@,
            record.tool@ == TOOL_NAME@,
            record.outcome@ == outcome@,
            record.exit_code == exit_code,
    {
        WitnessRecord::stamped(outcome, exit_code, now_rfc3339(Precision::Millis, true))
    }
}

} // verus!
