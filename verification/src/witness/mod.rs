//! The audit ledger: what is written to it, where it lives, and how it is
//! queried.

pub mod ledger;
pub mod query;
pub mod record;
