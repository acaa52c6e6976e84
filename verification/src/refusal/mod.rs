//! Refusals: the answer given when a scan cannot start at all.

pub mod codes;
pub mod payload;
