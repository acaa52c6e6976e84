//! The order in which records are emitted.

pub mod jsonl;
