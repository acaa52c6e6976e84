//! The command line as the library sees it: what was asked, and how the
//! process answers.

pub mod args;
pub mod exit;
