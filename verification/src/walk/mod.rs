//! From traversal observations to records, and from records to the selection
//! that is emitted.

pub mod filter;
pub mod walker;
