//! Manifest records and what is derived from a path alone.

pub mod builder;
pub mod mime;
pub mod path;
pub mod time;
