//! Completion inside of unfinished imports.

pub mod candidates;
pub mod context;
pub mod context_laws;
pub mod laws;
pub mod search;
