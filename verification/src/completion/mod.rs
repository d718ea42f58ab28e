//! What can be typed next.

pub mod builtin;
pub mod callables;
pub mod imports;
pub mod jet;
pub mod types;
