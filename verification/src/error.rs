//! Failures of editor requests.

use vstd::prelude::*;

verus! {

/// Why an editor request could not be answered.
#[derive(Debug)]
pub enum LspError {
    /// A position, span or offset has no counterpart in the document.
    ConversionFailed(String),
    /// The request does not fit the document that it names.
    Internal(String),
    /// A function has no name or no source where it should have one.
    FunctionNotFound(String),
}

/// Whether an error is that of a conversion, with a message.
pub open spec fn conversion_failed(error: LspError, message: Seq<char>) -> bool {
    match error {
        LspError::ConversionFailed(text) => text@ == message,
        _ => false,
    }
}

} // verus!
