//! Errors that the library reports.

use vstd::prelude::*;

verus! {

/// Why a snapshot cannot be turned back into an index.
#[derive(Clone, Copy, Debug, PartialEq, Eq, Structural)]
pub enum PersistenceError {
    /// A document lists the same term twice.
    DuplicateTerm,
    /// A document lists a term with the frequency zero.
    ZeroFrequency,
    /// The term count of a document is not the sum of its frequencies.
    CountMismatch,
    /// Two documents have the same id.
    DuplicateDocument,
}

/// Why the raw content of a file gives no document.
#[derive(Clone, Copy, Debug, PartialEq, Eq, Structural)]
pub enum ExtractionError {
    /// The content is not valid UTF-8.
    NotUtf8,
}

/// Why a request body is not a query.
#[derive(Clone, Copy, Debug, PartialEq, Eq, Structural)]
pub enum QueryError {
    /// The body is not valid UTF-8.
    NotUtf8,
}

} // verus!
