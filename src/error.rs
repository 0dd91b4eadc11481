use vstd::prelude::*;

verus! {

/// Why an export or a listing failed. Every failure ends the operation.
#[derive(Debug, Clone, Copy, PartialEq, Eq, Structural)]
pub enum ExportError {
    /// The request could not be completed (name lookup, connection, TLS).
    Transport,
    /// The service answered with a status outside the success range.
    Remote(u16),
    /// A successful response body is not JSON.
    Decode,
    /// A record lacks a field it must carry, or holds it with another type.
    MissingField,
    /// A chapter title has no entry in the book's outline.
    Key,
}

} // verus!
