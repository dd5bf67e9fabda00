//! The error taxonomy of the extraction and submission logic. Every failure
//! is a typed value; nothing is recovered from or logged inside the library.

use vstd::prelude::*;

verus! {

/// Errors that can occur during the client's operations.
///
/// `NetworkError` is never produced by the library itself: transport lives in
/// the surrounding application, which wraps its failures in this variant so
/// that one type covers a whole submission.
#[derive(Debug, Clone, PartialEq, Eq)]
pub enum ShindanError {
    /// Transport or timeout failure, surfaced verbatim by the caller.
    NetworkError(String),
    /// The session cookie was absent from the initial response's cookie set.
    SessionCookieNotFound,
    /// A required hidden form field was absent; the payload names the field.
    TokenNotFound(String),
    /// An expected unique element was absent; the payload names its role.
    ElementNotFound(String),
    /// A chart-capable result lacked a script naming the page id; the
    /// payload is that id.
    ScriptNotFound(String),
}

} // verus!
