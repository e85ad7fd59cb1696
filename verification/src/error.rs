//! The error type shared by every fallible operation of the crate.

use vstd::prelude::*;
use crate::ids::TaskID;

verus! {

/// Why a string of digits did not parse as an integer; mirrors the kinds
/// that `u64::from_str_radix` reports.
#[derive(Clone, Copy, Debug, PartialEq, Eq, Structural)]
pub enum IntErrorKind {
    /// The digit string was empty.
    Empty,
    /// A character is not a digit of the radix (or a lone sign).
    InvalidDigit,
    /// The value does not fit in the target type.
    PosOverflow,
}

/// Errors returned by the client library.
#[derive(Clone, Debug, PartialEq, Eq)]
pub enum Error {
    /// A caller-supplied argument was rejected; the message says why.
    InvalidParameters(String),
    /// A number embedded in an identifier did not parse.
    ParseIntError(IntErrorKind),
    /// A COCO dataset or annotation was malformed.
    CocoError(String),
    /// The server reported that the given task does not exist.
    TaskNotFound(TaskID),
    /// The server refused the named RPC method for this user.
    PermissionDenied(String),
    /// The request body for the named method was too large.
    PayloadTooLarge { method: String, size_hint: Option<usize> },
    /// A JSON-RPC error with its code and message, passed through unchanged.
    RpcError(i32, String),
    /// A plain `http://` URL that does not point at the local machine.
    InsecureUrl(String),
    /// A URL that could not be parsed.
    UrlParseError(String),
    /// The authentication token is malformed.
    InvalidToken,
    /// No authentication token is available.
    EmptyToken,
    /// The server answered without a result or an error.
    InvalidResponse,
    /// A dataset has no annotations to work with.
    MissingAnnotations(String),
    /// Image files referenced by a dataset are not on disk.
    MissingImages(String),
    /// A JSON document could not be decoded.
    JsonError(String),
}

} // verus!
