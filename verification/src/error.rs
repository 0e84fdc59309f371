//! Error taxonomy shared by every component.
//!
//! Each failure carries a kind from a closed set and a message. The kind
//! decides the process exit code, so the mapping is part of the contract.

use vstd::prelude::*;

verus! {

/// The closed set of failure kinds.
#[derive(Clone, Copy, Debug, PartialEq, Eq, Structural)]
pub enum ErrorKind {
    /// Invalid flags, unparsable URL, unsupported scheme, unknown format.
    Argument,
    /// A configuration validation violation.
    Configuration,
    /// Missing or malformed environment credentials.
    Credential,
    /// The object does not exist.
    NotFound,
    /// Network, disk, permission or timeout failure.
    Io,
    /// Malformed bytes, short read, schema-inference failure.
    Decode,
    /// Batch/schema mismatch or declared-vs-actual field divergence.
    Schema,
    /// Writer failure or unsupported compression.
    Encode,
    /// SQL parse/plan/execute failure.
    Query,
    /// Plugin load, symbol resolution or version incompatibility.
    Plugin,
    /// An invariant violation; should be unreachable.
    Internal,
}

/// An error value: a kind plus a one-line message.
#[derive(Clone, Debug)]
pub struct ConvertError {
    pub kind: ErrorKind,
    pub message: Vec<u8>,
}

impl ConvertError {
    /// Build an error of the given kind.
    pub fn new(kind: ErrorKind, message: Vec<u8>) -> (r: ConvertError)
        ensures
            r.kind == kind,
            r.message@ == message@,
    {
        ConvertError { kind, message }
    }

    /// Build an error of the given kind from a message literal.
    pub fn text(kind: ErrorKind, message: &str) -> (r: ConvertError)
        ensures
            r.kind == kind,
    {
        ConvertError { kind, message: vstd::slice::slice_to_vec(message.as_bytes()) }
    }

    /// The kind of this error.
    pub fn kind(&self) -> (r: ErrorKind)
        ensures
            r == self.kind,
    {
        self.kind
    }

    /// The process exit code that reports this kind of failure.
    pub fn exit_code(&self) -> (r: u8)
        ensures
            r == exit_code_of(self.kind),
    {
        match self.kind {
            ErrorKind::Argument => 2,
            ErrorKind::Configuration => 3,
            ErrorKind::Credential => 3,
            ErrorKind::NotFound => 4,
            ErrorKind::Io => 4,
            ErrorKind::Decode => 5,
            ErrorKind::Schema => 5,
            ErrorKind::Encode => 5,
            ErrorKind::Query => 6,
            ErrorKind::Plugin => 3,
            ErrorKind::Internal => 1,
        }
    }
}

/// Exit code mapping: 2 argument/URL/format, 3 configuration (credential
/// and plugin faults surface at startup as configuration failures), 4 I/O,
/// 5 decode/encode/schema, 6 query, 1 anything else.
pub open spec fn exit_code_of(kind: ErrorKind) -> u8 {
    match kind {
        ErrorKind::Argument => 2,
        ErrorKind::Configuration => 3,
        ErrorKind::Credential => 3,
        ErrorKind::NotFound => 4,
        ErrorKind::Io => 4,
        ErrorKind::Decode => 5,
        ErrorKind::Schema => 5,
        ErrorKind::Encode => 5,
        ErrorKind::Query => 6,
        ErrorKind::Plugin => 3,
        ErrorKind::Internal => 1,
    }
}

} // verus!
