//! The library's error type.

use vstd::prelude::*;

verus! {

/// What can go wrong while reading, parsing or rewriting the sources.
#[derive(Debug, Clone, PartialEq, Eq)]
pub enum WorkspaceError {
    /// The home directory could not be determined.
    HomeDir,
    /// A source could not be read.
    Read(String),
    /// A path, URI or document did not have the expected shape.
    Parse(String),
    /// A key-value store could not be used, or no store could be.
    Database(String),
    /// A source could not be written back.
    Write(String),
    /// A hex-encoded authority was malformed.
    Decode(String),
}

} // verus!
