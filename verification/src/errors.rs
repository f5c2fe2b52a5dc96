//! The engine's error taxonomy. I/O failures and parse failures are
//! errors and propagate to the caller; drift findings are data and live in
//! a [`crate::verify::VerifyResult`], never here.

use vstd::prelude::*;

verus! {

/// What can go wrong while building, persisting or checking a manifest.
#[derive(Debug, PartialEq, Eq)]
pub enum IntegrityError {
    /// The filesystem could not be read; carries the underlying message.
    IoError(String),
    /// A tracked file's fingerprint differs from the manifest.
    HashMismatch { path: String, expected: String, actual: String },
    /// A tracked file is absent.
    FileMissing(String),
    /// A file on disk is not tracked by the manifest.
    UnexpectedFile(String),
    /// A persisted manifest could not be understood; carries the cause.
    ParseError(String),
}

} // verus!
