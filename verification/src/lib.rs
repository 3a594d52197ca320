//! Verified core of a one-shot export pipeline over a content index.
//!
//! The pipeline walks an immutable, newest-first content index page by page,
//! keeps only non-empty plain-text records, drops records whose decoded text
//! was already emitted, fingerprints each surviving record's raw bytes, and
//! appends the result to a CSV sink with a flush after every page.

use vstd::prelude::*;

pub mod csvout;
pub mod dedup;
pub mod export;
pub mod fingerprint;
pub mod index;
pub mod link;
pub mod progress;
pub mod records;
pub mod textenc;
pub mod timefmt;

verus! {

/// The errors that abort an export run.
#[derive(Clone, Copy, PartialEq, Eq, Structural, Debug)]
pub enum ExportError {
    /// The index reported no records at all on the initial probe.
    EmptyIndex,
    /// A page, record or entry read from the index failed.
    IndexRead,
    /// The output sink could not be created or written.
    OutputIo,
}

/// The diagnostic text each error surfaces with.
pub open spec fn message_of(e: ExportError) -> Seq<char> {
    match e {
        ExportError::EmptyIndex => "no records found in the index"@,
        ExportError::IndexRead => "failed to read from the index"@,
        ExportError::OutputIo => "failed to write the output file"@,
    }
}

impl ExportError {
    /// The diagnostic message for this error.
    pub fn message(&self) -> (r: &'static str)
        ensures
            r@ == message_of(*self),
    {
        match self {
            ExportError::EmptyIndex => "no records found in the index",
            ExportError::IndexRead => "failed to read from the index",
            ExportError::OutputIo => "failed to write the output file",
        }
    }
}

} // verus!
