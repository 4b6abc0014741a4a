//! The failures that reading and writing can report.
use vstd::prelude::*;

verus! {

/// Why a stream, reader, writer or codec operation failed.
#[derive(Debug, PartialEq, Eq)]
pub enum BinaryError {
    /// The backing store failed; the text says how.
    Io(String),
    /// The stream holds fewer bytes than the read asked for.
    ReadPastEof,
    /// String bytes are not valid UTF-8.
    InvalidUtf8,
    /// A 4-byte value is not a Unicode scalar value.
    InvalidChar,
    /// A decoded variant name names no variant of the target enum.
    UnexpectedVariant(String),
}

} // verus!
