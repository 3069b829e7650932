//! The failures that the storage core reports.

use vstd::prelude::*;

verus! {

/// Why a byte string is not the encoding of a key.
#[derive(Clone, Copy, Debug, PartialEq, Eq, Structural)]
pub enum DecodeError {
    /// A sentinel byte is not where the grammar puts it.
    Sentinel,
    /// The byte that ends a segment, and opens the next level, never comes.
    Boundary,
    /// A segment is not valid UTF-8.
    Text,
}

/// Why an operation of a transaction did not take place.
#[derive(Clone, Copy, Debug, PartialEq, Eq, Structural)]
pub enum Error {
    /// The transaction was committed or cancelled before.
    TxClosed,
    /// The transaction was opened for reading only and was asked to write.
    TxReadonly,
    /// The key of an insert is taken.
    KeyAlreadyExists,
    /// Another transaction wrote what this one was to commit.
    Conflict,
    /// The storage engine could not be reached or failed.
    BackendUnavailable,
}

} // verus!
