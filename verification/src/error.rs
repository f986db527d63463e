//! Errors of the storage engine. Decode and format errors indicate
//! corruption or caller misuse and are never retried; structural corruption
//! is kept distinct from plain decode errors.

use vstd::prelude::*;

verus! {

/// Everything that can go wrong while parsing pages and values or while
/// resolving a key in the tree.
#[derive(Clone, Copy, Debug, PartialEq, Eq, Structural)]
pub enum DbError {
    /// A page type tag outside the four known kinds.
    InvalidPageType,
    /// A length prefix or a field runs past the end of the buffer.
    TruncatedInput,
    /// String payload bytes that are not valid UTF-8.
    InvalidUtf8,
    /// A varint of 10 continuation bytes with no terminator.
    MalformedVarint,
    /// A page buffer whose length is not the page size.
    SizeMismatch,
    /// A byte offset that does not fit in 64 bits.
    OffsetOverflow,
    /// A child pointer naming a page the store does not hold.
    PageOutOfBounds,
    /// A page graph cycle: descent would never terminate.
    StructuralCorruption,
}

} // verus!
