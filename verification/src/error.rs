//! What can go wrong while decoding boot variables or selecting an entry.

use vstd::prelude::*;

verus! {

/// Why a boot variable yields no entry, or a selection no payload.
///
/// The decode errors drop one variable's entry from the catalog and never
/// abort a scan; `NoSuchEntry` is reported to the selector's caller.
#[derive(Debug, Clone, Copy, PartialEq, Eq, Structural)]
pub enum BootError {
    /// Fewer than six bytes: no room for attributes and path-list length.
    TruncatedHeader,
    /// No null code unit before the end of the blob.
    UnterminatedDescription,
    /// The declared device-path length exceeds the bytes that remain.
    PathListSizeMismatch,
    /// A device-path node type or subtype outside the recognized table.
    UnsupportedNode,
    /// A node length under four bytes or running past the region's end.
    MalformedNodeLength,
    /// A variable name without exactly four hexadecimal digits after `Boot`.
    InvalidVariableName,
    /// No catalog entry carries the selected id.
    NoSuchEntry,
}

} // verus!
