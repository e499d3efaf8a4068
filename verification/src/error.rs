//! Errors of the storage write path.

use vstd::prelude::*;

verus! {

/// Why an operation on a rowset was refused or given up.
#[derive(Clone, Copy, Debug, PartialEq, Eq, Structural)]
pub enum StorageError {
    /// A data or index file of the rowset exists already.
    PathCollision,
    /// The device failed to open, write, flush or sync.
    IoFailure,
    /// An array is not of the type of its column, or holds a null where
    /// the column admits none.
    ShapeMismatch,
    /// An index file records another checksum algorithm than the reader expects.
    ChecksumAlgorithmMismatch,
    /// A variable-length value is longer than any block can hold: an index
    /// entry records the length of a block in 32 bits.
    ValueTooLarge,
    /// The rowset cannot count more rows.
    RowLimitExceeded,
    /// A file is not what the write path produces, or a block fails its checksum.
    Corrupted,
}

} // verus!
