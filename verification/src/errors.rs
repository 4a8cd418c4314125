//! The library's error type.
use vstd::prelude::*;

verus! {

/// What can go wrong in a transaction. The redb variants carry the `Display`
/// text of the redb error they stand for.
#[derive(Debug, Clone, PartialEq, Eq)]
pub enum NetabaseError {
    /// Beginning a read or write transaction failed.
    RedbTransactionError(String),
    /// Opening a table failed.
    RedbTableError(String),
    /// Reading or writing a table failed.
    RedbStorageError(String),
    /// Committing a write transaction failed.
    RedbCommitError(String),
    /// A write was asked of a table that is not open for writing.
    PermissionDenied,
    /// An index entry names a table position that the model's tree names do
    /// not have.
    InvalidIndexReference,
    /// `create` found the primary key present already.
    PrimaryKeyExists,
    /// `update` found no entry under the primary key.
    NotFound,
    /// A stored value does not decode as an entry.
    CorruptedEntry,
    /// The operation does not apply to this kind of transaction.
    Other,
}

/// The result type of the library's operations.
pub type NetabaseResult<T> = Result<T, NetabaseError>;

} // verus!
