//! What can go wrong in the catalog.

use vstd::prelude::*;
use vstd::std_specs::convert::FromSpecImpl;
use crate::name::NotAValidSqlName;

verus! {

/// Which part of the identifier space ran out.
#[derive(Debug, Clone, Copy, PartialEq, Eq, Structural)]
pub enum Capacity {
    /// Every snapshot ordinal has been handed out.
    TooManySnapshots,
    /// A snapshot has used up its row ordinals.
    TooManyRows,
}

/// Why the store turned an operation down.
#[derive(Debug, Clone, Copy, PartialEq, Eq, Structural)]
pub enum StorageFault {
    /// The alias is held by a live handle.
    AliasInUse,
    /// No store is attached under the alias.
    NotAttached,
    /// The attached store lacks the table that the operation reads or writes.
    NoSuchTable,
    /// The stored data breaks the layout that the catalog keeps.
    Corrupt,
}

/// A failure of a catalog operation.
#[derive(Debug)]
pub enum Error {
    /// The store could not carry out a read, a write or a change of layout.
    StorageEngineFailure(StorageFault),
    /// A metadata record could not be encoded, or a stored one is not a document.
    SerializationFailure,
    /// The walk over the tree reported a failure.
    TraversalFailure,
    /// A text does not match the name grammar.
    InvalidName(NotAValidSqlName),
    /// The identifier space is used up.
    CapacityExceeded(Capacity),
    /// A stored row carries a classification tag outside the known set.
    SchemaMismatch { found: u8 },
    /// The path of a store cannot be written as text.
    PathEncodingFailure,
    /// A handle was used with a catalog other than the one that issued it.
    IdentityMismatch { this: u64, before: u64, after: u64 },
}

impl From<NotAValidSqlName> for Error {
    fn from(source: NotAValidSqlName) -> (r: Error) {
        Error::InvalidName(source)
    }
}

impl FromSpecImpl<NotAValidSqlName> for Error {
    open spec fn obeys_from_spec() -> bool {
        true
    }

    open spec fn from_spec(source: NotAValidSqlName) -> Error {
        Error::InvalidName(source)
    }
}

} // verus!
