//! The library's error taxonomy: storage failures (the persistence
//! collaborator could not open, begin, or commit), domain errors (a name or a
//! scope is absent), an invalid scope path, and a declined confirmation.

use vstd::prelude::*;

verus! {

/// Every failure an operation of this crate can surface. Storage variants
/// carry the collaborator's rendered message; domain variants carry the
/// offending name or path.
#[derive(Debug)]
pub enum AkaError {
    /// The database file could not be opened or created.
    DatabaseError(String),
    /// A transaction could not be begun.
    TransactionError(String),
    /// A table could not be opened inside a transaction.
    TableError(String),
    /// A transaction could not be committed.
    CommitError(String),
    /// A read or write inside an open transaction failed.
    StorageError(String),
    /// A configuration value is missing or malformed.
    ConfigError(String),
    /// No record exists under the given alias name.
    AliasNotFound(String),
    /// The alias exists, but holds no definition for the given scope.
    ScopeNotFoundInAlias(String, String),
    /// A supplied directory cannot be resolved to a stored scope.
    InvalidScopePath(String),
    /// An interactive confirmation was declined.
    OperationCancelled,
}

/// A failure of the persistence collaborator (open, begin, table, read,
/// write, or commit), as opposed to a domain error.
pub open spec fn is_storage_failure(e: AkaError) -> bool {
    ||| e is DatabaseError
    ||| e is TransactionError
    ||| e is TableError
    ||| e is CommitError
    ||| e is StorageError
}

} // verus!
