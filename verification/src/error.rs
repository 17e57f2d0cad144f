//! The error kinds that storage operations report.

use vstd::prelude::*;

verus! {

/// What went wrong with a storage operation.
#[derive(Debug, Clone, Copy, PartialEq, Eq, Structural)]
pub enum StorageError {
    /// The universe was never connected, or has been disconnected.
    NotConnected,
    /// The database file could not be opened or read.
    Io,
    /// A schema migration failed; the universe was not opened.
    Migration,
    /// The write lock could not be taken within the timeout.
    Busy,
    /// A space id was supplied that differs from the one already set.
    SpaceMismatch,
    /// The stored data is inconsistent beyond recovery.
    Corruption,
    /// Any other unexpected failure.
    Internal,
}

impl StorageError {
    /// A sentence that says what went wrong.
    pub fn message(&self) -> (r: String)
        ensures
            r@ == match *self {
                StorageError::NotConnected => "storage is not connected"@,
                StorageError::Io => "database file could not be opened or read"@,
                StorageError::Migration => "schema migration failed"@,
                StorageError::Busy => "write lock timed out"@,
                StorageError::SpaceMismatch => "space id differs from the one already set"@,
                StorageError::Corruption => "database is corrupted"@,
                StorageError::Internal => "internal storage error"@,
            },
    {
        match self {
            StorageError::NotConnected => "storage is not connected".to_owned(),
            StorageError::Io => "database file could not be opened or read".to_owned(),
            StorageError::Migration => "schema migration failed".to_owned(),
            StorageError::Busy => "write lock timed out".to_owned(),
            StorageError::SpaceMismatch => "space id differs from the one already set".to_owned(),
            StorageError::Corruption => "database is corrupted".to_owned(),
            StorageError::Internal => "internal storage error".to_owned(),
        }
    }
}

} // verus!
