//! Error types of the vault core.

use vstd::prelude::*;

verus! {

/// An error of a note-store operation.
#[derive(Clone, Copy, Debug, PartialEq, Eq, Structural)]
pub enum StoreError {
    /// The requested note has no file in the vault.
    NotFound,
    /// The post-write check found the file missing or empty.
    WriteVerification,
    /// An index add, delete or commit failed.
    Index,
    /// A filesystem operation failed.
    Io,
}

/// An error of vault creation.
#[derive(Clone, Copy, Debug, PartialEq, Eq, Structural)]
pub enum VaultError {
    /// A filesystem operation failed.
    Io,
    /// The search index could not be created.
    IndexCreation,
}

/// The description of a store error.
pub open spec fn store_error_text(e: StoreError) -> Seq<char> {
    match e {
        StoreError::NotFound => "note file does not exist"@,
        StoreError::WriteVerification => "note file was not written"@,
        StoreError::Index => "index operation failed"@,
        StoreError::Io => "filesystem operation failed"@,
    }
}

/// The description of a vault error.
pub open spec fn vault_error_text(e: VaultError) -> Seq<char> {
    match e {
        VaultError::Io => "filesystem operation failed"@,
        VaultError::IndexCreation => "index could not be created"@,
    }
}

impl StoreError {
    /// Renders the error as a human-readable message.
    pub fn message(&self) -> (r: &'static str)
        ensures
            r@ == store_error_text(*self),
    {
        match self {
            StoreError::NotFound => "note file does not exist",
            StoreError::WriteVerification => "note file was not written",
            StoreError::Index => "index operation failed",
            StoreError::Io => "filesystem operation failed",
        }
    }
}

impl VaultError {
    /// Renders the error as a human-readable message.
    pub fn message(&self) -> (r: &'static str)
        ensures
            r@ == vault_error_text(*self),
    {
        match self {
            VaultError::Io => "filesystem operation failed",
            VaultError::IndexCreation => "index could not be created",
        }
    }
}

} // verus!
