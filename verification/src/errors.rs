//! The library's error taxonomy. Every failure a command can report is one
//! of these variants; the message carries the human-readable description.

use vstd::prelude::*;

verus! {

/// What went wrong during an operation on the collections.
#[derive(Debug, Clone)]
pub enum VaultError {
    /// A referenced identity is absent from its collection.
    NotFound { message: String },
    /// An input failed validation (bad field name, bad enum value).
    Validation { message: String },
    /// A file could not be read or written.
    Io { message: String },
    /// Stored or edited content could not be parsed.
    Parse { message: String },
    /// An external process (the editor) failed.
    ExternalProcess { message: String },
}

impl VaultError {
    /// The human-readable description.
    pub fn message(&self) -> (r: &String)
        ensures
            r == self.spec_message(),
    {
        match self {
            VaultError::NotFound { message } => message,
            VaultError::Validation { message } => message,
            VaultError::Io { message } => message,
            VaultError::Parse { message } => message,
            VaultError::ExternalProcess { message } => message,
        }
    }

    pub open spec fn spec_message(&self) -> &String {
        match self {
            VaultError::NotFound { message } => message,
            VaultError::Validation { message } => message,
            VaultError::Io { message } => message,
            VaultError::Parse { message } => message,
            VaultError::ExternalProcess { message } => message,
        }
    }
}

} // verus!
