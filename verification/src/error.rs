//! The errors that a store operation can surface.

use vstd::prelude::*;

verus! {

/// What went wrong in a store operation, by kind, with the backend's own
/// diagnostic text.
#[derive(Debug)]
pub enum StoreError {
    /// The backend could not be reached, refused the credentials or timed out.
    Connectivity(String),
    /// A stored payload could not be decoded, or a record could not be encoded.
    Serialization(String),
    /// The configuration lacks a field that the selected backend requires.
    Configuration(String),
}

impl StoreError {
    /// The diagnostic text carried by the error.
    pub open spec fn detail(self) -> Seq<char> {
        match self {
            StoreError::Connectivity(text) => text@,
            StoreError::Serialization(text) => text@,
            StoreError::Configuration(text) => text@,
        }
    }

    /// Whether trying the operation again can succeed: only a connectivity
    /// failure is transient, the other kinds are fatal.
    pub fn is_retryable(&self) -> (retry: bool)
        ensures
            retry == (*self is Connectivity),
    {
        match self {
            StoreError::Connectivity(_) => true,
            StoreError::Serialization(_) => false,
            StoreError::Configuration(_) => false,
        }
    }

    /// The diagnostic text carried by the error.
    pub fn message(&self) -> (text: &String)
        ensures
            text@ == self.detail(),
    {
        match self {
            StoreError::Connectivity(text) => text,
            StoreError::Serialization(text) => text,
            StoreError::Configuration(text) => text,
        }
    }
}

} // verus!
