//! The error taxonomy of the engine.
use vstd::prelude::*;
use crate::chars::str_chars;
use crate::chars::chars_to_string;

verus! {

/// One error kind per failure class of the engine.
#[derive(Debug)]
pub enum OxenError {
    /// Underlying filesystem or store failure.
    IoError(String),
    /// An invariant of the repository is violated on disk.
    Corruption(String),
    /// A commit id, branch, entry or path lookup missed.
    NotFound(String),
    /// Branch creation collided with an existing name.
    AlreadyExists(String),
    /// Malformed identifier or input.
    InvalidInput(String),
    /// An exclusive writer is already held.
    ResourceBusy(String),
    /// File/directory type mismatch between HEAD and the checkout target.
    CheckoutConflict(String),
    /// No author configured for a commit.
    AuthMissing(String),
}

impl OxenError {
    /// A generic error from a plain message.
    pub fn basic_str(msg: &str) -> (r: OxenError)
        ensures
            r matches OxenError::IoError(m) && m@ == msg@,
    {
        let cs = str_chars(msg);
        OxenError::IoError(chars_to_string(&cs))
    }

    /// The human-readable message carried by this error.
    pub fn message(&self) -> (r: String)
        ensures
            match self {
                OxenError::IoError(m) => r@ == m@,
                OxenError::Corruption(m) => r@ == m@,
                OxenError::NotFound(m) => r@ == m@,
                OxenError::AlreadyExists(m) => r@ == m@,
                OxenError::InvalidInput(m) => r@ == m@,
                OxenError::ResourceBusy(m) => r@ == m@,
                OxenError::CheckoutConflict(m) => r@ == m@,
                OxenError::AuthMissing(m) => r@ == m@,
            },
    {
        match self {
            OxenError::IoError(m) => m.clone(),
            OxenError::Corruption(m) => m.clone(),
            OxenError::NotFound(m) => m.clone(),
            OxenError::AlreadyExists(m) => m.clone(),
            OxenError::InvalidInput(m) => m.clone(),
            OxenError::ResourceBusy(m) => m.clone(),
            OxenError::CheckoutConflict(m) => m.clone(),
            OxenError::AuthMissing(m) => m.clone(),
        }
    }
}

} // verus!
