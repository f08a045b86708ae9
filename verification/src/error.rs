//! Errors of the store.

use vstd::prelude::*;

verus! {

/// Why an operation of the store was refused or failed.
#[derive(Debug, PartialEq, Eq)]
pub enum StorageError {
    /// The request itself is not acceptable; the text says why.
    Validation(String),
    /// No memory has the given id.
    NotFound(String),
    /// The project has no store.
    NotInitialized,
    /// An outside operation failed; the text is its own.
    Io(String),
}

impl StorageError {
    /// Whether the error is a validation error with the given text.
    pub open spec fn refuses(self, text: Seq<char>) -> bool {
        self matches StorageError::Validation(m) && m@ == text
    }

    /// Whether the error says that nothing has the given id.
    pub open spec fn misses(self, id: Seq<char>) -> bool {
        self matches StorageError::NotFound(m) && m@ == id
    }

    /// The error for an outside operation that failed.
    pub fn failure(operation: &str, cause: &str) -> (r: StorageError)
        ensures
            r.refuses(operation@ + " failed: "@ + cause@),
    {
        StorageError::Validation(crate::text::concat3(operation, " failed: ", cause))
    }

    /// The text that the error carries; empty where it carries none.
    pub fn message(&self) -> (r: String)
        ensures
            r@ == (match *self {
                StorageError::Validation(m) => m@,
                StorageError::NotFound(m) => m@,
                StorageError::NotInitialized => Seq::empty(),
                StorageError::Io(m) => m@,
            }),
    {
        match self {
            StorageError::Validation(m) => m.clone(),
            StorageError::NotFound(m) => m.clone(),
            StorageError::NotInitialized => String::new(),
            StorageError::Io(m) => m.clone(),
        }
    }
}

/// What `{:?}` makes of a text: the text in double quotes, with escapes.
pub uninterp spec fn debug_quoted(s: Seq<char>) -> Seq<char>;

/// `format!` with `{:?}` on a string slice.
#[verifier::external_body]
pub(crate) fn quoted(s: &str) -> (r: String)
    ensures
        r@ == debug_quoted(s@),
{
    format!("{:?}", s)
}

} // verus!
