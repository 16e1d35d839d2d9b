use vstd::prelude::*;

verus! {

/// What can go wrong in the store or during an import.
#[derive(Debug, PartialEq, Eq)]
pub enum StoreError {
    /// The store could not be opened or created.
    StoreUnavailable(String),
    /// An operation was attempted before the store was opened.
    NotInitialized,
    /// An insert would break a uniqueness rule.
    DuplicateKey(String),
    /// A tag, category or value that should exist does not.
    ReferenceNotFound(String),
    /// A copy or a directory creation failed.
    FilesystemFailure(String),
    /// Any other failure reported by the store.
    Failed(String),
    /// No configuration has been stored yet.
    NoConfigYet,
}

impl StoreError {
    /// A description of the error, for the command surface.
    pub fn message(&self) -> (r: String)
        ensures
            self matches StoreError::StoreUnavailable(m) ==> r@ == m@,
            self matches StoreError::DuplicateKey(m) ==> r@ == m@,
            self matches StoreError::ReferenceNotFound(m) ==> r@ == m@,
            self matches StoreError::FilesystemFailure(m) ==> r@ == m@,
            self matches StoreError::Failed(m) ==> r@ == m@,
    {
        match self {
            StoreError::StoreUnavailable(m) => m.clone(),
            StoreError::NotInitialized => String::from_str("the store is not open"),
            StoreError::DuplicateKey(m) => m.clone(),
            StoreError::ReferenceNotFound(m) => m.clone(),
            StoreError::FilesystemFailure(m) => m.clone(),
            StoreError::Failed(m) => m.clone(),
            StoreError::NoConfigYet => String::from_str("No config exists yet."),
        }
    }
}

} // verus!
