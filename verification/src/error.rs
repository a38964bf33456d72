//! Errors of the library and of the services it works with.

use vstd::prelude::*;

verus! {

/// Errors that the operations of this library end with.
#[derive(Debug, Clone, Copy, PartialEq, Eq, Structural)]
pub enum AxError {
    BadAddress,
    BadFileDescriptor,
    InvalidInput,
    IsADirectory,
    NoMemory,
    NotADirectory,
    PermissionDenied,
    /// Any other error of an outside service, by its number.
    Other(i32),
}

/// Errors of file operations.
pub type VfsError = AxError;

/// Errors that a page table answers with.
#[derive(Debug, Clone, Copy, PartialEq, Eq, Structural)]
pub enum PagingError {
    /// Cannot allocate memory.
    NoMemory,
    /// The address is not aligned to the page size.
    NotAligned,
    /// The mapping is not present.
    NotMapped,
    /// The mapping is already present.
    AlreadyMapped,
    /// The entry is a huge page where a table was expected.
    MappedToHugePage,
}

impl PagingError {
    /// The error that an operation ends with when the page table fails.
    #[verifier::allow_in_spec]
    pub fn into_error(self) -> (r: AxError)
        returns
            (match self {
                PagingError::NoMemory => AxError::NoMemory,
                _ => AxError::InvalidInput,
            }),
    {
        match self {
            PagingError::NoMemory => AxError::NoMemory,
            _ => AxError::InvalidInput,
        }
    }
}

} // verus!
