//! The failures that registry operations report.

use vstd::prelude::*;
use vstd::string::*;

verus! {

/// Why a registry operation did not complete.
#[derive(Clone, Copy, Debug, PartialEq, Eq, Structural)]
pub enum Error {
    /// A lookup found no matching row.
    NotFound,
    /// A package with the requested name already exists.
    DuplicateName,
    /// The package already holds a version with the requested revision.
    DuplicateRevision,
    /// The metadata source could not resolve the repository.
    FetchFailed,
    /// The store cannot take the change: an identifier or a counter would
    /// leave its range.
    StoreUnavailable,
    /// A page number or a page size below one was requested.
    InvalidPage,
}

impl Error {
    /// The text of each failure, as a sequence of characters.
    pub open spec fn message_spec(self) -> Seq<char> {
        match self {
            Error::NotFound => "record not found"@,
            Error::DuplicateName => "package name already exists"@,
            Error::DuplicateRevision => "revision already exists for this package"@,
            Error::FetchFailed => "repository metadata could not be fetched"@,
            Error::StoreUnavailable => "store unavailable"@,
            Error::InvalidPage => "page and page size must be at least 1"@,
        }
    }

    /// A short description of the failure, fit for a log line or a response
    /// body.
    pub fn message(&self) -> (text: String)
        ensures
            text@ == self.message_spec(),
    {
        match self {
            Error::NotFound => String::from_str("record not found"),
            Error::DuplicateName => String::from_str("package name already exists"),
            Error::DuplicateRevision => String::from_str(
                "revision already exists for this package",
            ),
            Error::FetchFailed => String::from_str("repository metadata could not be fetched"),
            Error::StoreUnavailable => String::from_str("store unavailable"),
            Error::InvalidPage => String::from_str("page and page size must be at least 1"),
        }
    }
}

} // verus!
