//! The errors of the library.
use vstd::prelude::*;

verus! {

/// Broad classes of failure, as callers test for them.
#[derive(Clone, Copy, Debug, PartialEq, Eq, Structural)]
pub enum ErrorKind {
    InvalidInput,
    NotFound,
    Other,
}

/// Why an operation failed.
#[derive(Clone, Copy, Debug, PartialEq, Eq, Structural)]
pub enum Error {
    /// The path holds a NUL byte, which the full-path call cannot take.
    ContainsNul,
    /// The path starts with `\\` but names no server and share.
    PartialUnc,
    /// The length that the full-path call asks for does not fit its
    /// length type.
    TooLong,
    /// The path does not start with a prefix, so it cannot be a base path.
    MissingPrefix,
    /// The parent of the path cannot be known without the file system.
    UnknownParent,
    /// The path does not exist.
    DoesNotExist,
    /// An error code that the platform reported.
    Platform(i32),
}

impl Error {
    pub open spec fn spec_kind(self) -> ErrorKind {
        match self {
            Error::ContainsNul => ErrorKind::InvalidInput,
            Error::PartialUnc => ErrorKind::NotFound,
            Error::TooLong => ErrorKind::Other,
            Error::MissingPrefix => ErrorKind::InvalidInput,
            Error::UnknownParent => ErrorKind::Other,
            Error::DoesNotExist => ErrorKind::NotFound,
            Error::Platform(_) => ErrorKind::Other,
        }
    }

    /// The class of this error.
    #[verifier::when_used_as_spec(spec_kind)]
    pub fn kind(self) -> (r: ErrorKind)
        ensures
            r == self.spec_kind(),
    {
        match self {
            Error::ContainsNul => ErrorKind::InvalidInput,
            Error::PartialUnc => ErrorKind::NotFound,
            Error::TooLong => ErrorKind::Other,
            Error::MissingPrefix => ErrorKind::InvalidInput,
            Error::UnknownParent => ErrorKind::Other,
            Error::DoesNotExist => ErrorKind::NotFound,
            Error::Platform(_) => ErrorKind::Other,
        }
    }

    /// A description of this error for people.
    pub fn message(self) -> (r: &'static str)
        ensures
            r@ == match self {
                Error::ContainsNul => "strings passed to WinAPI cannot contains NULs"@,
                Error::PartialUnc => "partial UNC prefixes are invalid"@,
                Error::TooLong => "required path length is too large for WinAPI"@,
                Error::MissingPrefix => "path is missing a prefix"@,
                Error::UnknownParent => "the parent of the path cannot be determined"@,
                Error::DoesNotExist => "the path does not exist"@,
                Error::Platform(_) => "the platform reported an error"@,
            },
    {
        match self {
            Error::ContainsNul => "strings passed to WinAPI cannot contains NULs",
            Error::PartialUnc => "partial UNC prefixes are invalid",
            Error::TooLong => "required path length is too large for WinAPI",
            Error::MissingPrefix => "path is missing a prefix",
            Error::UnknownParent => "the parent of the path cannot be determined",
            Error::DoesNotExist => "the path does not exist",
            Error::Platform(_) => "the platform reported an error",
        }
    }
}

} // verus!
