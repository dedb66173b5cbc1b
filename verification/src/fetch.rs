//! Asking the host for files, and why it could not hand one over.
//!
//! A file is asked of the host when it is first needed, and again each time
//! it is needed as long as the host has failed to give it.
//!
//! The host reports a failure by a number. The numbers are part of the
//! agreement with the host: 0 for a limit of the implementation, 10 to 12
//! for the file system, 20 to 22 for packages. Any other number is an
//! unexpected failure.

use vstd::prelude::*;

verus! {

/// Why a file could not be had.
#[derive(Clone, Copy, Debug, PartialEq, Eq, Structural)]
pub enum FetchFailure {
    /// The implementation cannot do what was asked.
    Constraints,
    AccessDenied,
    IsDirectory,
    NotFound,
    /// The archive of the package is malformed.
    MalformedArchive,
    /// The package could not be downloaded.
    NetworkFailed,
    /// The package does not exist.
    PackageNotFound,
    /// The host gave a number that stands for nothing.
    Unexpected,
}

/// The failure that the number `code` stands for.
pub open spec fn failure_of(code: i64) -> FetchFailure {
    if code == 0 {
        FetchFailure::Constraints
    } else if code == 10 {
        FetchFailure::AccessDenied
    } else if code == 11 {
        FetchFailure::IsDirectory
    } else if code == 12 {
        FetchFailure::NotFound
    } else if code == 20 {
        FetchFailure::MalformedArchive
    } else if code == 21 {
        FetchFailure::NetworkFailed
    } else if code == 22 {
        FetchFailure::PackageNotFound
    } else {
        FetchFailure::Unexpected
    }
}

/// The message that goes with a failure, for those that have one.
pub open spec fn failure_message(failure: FetchFailure) -> Option<Seq<char>> {
    match failure {
        FetchFailure::Constraints => Some("implementation constraints"@),
        FetchFailure::MalformedArchive => Some("invalid package format"@),
        FetchFailure::NetworkFailed => Some("network connection error"@),
        FetchFailure::Unexpected => Some("unexpected error"@),
        _ => None,
    }
}

/// The text that an optional string holds.
pub open spec fn text_of(s: Option<String>) -> Option<Seq<char>> {
    match s {
        Some(s) => Some(s@),
        None => None,
    }
}

impl FetchFailure {
    /// The failure that the number `code` stands for.
    pub fn from_code(code: i64) -> (failure: FetchFailure)
        ensures
            failure == failure_of(code),
    {
        match code {
            0 => FetchFailure::Constraints,
            10 => FetchFailure::AccessDenied,
            11 => FetchFailure::IsDirectory,
            12 => FetchFailure::NotFound,
            20 => FetchFailure::MalformedArchive,
            21 => FetchFailure::NetworkFailed,
            22 => FetchFailure::PackageNotFound,
            _ => FetchFailure::Unexpected,
        }
    }

    /// The message that goes with the failure, if it has one.
    pub fn message(self) -> (message: Option<String>)
        ensures
            text_of(message) == failure_message(self),
    {
        match self {
            FetchFailure::Constraints => Some("implementation constraints".to_owned()),
            FetchFailure::MalformedArchive => Some("invalid package format".to_owned()),
            FetchFailure::NetworkFailed => Some("network connection error".to_owned()),
            FetchFailure::Unexpected => Some("unexpected error".to_owned()),
            _ => None,
        }
    }
}

/// Whether a file must be asked of the host: `held` tells whether a slot
/// holds the file and, if so, whether it holds its bytes and not a failure.
pub fn must_fetch(held: Option<bool>) -> (ask: bool)
    ensures
        ask == (held != Some(true)),
{
    match held {
        Some(bytes) => !bytes,
        None => true,
    }
}

} // verus!
