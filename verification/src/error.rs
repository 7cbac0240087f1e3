//! The error taxonomy of resolution, loading and coordinate mapping.

use vstd::prelude::*;

verus! {

/// Why a package could not be provisioned.
#[derive(Clone, Copy, Debug, PartialEq, Eq, Structural)]
pub enum PackageError {
    /// The reference has no corresponding on-disk or fetchable location.
    NotFound,
    /// The archive could not be downloaded.
    NetworkFailure,
    /// The archive could not be unpacked.
    MalformedArchive,
}

/// Why a file identifier could not be resolved or loaded.
#[derive(Clone, Copy, Debug, PartialEq, Eq, Structural)]
pub enum FileError {
    /// The identifier has no corresponding physical location.
    NotFound,
    /// Resolving the identifier would escape the declared root.
    AccessDenied,
    /// The file exists but is declared out of policy scope.
    Excluded,
    /// The bytes are not decodable text.
    InvalidEncoding,
    /// The identifier names a package that could not be provisioned.
    Package(PackageError),
}

/// Why a byte offset or line could not be mapped to coordinates.
#[derive(Clone, Copy, Debug, PartialEq, Eq, Structural)]
pub enum MapError {
    /// The byte offset or line lies outside the text.
    OutOfRange,
    /// The byte offset falls in the middle of a character.
    InvalidBoundary,
    /// The text itself could not be resolved or read.
    Unreadable,
}

} // verus!
