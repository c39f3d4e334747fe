//! The error kinds of the repository engine.

use vstd::prelude::*;

verus! {

/// Everything that can go wrong while configuring stores, resolving
/// packages, or publishing artifacts. A missing object on `get_object` is a
/// normal absent result, not an error.
#[derive(Clone, Copy, Debug, PartialEq, Eq, Structural)]
pub enum RepoError {
    /// A `file` URL names a path that is not a directory.
    NotADirectory,
    /// The URL scheme names no supported store family.
    UnsupportedScheme,
    /// The safe default store that holds nothing and accepts nothing.
    ObjectStoreUnconfigured,
    /// A remote exchange failed.
    NetworkError,
    /// A deployment for the package and version exists with a different
    /// checksum and overwriting was not forced.
    VersionConflict,
    /// A required package resolved to no candidate artifacts.
    NoMatchingPackage,
    /// A free-form package matched an artifact that carries no version.
    MissingVersion,
    /// A git-backed index was requested, but no repos directory is
    /// configured to hold its checkout.
    ReposUnconfigured,
    /// More than one candidate artifact matched a publish request.
    AmbiguousPublishSet,
    /// No candidate artifact matched a publish request.
    EmptyPublishSet,
    /// The index references content that the object store does not hold,
    /// or stored content does not match its checksum.
    StoreInconsistency,
}

} // verus!
