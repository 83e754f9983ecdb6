//! Error taxonomy of the cache core.
//!
//! Load and decode failures are recovered at the cache boundary (stored as a
//! terminal `Failed` state); only a missing playback backend aborts the
//! requesting operation.

use vstd::prelude::*;

verus! {

/// A storage backend fault: the path does not exist, access was refused, or
/// the backend itself failed.
#[derive(Clone, Copy, PartialEq, Eq, Structural, Debug)]
pub enum IoError {
    NotFound,
    PermissionDenied,
    Backend,
}

/// Raw bytes do not decode into the expected resource shape.
#[derive(Clone, Copy, PartialEq, Eq, Structural, Debug)]
pub enum FormatError {
    /// A document payload is shorter than its fixed header.
    Truncated,
    /// An asset payload is empty.
    Empty,
}

/// Why a cache entry ended in the terminal `Failed` state.
#[derive(Clone, Copy, PartialEq, Eq, Structural, Debug)]
pub enum LoadError {
    Io(IoError),
    Format(FormatError),
}

/// A misuse of the cache's access discipline, reported to the caller.
#[derive(Clone, Copy, PartialEq, Eq, Structural, Debug)]
pub enum CacheError {
    /// The entry is not in the `Ready` state.
    NotReady,
    /// The entry's value is already under exclusive mutation.
    BorrowConflict,
    /// The requested edit does not apply to this kind of resource.
    WrongKind,
}

/// Why a playback request was refused.
#[derive(Clone, Copy, PartialEq, Eq, Structural, Debug)]
pub enum AudioError {
    /// The byte stream does not decode into a playable stream.
    Decode,
    /// The output device is unavailable or was never acquired.
    BackendInit,
}

} // verus!
