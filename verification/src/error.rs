//! The error taxonomy of a read: each variant names one distinct failure
//! class, and no failure is ever silently replaced by a default element.

use vstd::prelude::*;

verus! {

/// Why a read could not produce an element.
#[derive(Clone, Copy, Debug, PartialEq, Eq, Structural)]
pub enum Error {
    /// The byte source has no data for the referenced buffer. Recoverable by
    /// the caller; distinct from a bounds or corruption error.
    Unavailable,
    /// A computed byte range exceeds the supplied slice: the buffer is
    /// truncated or undersized. Only the specific read that needed those
    /// bytes fails.
    OutOfBounds,
    /// The sparse descriptor is corrupt: its element count exceeds the
    /// accessor's, or its decoded indices are not strictly increasing, or an
    /// index is not below the accessor's element count.
    MalformedSparse,
    /// The caller requested a concrete shape, encoding or normalization that
    /// does not match the accessor's declaration.
    Mismatch,
}

} // verus!
