//! The error kinds a restoration can surface.

use vstd::prelude::*;
use crate::hash::Hash256;

verus! {

/// Why a feed or a finalization failed.
#[derive(Debug)]
pub enum Error {
    /// Snappy decoding failed or a chunk payload is malformed.
    CorruptChunk,
    /// The block rebuilder rejected a block's seal.
    InvalidSeal,
    /// The fed block runs leave a gap and cannot be glued.
    Discontinuity,
    /// The rebuilt state root does not match the manifest.
    WrongStateRoot { expected: Hash256, got: Hash256 },
    /// A referenced contract code blob was never supplied.
    MissingCode,
    /// An underlying filesystem or database operation failed.
    Io,
}

} // verus!
