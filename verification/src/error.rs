//! The ways an operation of the store can fail.

use vstd::prelude::*;

verus! {

/// Why an operation did not succeed.
#[derive(Debug, Clone, Copy, PartialEq, Eq, Structural)]
pub enum StoreError {
    /// The property, or the file that should hold it, is not there.
    NotFound,
    /// The container is there but does not decode.
    CorruptData,
    /// Reading, writing, renaming or unlinking failed.
    IoFailure,
    /// A directory entry whose name is not valid text.
    NameInvalid,
}

} // verus!
