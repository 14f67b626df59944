//! The ways in which a feed can fail to normalize.

use vstd::prelude::*;

verus! {

/// Why a run was given up, or what a reader of a single field found amiss.
#[derive(Clone, Copy, Debug, PartialEq, Eq, Structural)]
pub enum FeedError {
    /// A required field is missing, or a value is there and cannot be read
    /// as the number or text that its field holds.
    MalformedInput,
    /// A neutral-drop marker is neither empty, `"0"` nor `"1"`.
    UnspecifiedTriState,
    /// A number was read, and a field of the record cannot hold what
    /// follows from it.
    OutOfRange,
}

} // verus!
