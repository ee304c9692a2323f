//! The failures that editing operations report.

use vstd::prelude::*;

verus! {

/// Why an operation left the document untouched.
#[derive(Clone, Copy, Debug, PartialEq, Eq, Structural, Hash)]
pub enum EditError {
    /// A layer or palette index beyond the end.
    IndexOutOfRange,
    /// The current-layer pointer names no layer.
    LayerOutOfRange,
    /// The layer refuses the mutation: it is locked, or its position is.
    LayerLocked,
    /// A position outside the addressable range.
    InvalidPosition,
    NothingToUndo,
    NothingToRedo,
    /// A fill with no channel to match on.
    EmptyMatcher,
}

} // verus!
