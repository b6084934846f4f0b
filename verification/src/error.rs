use vstd::prelude::*;

verus! {

/// The ways in which a selection can be unacceptable for a toggle.
#[derive(Debug, Clone, Copy, PartialEq, Eq, Structural)]
pub enum NtoggleError {
    /// The toggle has fewer segments than the minimum.
    TooFewStates { min: usize, actual: usize },
    /// A selected index does not name a segment.
    SelectionOutOfBounds { index: usize, len: usize },
    /// An index occurs more than once in a multiple selection.
    DuplicateSelection { index: usize },
    /// A multiple selection is limited to zero segments.
    MaxSelectedZero,
    /// A multiple selection holds more segments than its limit.
    TooManySelected { max: usize, actual: usize },
}

} // verus!
