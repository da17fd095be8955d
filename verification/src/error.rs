//! The failures that the library reports.

use vstd::prelude::*;

verus! {

/// Why an operation of this library was refused.
#[derive(Clone, Copy, Debug, PartialEq, Eq, Structural)]
pub enum CollectorError {
    /// The bits would not fit into the cell's bit budget.
    CapacityExceeded,
    /// The number does not fit into the width it was to be written in.
    ValueTooWide,
    /// The cell already holds its four references.
    TooManyReferences,
    /// The referenced cell is so deep that its parent could not be addressed.
    DepthExceeded,
    /// Fewer bits or references were left than were asked for.
    UnexpectedEnd,
    /// More transfers than one wallet message carries.
    TooManyGifts,
    /// The key pair was rejected by the signature scheme.
    SigningFailed,
    /// The system clock reads a time before the Unix epoch.
    ClockBeforeEpoch,
}

} // verus!
