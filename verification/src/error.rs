//! Errors of the library.

use vstd::prelude::*;

verus! {

/// What can go wrong when building calendar values.
#[derive(Clone, Copy, Debug, PartialEq, Eq, Structural)]
pub enum CalendarError {
    /// A period whose end lies before its start was asked for.
    InvalidRange,
    /// A recurrence rule that the library declares but does not
    /// implement (custom interval cadences) was asked for.
    NotImplemented,
}

} // verus!
