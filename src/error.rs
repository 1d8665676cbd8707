//! What the library's operations report when they do not succeed.
use vstd::prelude::*;

verus! {

#[derive(Clone, Copy, Debug, PartialEq, Eq, Structural)]
pub enum HabitError {
    /// No habit of that name, or no habit at all.
    NotFound,
    /// A habit of that name is already kept.
    AlreadyExists,
    /// An argument that the operation cannot take: an unknown command, a
    /// malformed list, a value out of range.
    InvalidArgument,
    /// The ledger was asked for a change that its counts cannot hold.
    InvariantViolation,
}

/// What habit creation reports when it went on in a lesser form.
#[derive(Clone, Copy, Debug, PartialEq, Eq, Structural)]
pub enum HabitWarning {
    /// The enabled-days text was not a hyphen-separated list of numbers, so the
    /// habit was made active on every day.
    EnabledDaysDropped,
}

} // verus!
