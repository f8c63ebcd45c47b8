//! Error types of the scheduler core.

use vstd::prelude::*;

verus! {

/// An EFI-style status for operations that can fail with a data condition.
#[derive(Clone, Copy, Debug, PartialEq, Eq, Structural)]
pub enum EfiError {
    /// An argument was outside the range the operation accepts.
    InvalidParameter,
    /// The operation cannot complete yet.
    NotReady,
}

} // verus!
