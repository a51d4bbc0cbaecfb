//! The reasons for which an operation is refused.

use vstd::prelude::*;

verus! {

/// Why a call was refused. A refused call leaves the state as it was.
#[derive(Clone, Copy, Debug, PartialEq, Eq, Structural)]
pub enum Error {
    /// The instance was initialized before.
    AlreadyInitialized,
    /// An amount, supply or rate is outside the range the operation accepts.
    InvalidArgument,
    /// The call carries no credential for the identity it acts for, or that
    /// identity is not the administrator.
    Unauthorized,
    /// The operation is not open in the current state.
    InvalidState,
    /// A holder has less than the amount to be moved or burned.
    InsufficientBalance,
    /// A listing has less left than the amount to be bought.
    InsufficientAvailability,
    /// The instance or listing referred to was never created.
    NotFound,
    /// The result would not fit the 128-bit amounts of the ledger.
    Overflow,
}

} // verus!
