//! Error kinds. Every failure aborts the enclosing operation: an operation
//! that returns an error leaves the state exactly as it was.

use vstd::prelude::*;

verus! {

/// Why an operation was refused.
#[derive(Clone, Copy, PartialEq, Eq, Structural, Debug)]
pub enum Error {
    /// `initialize` was called on a state that already has an administrator.
    AlreadyInitialized,
    /// A premium, coverage, deposit or withdrawal amount was not strictly
    /// positive.
    InvalidAmount,
    /// The flight date of a new policy was not strictly in the future.
    InvalidSchedule,
    /// The pool balance at creation time was below the requested coverage.
    InsufficientLiquidity,
    /// A payout owed during flight resolution exceeded the remaining pool.
    InsufficientPoolForPayout,
    /// The withdrawal would leave the pool below the coverage owed to the
    /// policies that are still unresolved.
    InsufficientCoverage,
    /// The policy does not exist, or the state was never initialized.
    NotFound,
    /// No policies are indexed for the flight being resolved.
    NoPoliciesForFlight,
}

} // verus!
