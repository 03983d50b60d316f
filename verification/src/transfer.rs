//! Instructions for the host's asset-transfer service.
//!
//! The engine never moves value itself: each balance-changing operation
//! returns the transfers of the backing asset that the host must perform
//! against the pool's custodial account, in order, as part of the same
//! atomic call.

use vstd::prelude::*;
use crate::policy::Principal;

verus! {

/// Identifier of the backing asset the pool is held in, configured exactly
/// once at initialization and immutable thereafter. The host resolves it to
/// the real token; the engine only stores it.
#[derive(Clone, Copy, PartialEq, Eq, Structural, Debug)]
pub struct AssetId {
    pub id: u64,
}

/// One movement of the backing asset, seen from the pool's custodial
/// account.
#[derive(Clone, Copy, PartialEq, Eq, Structural, Debug)]
pub enum Transfer {
    /// Collect `amount` from `from` into the pool's account (a premium or a
    /// deposit).
    ToPool { from: Principal, amount: i128 },
    /// Pay `amount` from the pool's account to `to` (a payout or a
    /// withdrawal).
    FromPool { to: Principal, amount: i128 },
}

} // verus!
