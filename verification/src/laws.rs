//! The system-wide laws, stated over the model of `crate::model` that the
//! operation contracts in `crate::contract` use.
//!
//! The solvency invariant — the pool never falls below the summed coverage
//! of the unresolved policies — is not preserved unconditionally: policy
//! creation only checks the gross pool balance against the new coverage, and
//! a cancellation refunds the premium, which no rule bounds by the coverage.
//! The lemmas here state the exact conditions under which each
//! balance-changing operation preserves it; a successful withdrawal
//! establishes it outright (see `withdraw_from_pool`'s contract), and a
//! deposit preserves it because it only raises the pool (see
//! `deposit_to_pool`'s contract).

use vstd::prelude::*;
use crate::model::{
    affected, exposure, flight_payout_total, flight_transfers, lemma_exposure_after_settlement,
    lemma_flight_payout_le_settled_coverage, policy_payout, settled_by_flight,
};
use crate::policy::{FlightResolution, Policy, PolicyStatus};
use crate::transfer::Transfer;

verus! {

/// Creating a policy raises the exposure by exactly its coverage.
pub proof fn lemma_exposure_after_creation(ps: Seq<Policy>, p: Policy)
    requires
        p.status == PolicyStatus::Unresolved,
    ensures
        exposure(ps.push(p)) == exposure(ps) + p.coverage_amount,
{
    assert(ps.push(p).drop_last() =~= ps);
}

/// Solvency across policy creation: a solvent pool stays solvent exactly
/// when the collected premium, added to the pool's slack, still covers the
/// new exposure. (The creation-time check `pool >= coverage` alone does not
/// guarantee this: it compares the gross balance, not the slack.)
pub proof fn lemma_solvency_preserved_by_creation(ps: Seq<Policy>, pool: int, p: Policy)
    requires
        p.status == PolicyStatus::Unresolved,
        pool >= exposure(ps),
        pool + p.premium_amount >= exposure(ps) + p.coverage_amount,
    ensures
        pool + p.premium_amount >= exposure(ps.push(p)),
{
    lemma_exposure_after_creation(ps, p);
}

/// Solvency across flight resolution: when every policy the resolution
/// settles pays at most its own coverage (true of every delay and of an
/// on-time outcome; true of a cancellation exactly when the premium does not
/// exceed the coverage), a solvent pool stays solvent after the batch is
/// paid.
pub proof fn lemma_solvency_preserved_by_resolution(
    ps: Seq<Policy>,
    pool: int,
    fid: Seq<char>,
    resolution: FlightResolution,
)
    requires
        pool >= exposure(ps),
        forall|i: int|
            0 <= i < ps.len() && affected(#[trigger] ps[i], fid) ==> policy_payout(
                ps[i],
                resolution,
            ) <= ps[i].coverage_amount as int,
    ensures
        pool - flight_payout_total(ps, fid, resolution) >= exposure(
            settled_by_flight(ps, fid, resolution),
        ),
{
    lemma_exposure_after_settlement(ps, fid, resolution);
    lemma_flight_payout_le_settled_coverage(ps, fid, resolution);
}

/// Idempotence of the skip rule: resolving a flight whose policies are all
/// already resolved settles nothing, pays nothing and instructs no transfer
/// — per policy, a record that already left `Unresolved` is never touched
/// again.
pub proof fn lemma_resolution_skips_resolved(
    ps: Seq<Policy>,
    fid: Seq<char>,
    resolution: FlightResolution,
)
    requires
        forall|i: int|
            0 <= i < ps.len() && (#[trigger] ps[i]).flight_id@ == fid ==> ps[i].status
                != PolicyStatus::Unresolved,
    ensures
        settled_by_flight(ps, fid, resolution) == ps,
        flight_payout_total(ps, fid, resolution) == 0,
        flight_transfers(ps, fid, resolution) == Seq::<Transfer>::empty(),
    decreases ps.len(),
{
    assert(settled_by_flight(ps, fid, resolution) =~= ps);
    if ps.len() > 0 {
        assert forall|i: int|
            0 <= i < ps.drop_last().len() && (#[trigger] ps.drop_last()[i]).flight_id@
                == fid implies ps.drop_last()[i].status != PolicyStatus::Unresolved by {
            assert(ps.drop_last()[i] == ps[i]);
        }
        lemma_resolution_skips_resolved(ps.drop_last(), fid, resolution);
        assert(!affected(ps.last(), fid));
    }
}

} // verus!
