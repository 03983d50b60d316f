//! Policy records and the payout rule applied when a flight is resolved.

use vstd::prelude::*;

verus! {

/// An authenticated identity (a customer or the administrator). The host's
/// identity service knows the real addresses; the engine only ever compares
/// principals for equality, so it keeps an opaque numeric handle.
#[derive(Clone, Copy, PartialEq, Eq, Structural, Debug)]
pub struct Principal {
    pub id: u64,
}

/// The lifecycle state of a policy. A policy starts `Unresolved`; resolving
/// its flight moves it to exactly one of the three terminal states.
#[derive(Clone, Copy, PartialEq, Eq, Structural, Debug)]
pub enum PolicyStatus {
    Unresolved,
    OnTime,
    Delayed,
    Cancelled,
}

/// The disruption outcome the resolver asserts for a whole flight.
#[derive(Clone, Copy, PartialEq, Eq, Structural, Debug)]
pub enum FlightResolution {
    OnTime,
    Cancelled,
    Delayed(u64),
}

/// One unit of coverage.
#[derive(Debug)]
pub struct Policy {
    /// Unique identifier, assigned from a strictly increasing counter.
    pub id: u64,
    /// Principal that bought the policy and receives any payout.
    pub customer: Principal,
    /// Identifier of the covered flight; many policies may share it.
    pub flight_id: String,
    /// Scheduled departure time; must be strictly in the future at creation.
    pub flight_date: u64,
    /// Amount collected at creation; strictly positive.
    pub premium_amount: i128,
    /// Maximum liability of the pool towards this policy; strictly positive.
    pub coverage_amount: i128,
    /// Lifecycle state.
    pub status: PolicyStatus,
    /// Amount actually paid at resolution; written exactly once, when the
    /// status leaves `Unresolved`, and zero before that.
    pub payout_amount: i128,
}

impl Clone for Policy {
    /// Field-for-field copy.
    fn clone(&self) -> (res: Self)
        ensures
            res == *self,
    {
        Policy {
            id: self.id,
            customer: self.customer,
            flight_id: self.flight_id.clone(),
            flight_date: self.flight_date,
            premium_amount: self.premium_amount,
            coverage_amount: self.coverage_amount,
            status: self.status,
            payout_amount: self.payout_amount,
        }
    }
}

/// The terminal status a resolution outcome assigns.
pub open spec fn status_for(resolution: FlightResolution) -> PolicyStatus {
    match resolution {
        FlightResolution::OnTime => PolicyStatus::OnTime,
        FlightResolution::Cancelled => PolicyStatus::Cancelled,
        FlightResolution::Delayed(_) => PolicyStatus::Delayed,
    }
}

/// The payout rule: a cancelled flight refunds the premium; a delay under 60
/// minutes pays nothing, one of 60 to 180 minutes pays half the coverage
/// (floor), a longer one pays the full coverage; an on-time flight pays
/// nothing.
pub open spec fn payout_for(resolution: FlightResolution, premium: int, coverage: int) -> int {
    match resolution {
        FlightResolution::OnTime => 0,
        FlightResolution::Cancelled => premium,
        FlightResolution::Delayed(minutes) => if minutes < 60 {
            0
        } else if minutes <= 180 {
            coverage / 2
        } else {
            coverage
        },
    }
}

/// The payout never exceeds the larger of premium and coverage, and is never
/// negative when both amounts are non-negative.
pub proof fn lemma_payout_for_bounds(resolution: FlightResolution, premium: int, coverage: int)
    requires
        premium >= 0,
        coverage >= 0,
    ensures
        0 <= payout_for(resolution, premium, coverage),
        payout_for(resolution, premium, coverage) <= premium || payout_for(
            resolution,
            premium,
            coverage,
        ) <= coverage,
{
}

/// The record `policy` becomes when its flight is resolved with `resolution`.
pub open spec fn settled(policy: Policy, resolution: FlightResolution) -> Policy {
    Policy {
        id: policy.id,
        customer: policy.customer,
        flight_id: policy.flight_id,
        flight_date: policy.flight_date,
        premium_amount: policy.premium_amount,
        coverage_amount: policy.coverage_amount,
        status: status_for(resolution),
        payout_amount: payout_for(
            resolution,
            policy.premium_amount as int,
            policy.coverage_amount as int,
        ) as i128,
    }
}

/// Computes the payout owed for one policy under `resolution`, exactly per
/// the payout table: delay under 60 minutes pays 0, a delay of 60 to 180
/// minutes pays half the coverage (floor), a longer delay pays the full
/// coverage, cancellation refunds the premium, on time pays 0.
pub fn compute_payout(resolution: FlightResolution, premium: i128, coverage: i128) -> (payout:
    i128)
    requires
        premium >= 0,
        coverage >= 0,
    ensures
        payout == payout_for(resolution, premium as int, coverage as int),
        resolution is OnTime ==> payout == 0,
        resolution is Cancelled ==> payout == premium,
        forall|minutes: u64|
            resolution == FlightResolution::Delayed(minutes) ==> payout == (if minutes < 60 {
                0int
            } else if minutes <= 180 {
                coverage as int / 2
            } else {
                coverage as int
            }),
{
    match resolution {
        FlightResolution::OnTime => 0,
        FlightResolution::Cancelled => premium,
        FlightResolution::Delayed(minutes) => if minutes < 60 {
            0
        } else if minutes <= 180 {
            coverage / 2
        } else {
            coverage
        },
    }
}

/// The terminal status for `resolution`, as an executable step.
pub fn apply_status(resolution: FlightResolution) -> (status: PolicyStatus)
    ensures
        status == status_for(resolution),
        status != PolicyStatus::Unresolved,
{
    match resolution {
        FlightResolution::OnTime => PolicyStatus::OnTime,
        FlightResolution::Cancelled => PolicyStatus::Cancelled,
        FlightResolution::Delayed(_) => PolicyStatus::Delayed,
    }
}

} // verus!
