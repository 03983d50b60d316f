//! The mathematical model of a policy ledger: what a batch resolution
//! settles, what it pays, and what the pool owes the unresolved policies.
//!
//! Every function here takes the ledger as a plain sequence of policy
//! records, so the contracts of the state operations and the laws about them
//! can be stated over one vocabulary.

use vstd::prelude::*;
use crate::policy::{FlightResolution, Policy, PolicyStatus, payout_for, settled};
use crate::transfer::Transfer;

verus! {

/// Identifiers of the policies that are still unresolved, in creation order.
pub open spec fn unresolved_ids(ps: Seq<Policy>) -> Seq<u64>
    decreases ps.len(),
{
    if ps.len() == 0 {
        Seq::empty()
    } else if ps.last().status == PolicyStatus::Unresolved {
        unresolved_ids(ps.drop_last()).push(ps.last().id)
    } else {
        unresolved_ids(ps.drop_last())
    }
}

/// The exposure of the pool: the sum of the coverage amounts of all
/// unresolved policies.
pub open spec fn exposure(ps: Seq<Policy>) -> int
    decreases ps.len(),
{
    if ps.len() == 0 {
        0
    } else {
        exposure(ps.drop_last()) + if ps.last().status == PolicyStatus::Unresolved {
            ps.last().coverage_amount as int
        } else {
            0
        }
    }
}

/// The coverage of the policy with identifier `id`, when identifiers are
/// dense (policy `id` sits at position `id - 1`).
pub open spec fn coverage_of(ps: Seq<Policy>, id: u64) -> int {
    if 1 <= id <= ps.len() {
        ps[id - 1].coverage_amount as int
    } else {
        0
    }
}

/// The sum of the coverage of the policies named by `ids`.
pub open spec fn sum_coverage(ps: Seq<Policy>, ids: Seq<u64>) -> int
    decreases ids.len(),
{
    if ids.len() == 0 {
        0
    } else {
        sum_coverage(ps, ids.drop_last()) + coverage_of(ps, ids.last())
    }
}

/// Whether resolving flight `fid` settles `p`: only unresolved policies of
/// that flight are touched; every other record is skipped unchanged.
pub open spec fn affected(p: Policy, fid: Seq<char>) -> bool {
    p.status == PolicyStatus::Unresolved && p.flight_id@ == fid
}

/// The payout owed to `p` under `resolution`.
pub open spec fn policy_payout(p: Policy, resolution: FlightResolution) -> int {
    payout_for(resolution, p.premium_amount as int, p.coverage_amount as int)
}

/// The ledger after flight `fid` is resolved with `resolution`.
pub open spec fn settled_by_flight(
    ps: Seq<Policy>,
    fid: Seq<char>,
    resolution: FlightResolution,
) -> Seq<Policy> {
    Seq::new(
        ps.len(),
        |i: int|
            if affected(ps[i], fid) {
                settled(ps[i], resolution)
            } else {
                ps[i]
            },
    )
}

/// The total amount resolving flight `fid` pays out.
pub open spec fn flight_payout_total(
    ps: Seq<Policy>,
    fid: Seq<char>,
    resolution: FlightResolution,
) -> int
    decreases ps.len(),
{
    if ps.len() == 0 {
        0
    } else {
        flight_payout_total(ps.drop_last(), fid, resolution) + if affected(ps.last(), fid) {
            policy_payout(ps.last(), resolution)
        } else {
            0
        }
    }
}

/// The coverage released by resolving flight `fid`: the sum of the coverage
/// of the policies it settles.
pub open spec fn settled_coverage(ps: Seq<Policy>, fid: Seq<char>) -> int
    decreases ps.len(),
{
    if ps.len() == 0 {
        0
    } else {
        settled_coverage(ps.drop_last(), fid) + if affected(ps.last(), fid) {
            ps.last().coverage_amount as int
        } else {
            0
        }
    }
}

/// The payout transfers resolving flight `fid` instructs, in creation order
/// of the settled policies; policies owed nothing get no transfer.
pub open spec fn flight_transfers(
    ps: Seq<Policy>,
    fid: Seq<char>,
    resolution: FlightResolution,
) -> Seq<Transfer>
    decreases ps.len(),
{
    if ps.len() == 0 {
        Seq::empty()
    } else {
        let rest = flight_transfers(ps.drop_last(), fid, resolution);
        if affected(ps.last(), fid) && policy_payout(ps.last(), resolution) > 0 {
            rest.push(
                Transfer::FromPool {
                    to: ps.last().customer,
                    amount: policy_payout(ps.last(), resolution) as i128,
                },
            )
        } else {
            rest
        }
    }
}

/// One step of `unresolved_ids` on a prefix.
pub proof fn lemma_unresolved_ids_take_step(ps: Seq<Policy>, k: int)
    requires
        0 <= k < ps.len(),
    ensures
        unresolved_ids(ps.take(k + 1)) == if ps[k].status == PolicyStatus::Unresolved {
            unresolved_ids(ps.take(k)).push(ps[k].id)
        } else {
            unresolved_ids(ps.take(k))
        },
{
    assert(ps.take(k + 1).drop_last() =~= ps.take(k));
    assert(ps.take(k + 1).last() == ps[k]);
}

/// One step of `sum_coverage` on a prefix of the identifier list.
pub proof fn lemma_sum_coverage_take_step(ps: Seq<Policy>, ids: Seq<u64>, k: int)
    requires
        0 <= k < ids.len(),
    ensures
        sum_coverage(ps, ids.take(k + 1)) == sum_coverage(ps, ids.take(k)) + coverage_of(
            ps,
            ids[k],
        ),
{
    assert(ids.take(k + 1).drop_last() =~= ids.take(k));
    assert(ids.take(k + 1).last() == ids[k]);
}

/// One step of `flight_payout_total` on a prefix.
pub proof fn lemma_flight_payout_total_take_step(
    ps: Seq<Policy>,
    fid: Seq<char>,
    resolution: FlightResolution,
    k: int,
)
    requires
        0 <= k < ps.len(),
    ensures
        flight_payout_total(ps.take(k + 1), fid, resolution) == flight_payout_total(
            ps.take(k),
            fid,
            resolution,
        ) + if affected(ps[k], fid) {
            policy_payout(ps[k], resolution)
        } else {
            0
        },
{
    assert(ps.take(k + 1).drop_last() =~= ps.take(k));
    assert(ps.take(k + 1).last() == ps[k]);
}

/// One step of `flight_transfers` on a prefix.
pub proof fn lemma_flight_transfers_take_step(
    ps: Seq<Policy>,
    fid: Seq<char>,
    resolution: FlightResolution,
    k: int,
)
    requires
        0 <= k < ps.len(),
    ensures
        flight_transfers(ps.take(k + 1), fid, resolution) == if affected(ps[k], fid)
            && policy_payout(ps[k], resolution) > 0 {
            flight_transfers(ps.take(k), fid, resolution).push(
                Transfer::FromPool {
                    to: ps[k].customer,
                    amount: policy_payout(ps[k], resolution) as i128,
                },
            )
        } else {
            flight_transfers(ps.take(k), fid, resolution)
        },
{
    assert(ps.take(k + 1).drop_last() =~= ps.take(k));
    assert(ps.take(k + 1).last() == ps[k]);
}

/// Every identifier listed by `unresolved_ids` names an unresolved policy,
/// when identifiers are dense.
pub proof fn lemma_unresolved_ids_elems(ps: Seq<Policy>)
    requires
        forall|i: int| 0 <= i < ps.len() ==> (#[trigger] ps[i]).id == i + 1,
    ensures
        forall|k: int|
            0 <= k < unresolved_ids(ps).len() ==> {
                let id = #[trigger] unresolved_ids(ps)[k];
                &&& 1 <= id <= ps.len()
                &&& ps[id - 1].status == PolicyStatus::Unresolved
            },
    decreases ps.len(),
{
    if ps.len() > 0 {
        lemma_unresolved_ids_elems(ps.drop_last());
        assert forall|k: int| 0 <= k < unresolved_ids(ps.drop_last()).len() implies {
            let id = #[trigger] unresolved_ids(ps.drop_last())[k];
            &&& 1 <= id <= ps.len()
            &&& ps[id - 1].status == PolicyStatus::Unresolved
        } by {
            let id = unresolved_ids(ps.drop_last())[k];
            assert(ps.drop_last()[id - 1] == ps[id - 1]);
        }
    }
}

/// Appending a record does not change a sum taken over identifiers that all
/// point into the old ledger.
pub proof fn lemma_sum_coverage_push_policy(ps: Seq<Policy>, p: Policy, ids: Seq<u64>)
    requires
        forall|k: int| 0 <= k < ids.len() ==> 1 <= #[trigger] ids[k] <= ps.len(),
    ensures
        sum_coverage(ps.push(p), ids) == sum_coverage(ps, ids),
    decreases ids.len(),
{
    if ids.len() > 0 {
        lemma_sum_coverage_push_policy(ps, p, ids.drop_last());
        assert(ps.push(p)[ids.last() - 1] == ps[ids.last() - 1]);
    }
}

/// The coverage summed over the active identifiers equals the exposure, when
/// identifiers are dense.
pub proof fn lemma_active_coverage_is_exposure(ps: Seq<Policy>)
    requires
        forall|i: int| 0 <= i < ps.len() ==> (#[trigger] ps[i]).id == i + 1,
    ensures
        sum_coverage(ps, unresolved_ids(ps)) == exposure(ps),
    decreases ps.len(),
{
    if ps.len() > 0 {
        let prefix = ps.drop_last();
        lemma_active_coverage_is_exposure(prefix);
        lemma_unresolved_ids_elems(prefix);
        assert(prefix.push(ps.last()) =~= ps);
        lemma_sum_coverage_push_policy(prefix, ps.last(), unresolved_ids(prefix));
        if ps.last().status == PolicyStatus::Unresolved {
            let ids = unresolved_ids(prefix).push(ps.last().id);
            assert(unresolved_ids(ps) == ids);
            assert(ids.drop_last() =~= unresolved_ids(prefix));
            assert(sum_coverage(ps, ids) == sum_coverage(ps, unresolved_ids(prefix))
                + coverage_of(ps, ps.last().id));
            assert(ps.last() == ps[ps.len() - 1]);
            assert(ps.last().id == ps.len());
            assert(coverage_of(ps, ps.last().id) == ps.last().coverage_amount as int);
        } else {
            assert(unresolved_ids(ps) == unresolved_ids(prefix));
        }
    }
}

/// Resolving a flight lowers the exposure by exactly the coverage of the
/// policies it settles.
pub proof fn lemma_exposure_after_settlement(
    ps: Seq<Policy>,
    fid: Seq<char>,
    resolution: FlightResolution,
)
    ensures
        exposure(settled_by_flight(ps, fid, resolution)) == exposure(ps) - settled_coverage(
            ps,
            fid,
        ),
    decreases ps.len(),
{
    if ps.len() > 0 {
        lemma_exposure_after_settlement(ps.drop_last(), fid, resolution);
        assert(settled_by_flight(ps, fid, resolution).drop_last() =~= settled_by_flight(
            ps.drop_last(),
            fid,
            resolution,
        ));
        assert(settled_by_flight(ps, fid, resolution).last() == if affected(ps.last(), fid) {
            settled(ps.last(), resolution)
        } else {
            ps.last()
        });
    }
}

/// The total payout of a resolution never exceeds the coverage it releases,
/// provided no settled policy pays more than its own coverage (for a
/// cancellation this means its premium does not exceed its coverage).
pub proof fn lemma_flight_payout_le_settled_coverage(
    ps: Seq<Policy>,
    fid: Seq<char>,
    resolution: FlightResolution,
)
    requires
        forall|i: int|
            0 <= i < ps.len() && affected(#[trigger] ps[i], fid) ==> policy_payout(
                ps[i],
                resolution,
            ) <= ps[i].coverage_amount as int,
    ensures
        flight_payout_total(ps, fid, resolution) <= settled_coverage(ps, fid),
    decreases ps.len(),
{
    if ps.len() > 0 {
        lemma_flight_payout_le_settled_coverage(ps.drop_last(), fid, resolution);
    }
}

/// A prefix of the ledger never owes more than the whole ledger, when all
/// recorded amounts are positive.
pub proof fn lemma_flight_payout_total_take_le(
    ps: Seq<Policy>,
    fid: Seq<char>,
    resolution: FlightResolution,
    k: int,
)
    requires
        forall|i: int|
            0 <= i < ps.len() ==> (#[trigger] ps[i]).premium_amount > 0 && ps[i].coverage_amount
                > 0,
        0 <= k <= ps.len(),
    ensures
        flight_payout_total(ps.take(k), fid, resolution) <= flight_payout_total(
            ps,
            fid,
            resolution,
        ),
    decreases ps.len(),
{
    if k == ps.len() {
        assert(ps.take(k) =~= ps);
    } else {
        let prefix = ps.drop_last();
        assert(ps.take(k) =~= prefix.take(k));
        lemma_flight_payout_total_take_le(prefix, fid, resolution, k);
        if affected(ps.last(), fid) {
            crate::policy::lemma_payout_for_bounds(
                resolution,
                ps.last().premium_amount as int,
                ps.last().coverage_amount as int,
            );
        }
    }
}

/// A sum of coverage amounts is never negative, when all recorded coverage
/// amounts are positive.
pub proof fn lemma_sum_coverage_nonneg(ps: Seq<Policy>, ids: Seq<u64>)
    requires
        forall|i: int| 0 <= i < ps.len() ==> (#[trigger] ps[i]).coverage_amount > 0,
    ensures
        sum_coverage(ps, ids) >= 0,
    decreases ids.len(),
{
    if ids.len() > 0 {
        lemma_sum_coverage_nonneg(ps, ids.drop_last());
    }
}

/// A prefix of the exposure sum never exceeds the whole sum, when all
/// recorded coverage amounts are positive.
pub proof fn lemma_sum_coverage_take_le(ps: Seq<Policy>, ids: Seq<u64>, k: int)
    requires
        forall|i: int| 0 <= i < ps.len() ==> (#[trigger] ps[i]).coverage_amount > 0,
        0 <= k <= ids.len(),
    ensures
        sum_coverage(ps, ids.take(k)) <= sum_coverage(ps, ids),
    decreases ids.len(),
{
    if k == ids.len() {
        assert(ids.take(k) =~= ids);
    } else {
        let prefix = ids.drop_last();
        assert(ids.take(k) =~= prefix.take(k));
        lemma_sum_coverage_take_le(ps, prefix, k);
    }
}

} // verus!
