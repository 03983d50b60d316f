//! The insurance engine: an explicit state object holding the liquidity
//! pool, the policy ledger, the active-policy index and the flight index.
//!
//! Each operation is one atomic call: it either returns `Ok` with the
//! transfer instructions the host must perform, or an error with the state
//! exactly as it was. The host is responsible for authorization (an
//! operation reserved to the administrator must only be invoked once the
//! administrator authorized it), for performing the returned transfers, and
//! for persisting the state, all within the same atomic call.

use vstd::prelude::*;
use vstd::std_specs::vec::vec_index_mut;
use crate::errors::Error;
use crate::flight_index::{
    FlightEntry, copy_ids, entries_wf, entry_wf, find_flight, has_flight, ids_for_flight, listed,
    lemma_push_lookup, lemma_remove_match_lookup, lemma_remove_other_lookup,
    lemma_update_match_lookup, lemma_update_other_lookup,
};
use crate::model::{
    affected, coverage_of, exposure, flight_payout_total, flight_transfers,
    lemma_active_coverage_is_exposure,
    lemma_exposure_after_settlement, lemma_flight_payout_le_settled_coverage,
    lemma_flight_payout_total_take_le, lemma_flight_payout_total_take_step,
    lemma_flight_transfers_take_step, lemma_sum_coverage_nonneg, lemma_sum_coverage_take_le,
    lemma_sum_coverage_take_step, lemma_unresolved_ids_elems, lemma_unresolved_ids_take_step,
    policy_payout, settled_by_flight, sum_coverage, unresolved_ids,
};
use crate::policy::{
    FlightResolution, Policy, PolicyStatus, Principal, apply_status, compute_payout,
    lemma_payout_for_bounds, settled, status_for,
};
use crate::transfer::{AssetId, Transfer};

verus! {

/// The whole state of the insurance system.
pub struct FlightInsuranceContract {
    /// The administrator, set exactly once at initialization.
    pub admin: Option<Principal>,
    /// The backing asset, set exactly once at initialization.
    pub asset: Option<AssetId>,
    /// The liquidity pool backing the payouts. It rises by collected
    /// premiums and deposits and falls by payouts and withdrawals.
    pub pool_balance: i128,
    /// How many policies were ever created; the next policy gets this
    /// counter plus one as its identifier, so identifiers are never reused.
    pub policy_counter: u64,
    /// The policy ledger; the policy with identifier `id` sits at position
    /// `id - 1`.
    pub policies: Vec<Policy>,
    /// The identifiers of the unresolved policies, in creation order.
    pub active_policies: Vec<u64>,
    /// For each flight with open policies, the identifiers created against
    /// it, in creation order.
    pub flights: Vec<FlightEntry>,
}

impl FlightInsuranceContract {
    /// Structural soundness of the state: dense identifiers, positive
    /// amounts, a payout written only at resolution, an active index that
    /// lists exactly the unresolved policies, a well-formed flight index,
    /// and a pool that cannot be negative once a policy exists. Every
    /// operation preserves it.
    pub open spec fn wf(self) -> bool {
        &&& self.policy_counter as int == self.policies@.len()
        &&& forall|i: int|
            0 <= i < self.policies@.len() ==> (#[trigger] self.policies@[i]).id == i + 1
        &&& forall|i: int|
            0 <= i < self.policies@.len() ==> (#[trigger] self.policies@[i]).premium_amount > 0
        &&& forall|i: int|
            0 <= i < self.policies@.len() ==> (#[trigger] self.policies@[i]).coverage_amount > 0
        &&& forall|i: int|
            0 <= i < self.policies@.len() ==> (#[trigger] self.policies@[i]).payout_amount >= 0
        &&& forall|i: int|
            0 <= i < self.policies@.len() && (#[trigger] self.policies@[i]).status
                == PolicyStatus::Unresolved ==> self.policies@[i].payout_amount == 0
        &&& self.active_policies@ == unresolved_ids(self.policies@)
        &&& entries_wf(self.flights@, self.policies@)
        &&& (self.policies@.len() > 0 ==> self.pool_balance >= 0)
        &&& (self.admin is Some <==> self.asset is Some)
        &&& (self.admin is None ==> self.pool_balance == 0 && self.policies@.len() == 0
            && self.flights@.len() == 0)
    }

    /// The solvency invariant: the pool covers the exposure, the summed
    /// coverage of all unresolved policies.
    pub open spec fn solvent(self) -> bool {
        self.pool_balance as int >= exposure(self.policies@)
    }

    /// A fresh, uninitialized state: no administrator, no asset, an empty
    /// ledger and an empty pool.
    pub fn new() -> (c: Self)
        ensures
            c.wf(),
            c.admin is None,
            c.asset is None,
            c.pool_balance == 0,
            c.policy_counter == 0,
            c.policies@.len() == 0,
            c.active_policies@.len() == 0,
            c.flights@.len() == 0,
            c.solvent(),
    {
        let c = FlightInsuranceContract {
            admin: None,
            asset: None,
            pool_balance: 0,
            policy_counter: 0,
            policies: Vec::new(),
            active_policies: Vec::new(),
            flights: Vec::new(),
        };
        proof {
            assert(unresolved_ids(c.policies@) =~= c.active_policies@);
        }
        c
    }

    /// Sets the administrator, the backing asset and the initial pool
    /// capital, exactly once. A second call fails with `AlreadyInitialized`
    /// and changes nothing.
    pub fn initialize(&mut self, admin: Principal, asset: AssetId, initial_pool: i128) -> (r:
        Result<(), Error>)
        requires
            old(self).wf(),
        ensures
            final(self).wf(),
            r is Ok <==> old(self).admin is None,
            match r {
                Ok(()) => {
                    &&& final(self).admin == Some(admin)
                    &&& final(self).asset == Some(asset)
                    &&& final(self).pool_balance == initial_pool
                    &&& final(self).policy_counter == 0
                    &&& final(self).policies@.len() == 0
                    &&& final(self).active_policies@.len() == 0
                    &&& final(self).flights@.len() == 0
                },
                Err(e) => {
                    &&& e == Error::AlreadyInitialized
                    &&& *final(self) == *old(self)
                },
            },
    {
        if self.admin.is_some() {
            return Err(Error::AlreadyInitialized);
        }
        self.admin = Some(admin);
        self.asset = Some(asset);
        self.pool_balance = initial_pool;
        Ok(())
    }

    /// The policy with identifier `policy_id`, or `NotFound` when no such
    /// policy was ever created.
    pub fn get_policy(&self, policy_id: u64) -> (r: Result<Policy, Error>)
        requires
            self.wf(),
        ensures
            r is Ok <==> 1 <= policy_id <= self.policies@.len(),
            match r {
                Ok(p) => p == self.policies@[policy_id - 1],
                Err(e) => e == Error::NotFound,
            },
    {
        let n = self.policies.len();
        if 1 <= policy_id && policy_id - 1 < n as u64 {
            let idx: usize = (policy_id - 1) as usize;
            assert(idx as int == policy_id - 1);
            Ok(self.policies[idx].clone())
        } else {
            Err(Error::NotFound)
        }
    }

    /// The current pool balance.
    pub fn get_liquidity_pool(&self) -> (r: i128)
        ensures
            r == self.pool_balance,
    {
        self.pool_balance
    }

    /// The identifiers of the unresolved policies, in creation order.
    pub fn get_active_policies(&self) -> (r: Vec<u64>)
        ensures
            r@ == self.active_policies@,
    {
        copy_ids(&self.active_policies)
    }

    /// The identifiers indexed for `flight_id`, in creation order; empty
    /// when the flight has no entry (never an error).
    pub fn get_policies_for_flight(&self, flight_id: &String) -> (r: Vec<u64>)
        ensures
            r@ == ids_for_flight(self.flights@, flight_id@),
    {
        match find_flight(&self.flights, flight_id) {
            Some(j) => copy_ids(&self.flights[j].policy_ids),
            None => Vec::new(),
        }
    }

    /// How many policies were ever created.
    pub fn get_total_policies(&self) -> (r: u64)
        ensures
            r == self.policy_counter,
    {
        self.policy_counter
    }

    /// Whether `principal` is the configured administrator; false on an
    /// uninitialized state.
    pub fn is_admin(&self, principal: Principal) -> (r: bool)
        ensures
            r == (self.admin == Some(principal)),
    {
        match self.admin {
            Some(a) => a == principal,
            None => false,
        }
    }

    /// Creates a new policy for `customer` against `flight_id`, assigning
    /// the next identifier (one more than the previous maximum). `now` is
    /// the host clock's current time. Validation, in order: both amounts
    /// must be strictly positive (`InvalidAmount`), the flight date strictly
    /// in the future (`InvalidSchedule`), and the pool balance at least the
    /// requested coverage (`InsufficientLiquidity`). On success the premium
    /// is credited to the pool and the host must collect it from `customer`
    /// with the returned transfer in the same atomic call; a failed
    /// collection must abort the whole call, state update included.
    pub fn create_policy(
        &mut self,
        customer: Principal,
        flight_id: String,
        flight_date: u64,
        now: u64,
        premium_amount: i128,
        coverage_amount: i128,
    ) -> (r: Result<(u64, Transfer), Error>)
        requires
            old(self).wf(),
            old(self).policy_counter < u64::MAX,
            premium_amount > 0 ==> old(self).pool_balance + premium_amount <= i128::MAX,
        ensures
            final(self).wf(),
            r is Ok <==> (premium_amount > 0 && coverage_amount > 0 && flight_date > now && old(
                self,
            ).pool_balance >= coverage_amount),
            match r {
                Ok((id, t)) => {
                    &&& id == old(self).policy_counter + 1
                    &&& t == (Transfer::ToPool { from: customer, amount: premium_amount })
                    &&& final(self).policy_counter == id
                    &&& final(self).pool_balance == old(self).pool_balance + premium_amount
                    &&& final(self).policies@.len() == old(self).policies@.len() + 1
                    &&& final(self).policies@ == old(self).policies@.push(
                        final(self).policies@.last(),
                    )
                    &&& {
                        let p = final(self).policies@.last();
                        &&& p.id == id
                        &&& p.customer == customer
                        &&& p.flight_id@ == flight_id@
                        &&& p.flight_date == flight_date
                        &&& p.premium_amount == premium_amount
                        &&& p.coverage_amount == coverage_amount
                        &&& p.status == PolicyStatus::Unresolved
                        &&& p.payout_amount == 0
                    }
                    &&& final(self).active_policies@ == old(self).active_policies@.push(id)
                    &&& has_flight(final(self).flights@, flight_id@)
                    &&& ids_for_flight(final(self).flights@, flight_id@) == ids_for_flight(
                        old(self).flights@,
                        flight_id@,
                    ).push(id)
                    &&& forall|fid2: Seq<char>|
                        fid2 != flight_id@ ==> #[trigger] ids_for_flight(
                            final(self).flights@,
                            fid2,
                        ) == ids_for_flight(old(self).flights@, fid2)
                    &&& forall|fid2: Seq<char>|
                        fid2 != flight_id@ ==> #[trigger] has_flight(final(self).flights@, fid2)
                            == has_flight(old(self).flights@, fid2)
                    &&& final(self).admin == old(self).admin
                    &&& final(self).asset == old(self).asset
                    &&& (old(self).solvent() && old(self).pool_balance + premium_amount >= exposure(
                        old(self).policies@,
                    ) + coverage_amount) ==> final(self).solvent()
                },
                Err(e) => {
                    &&& *final(self) == *old(self)
                    &&& (e == Error::InvalidAmount <==> (premium_amount <= 0 || coverage_amount
                        <= 0))
                    &&& (e == Error::InvalidSchedule <==> (premium_amount > 0 && coverage_amount
                        > 0 && flight_date <= now))
                    &&& (e == Error::InsufficientLiquidity <==> (premium_amount > 0
                        && coverage_amount > 0 && flight_date > now && old(self).pool_balance
                        < coverage_amount))
                },
            },
    {
        if premium_amount <= 0 || coverage_amount <= 0 {
            return Err(Error::InvalidAmount);
        }
        if flight_date <= now {
            return Err(Error::InvalidSchedule);
        }
        if self.pool_balance < coverage_amount {
            return Err(Error::InsufficientLiquidity);
        }
        let ghost old_state = *self;

        let id = self.policy_counter + 1;
        self.pool_balance = self.pool_balance + premium_amount;
        self.policy_counter = id;

        let policy = Policy {
            id,
            customer,
            flight_id: flight_id.clone(),
            flight_date,
            premium_amount,
            coverage_amount,
            status: PolicyStatus::Unresolved,
            payout_amount: 0,
        };
        self.policies.push(policy);
        self.active_policies.push(id);

        proof {
            let ps = self.policies@;
            let old_ps = old_state.policies@;
            assert(ps.drop_last() =~= old_ps);
            assert(self.active_policies@ == unresolved_ids(ps));
            assert forall|i: int| 0 <= i < ps.len() implies (#[trigger] ps[i]).id == i + 1 by {
                if i < old_ps.len() {
                    assert(ps[i] == old_ps[i]);
                }
            }
            assert(exposure(ps) == exposure(old_ps) + coverage_amount);
        }

        let slot = find_flight(&self.flights, &flight_id);
        match slot {
            Some(j) => {
                let ghost old_entries = self.flights@;
                let entry = vec_index_mut(&mut self.flights, j);
                entry.policy_ids.push(id);
                proof {
                    let e = self.flights@[j as int];
                    assert(self.flights@ == old_entries.update(j as int, e));
                    assert(e.flight_id@ == flight_id@);
                    assert(e.policy_ids@ == old_entries[j as int].policy_ids@.push(id));
                    lemma_update_match_lookup(old_entries, j as int, e);
                    assert forall|fid2: Seq<char>| fid2 != flight_id@ implies #[trigger]
                        ids_for_flight(self.flights@, fid2) == ids_for_flight(
                        old_entries,
                        fid2,
                    ) by {
                        lemma_update_other_lookup(old_entries, j as int, e, fid2);
                    }
                    assert forall|fid2: Seq<char>| fid2 != flight_id@ implies #[trigger]
                        has_flight(self.flights@, fid2) == has_flight(old_entries, fid2) by {
                        lemma_update_other_lookup(old_entries, j as int, e, fid2);
                    }
                    self.lemma_create_restores_index_wf(old_state, j as int, id);
                }
            },
            None => {
                let mut ids: Vec<u64> = Vec::new();
                ids.push(id);
                let ghost old_entries = self.flights@;
                self.flights.push(FlightEntry { flight_id, policy_ids: ids });
                proof {
                    let e = self.flights@.last();
                    assert(self.flights@ == old_entries.push(e));
                    assert(e.policy_ids@ =~= seq![id]);
                    lemma_push_lookup(old_entries, e, e.flight_id@);
                    assert(ids_for_flight(old_entries, e.flight_id@) =~= Seq::<u64>::empty());
                    assert(ids_for_flight(self.flights@, e.flight_id@) =~= ids_for_flight(
                        old_entries,
                        e.flight_id@,
                    ).push(id));
                    assert forall|fid2: Seq<char>| fid2 != e.flight_id@ implies #[trigger]
                        ids_for_flight(self.flights@, fid2) == ids_for_flight(
                        old_entries,
                        fid2,
                    ) by {
                        lemma_push_lookup(old_entries, e, fid2);
                        if !has_flight(old_entries, fid2) {
                            crate::flight_index::lemma_no_flight_ids_empty(old_entries, fid2);
                            crate::flight_index::lemma_no_flight_ids_empty(self.flights@, fid2);
                        }
                    }
                    assert forall|fid2: Seq<char>| fid2 != e.flight_id@ implies #[trigger]
                        has_flight(self.flights@, fid2) == has_flight(old_entries, fid2) by {
                        lemma_push_lookup(old_entries, e, fid2);
                    }
                    self.lemma_create_restores_index_wf_push(old_state, id);
                }
            },
        }
        Ok((id, Transfer::ToPool { from: customer, amount: premium_amount }))
    }

    /// After a creation that appended `id` to the matching entry at `j`, the
    /// flight index is well formed again.
    proof fn lemma_create_restores_index_wf(
        self,
        old_state: Self,
        j: int,
        id: u64,
    )
        requires
            old_state.wf(),
            id == old_state.policy_counter + 1,
            self.policies@.len() == old_state.policies@.len() + 1,
            forall|i: int|
                0 <= i < old_state.policies@.len() ==> self.policies@[i] == old_state.policies@[i],
            self.policies@.last().id == id,
            self.policies@.last().status == PolicyStatus::Unresolved,
            0 <= j < old_state.flights@.len(),
            self.flights@.len() == old_state.flights@.len(),
            self.flights@ == old_state.flights@.update(
                j,
                FlightEntry {
                    flight_id: self.flights@[j].flight_id,
                    policy_ids: self.flights@[j].policy_ids,
                },
            ),
            self.flights@[j].flight_id@ == old_state.flights@[j].flight_id@,
            self.flights@[j].flight_id@ == self.policies@.last().flight_id@,
            self.flights@[j].policy_ids@ == old_state.flights@[j].policy_ids@.push(id),
        ensures
            entries_wf(self.flights@, self.policies@),
    {
        let entries = self.flights@;
        let old_entries = old_state.flights@;
        let ps = self.policies@;
        let old_ps = old_state.policies@;
        assert forall|j1: int, j2: int| 0 <= j1 < j2 < entries.len() implies (
        #[trigger] entries[j1]).flight_id@ != (#[trigger] entries[j2]).flight_id@ by {
            assert(entries[j1].flight_id@ == old_entries[j1].flight_id@);
            assert(entries[j2].flight_id@ == old_entries[j2].flight_id@);
        }
        assert forall|m: int| 0 <= m < entries.len() implies entry_wf(
            #[trigger] entries[m],
            ps,
        ) by {
            if m != j {
                assert(entries[m] == old_entries[m]);
                assert(entry_wf(old_entries[m], old_ps));
                assert forall|k: int| 0 <= k < entries[m].policy_ids@.len() implies {
                    let pid = #[trigger] entries[m].policy_ids@[k];
                    &&& 1 <= pid <= ps.len()
                    &&& ps[pid - 1].flight_id@ == entries[m].flight_id@
                } by {
                    let pid = entries[m].policy_ids@[k];
                    assert(1 <= pid <= old_ps.len());
                    assert(ps[pid - 1] == old_ps[pid - 1]);
                }
            } else {
                let e = entries[j];
                let old_e = old_entries[j];
                assert(entry_wf(old_e, old_ps));
                assert forall|k: int| 0 <= k < e.policy_ids@.len() implies {
                    let pid = #[trigger] e.policy_ids@[k];
                    &&& 1 <= pid <= ps.len()
                    &&& ps[pid - 1].flight_id@ == e.flight_id@
                } by {
                    let pid = e.policy_ids@[k];
                    if k < old_e.policy_ids@.len() {
                        assert(pid == old_e.policy_ids@[k]);
                        assert(1 <= pid <= old_ps.len());
                        assert(ps[pid - 1] == old_ps[pid - 1]);
                    } else {
                        assert(pid == id);
                        assert(ps[pid - 1] == ps.last());
                    }
                }
                assert forall|k1: int, k2: int|
                    0 <= k1 < k2 < e.policy_ids@.len() implies e.policy_ids@[k1]
                    < e.policy_ids@[k2] by {
                    if k2 < old_e.policy_ids@.len() {
                        assert(e.policy_ids@[k1] == old_e.policy_ids@[k1]);
                        assert(e.policy_ids@[k2] == old_e.policy_ids@[k2]);
                    } else {
                        assert(e.policy_ids@[k2] == id);
                        assert(e.policy_ids@[k1] == old_e.policy_ids@[k1]);
                        assert(1 <= old_e.policy_ids@[k1] <= old_ps.len());
                    }
                }
            }
        }
        assert forall|i: int|
            0 <= i < ps.len() && (#[trigger] ps[i]).status == PolicyStatus::Unresolved implies
            listed(entries, ps[i]) by {
            if i < old_ps.len() {
                assert(old_ps[i].status == PolicyStatus::Unresolved);
                assert(listed(old_entries, old_ps[i]));
                let w = choose|w: int|
                    0 <= w < old_entries.len() && (#[trigger] old_entries[w]).flight_id@
                        == old_ps[i].flight_id@ && old_entries[w].policy_ids@.contains(
                        old_ps[i].id,
                    );
                if w == j {
                    let kk = choose|kk: int|
                        0 <= kk < old_entries[j].policy_ids@.len() && old_entries[j].policy_ids@[kk]
                            == old_ps[i].id;
                    assert(entries[j].policy_ids@[kk] == old_ps[i].id);
                    assert(entries[j].policy_ids@.contains(ps[i].id));
                } else {
                    assert(entries[w] == old_entries[w]);
                    assert(entries[w].policy_ids@.contains(ps[i].id));
                }
            } else {
                assert(ps[i] == ps.last());
                let e = entries[j];
                assert(e.policy_ids@.last() == id);
                assert(e.policy_ids@.contains(id));
            }
        }
    }

    /// After a creation that opened a new entry for the fresh flight, the
    /// flight index is well formed again.
    proof fn lemma_create_restores_index_wf_push(self, old_state: Self, id: u64)
        requires
            old_state.wf(),
            id == old_state.policy_counter + 1,
            self.policies@.len() == old_state.policies@.len() + 1,
            forall|i: int|
                0 <= i < old_state.policies@.len() ==> self.policies@[i] == old_state.policies@[i],
            self.policies@.last().id == id,
            self.policies@.last().status == PolicyStatus::Unresolved,
            self.flights@.len() == old_state.flights@.len() + 1,
            forall|m: int|
                0 <= m < old_state.flights@.len() ==> self.flights@[m] == old_state.flights@[m],
            self.flights@.last().flight_id@ == self.policies@.last().flight_id@,
            self.flights@.last().policy_ids@ == seq![id],
            forall|m: int|
                0 <= m < old_state.flights@.len() ==> (#[trigger] old_state.flights@[m]).flight_id@
                    != self.flights@.last().flight_id@,
        ensures
            entries_wf(self.flights@, self.policies@),
    {
        let entries = self.flights@;
        let old_entries = old_state.flights@;
        let ps = self.policies@;
        let old_ps = old_state.policies@;
        assert forall|j1: int, j2: int| 0 <= j1 < j2 < entries.len() implies (
        #[trigger] entries[j1]).flight_id@ != (#[trigger] entries[j2]).flight_id@ by {
            if j2 < old_entries.len() {
                assert(entries[j1] == old_entries[j1]);
                assert(entries[j2] == old_entries[j2]);
            } else {
                assert(entries[j1] == old_entries[j1]);
                assert(entries[j2] == entries.last());
            }
        }
        assert forall|m: int| 0 <= m < entries.len() implies entry_wf(
            #[trigger] entries[m],
            ps,
        ) by {
            if m < old_entries.len() {
                assert(entries[m] == old_entries[m]);
                assert(entry_wf(old_entries[m], old_ps));
                assert forall|k: int| 0 <= k < entries[m].policy_ids@.len() implies {
                    let pid = #[trigger] entries[m].policy_ids@[k];
                    &&& 1 <= pid <= ps.len()
                    &&& ps[pid - 1].flight_id@ == entries[m].flight_id@
                } by {
                    let pid = entries[m].policy_ids@[k];
                    assert(1 <= pid <= old_ps.len());
                    assert(ps[pid - 1] == old_ps[pid - 1]);
                }
            } else {
                let e = entries[m];
                assert(e == entries.last());
                assert(e.policy_ids@[0] == id);
                assert(ps[id - 1] == ps.last());
            }
        }
        assert forall|i: int|
            0 <= i < ps.len() && (#[trigger] ps[i]).status == PolicyStatus::Unresolved implies
            listed(entries, ps[i]) by {
            if i < old_ps.len() {
                assert(old_ps[i].status == PolicyStatus::Unresolved);
                assert(listed(old_entries, old_ps[i]));
                let w = choose|w: int|
                    0 <= w < old_entries.len() && (#[trigger] old_entries[w]).flight_id@
                        == old_ps[i].flight_id@ && old_entries[w].policy_ids@.contains(
                        old_ps[i].id,
                    );
                assert(entries[w] == old_entries[w]);
                assert(entries[w].policy_ids@.contains(ps[i].id));
            } else {
                assert(ps[i] == ps.last());
                let m = entries.len() - 1;
                assert(entries[m].policy_ids@[0] == id);
                assert(entries[m].policy_ids@.contains(id));
            }
        }
    }

    /// Settles every unresolved policy of `flight_id` according to
    /// `resolution`, in creation order: each one's status becomes the
    /// outcome's terminal status and its payout is written once, per the
    /// payout table of `crate::policy::payout_for`. Already-resolved
    /// policies are skipped unchanged. The pool falls by the total payout
    /// and the settled policies leave the active index; the flight's index
    /// entry is deleted, so a second resolution of the same flight fails
    /// with `NoPoliciesForFlight`. The host must pay the returned transfers,
    /// in order, within the same atomic call.
    ///
    /// Fails with `NotFound` on an uninitialized state,
    /// `NoPoliciesForFlight` when no entry is indexed for the flight, and
    /// `InsufficientPoolForPayout` when the owed payouts exceed the pool;
    /// every failure leaves the state unchanged.
    pub fn resolve_flight(&mut self, flight_id: &String, resolution: FlightResolution) -> (r:
        Result<Vec<Transfer>, Error>)
        requires
            old(self).wf(),
        ensures
            final(self).wf(),
            r is Ok <==> (old(self).admin is Some && has_flight(old(self).flights@, flight_id@)
                && flight_payout_total(old(self).policies@, flight_id@, resolution) <= old(
                self,
            ).pool_balance),
            match r {
                Ok(transfers) => {
                    &&& transfers@ == flight_transfers(
                        old(self).policies@,
                        flight_id@,
                        resolution,
                    )
                    &&& final(self).policies@ == settled_by_flight(
                        old(self).policies@,
                        flight_id@,
                        resolution,
                    )
                    &&& final(self).pool_balance == old(self).pool_balance - flight_payout_total(
                        old(self).policies@,
                        flight_id@,
                        resolution,
                    )
                    &&& !has_flight(final(self).flights@, flight_id@)
                    &&& ids_for_flight(final(self).flights@, flight_id@) == Seq::<u64>::empty()
                    &&& forall|fid2: Seq<char>|
                        fid2 != flight_id@ ==> #[trigger] ids_for_flight(
                            final(self).flights@,
                            fid2,
                        ) == ids_for_flight(old(self).flights@, fid2)
                    &&& forall|fid2: Seq<char>|
                        fid2 != flight_id@ ==> #[trigger] has_flight(final(self).flights@, fid2)
                            == has_flight(old(self).flights@, fid2)
                    &&& final(self).admin == old(self).admin
                    &&& final(self).asset == old(self).asset
                    &&& final(self).policy_counter == old(self).policy_counter
                    &&& (old(self).solvent() && (forall|i: int|
                        0 <= i < old(self).policies@.len() && affected(
                            #[trigger] old(self).policies@[i],
                            flight_id@,
                        ) ==> policy_payout(old(self).policies@[i], resolution) <= old(
                            self,
                        ).policies@[i].coverage_amount as int)) ==> final(self).solvent()
                },
                Err(e) => {
                    &&& *final(self) == *old(self)
                    &&& (e == Error::NotFound <==> old(self).admin is None)
                    &&& (e == Error::NoPoliciesForFlight <==> (old(self).admin is Some
                        && !has_flight(old(self).flights@, flight_id@)))
                    &&& (e == Error::InsufficientPoolForPayout <==> (old(self).admin is Some
                        && has_flight(old(self).flights@, flight_id@) && flight_payout_total(
                        old(self).policies@,
                        flight_id@,
                        resolution,
                    ) > old(self).pool_balance))
                },
            },
    {
        if self.admin.is_none() {
            return Err(Error::NotFound);
        }
        let j = match find_flight(&self.flights, flight_id) {
            Some(j) => j,
            None => {
                return Err(Error::NoPoliciesForFlight);
            },
        };
        let ghost fid = flight_id@;
        let ghost old_ps = self.policies@;
        let ghost pool0 = self.pool_balance;
        proof {
            assert(entry_wf(self.flights@[j as int], old_ps));
            assert(1 <= self.flights@[j as int].policy_ids@[0] <= old_ps.len());
            assert(self.pool_balance >= 0);
        }
        let n = self.policies.len();

        let mut running: i128 = self.pool_balance;
        let mut k: usize = 0;
        while k < n
            invariant
                *self == *old(self),
                self.wf(),
                self.admin is Some,
                has_flight(self.flights@, fid),
                k <= n,
                n == self.policies@.len(),
                old_ps == self.policies@,
                fid == flight_id@,
                pool0 == self.pool_balance,
                pool0 >= 0,
                running == pool0 - flight_payout_total(old_ps.take(k as int), fid, resolution),
                running >= 0,
            decreases n - k,
        {
            proof {
                lemma_flight_payout_total_take_step(old_ps, fid, resolution, k as int);
            }
            let affected_now = self.policies[k].status == PolicyStatus::Unresolved
                && self.policies[k].flight_id == *flight_id;
            if affected_now {
                let payout = compute_payout(
                    resolution,
                    self.policies[k].premium_amount,
                    self.policies[k].coverage_amount,
                );
                proof {
                    lemma_payout_for_bounds(
                        resolution,
                        old_ps[k as int].premium_amount as int,
                        old_ps[k as int].coverage_amount as int,
                    );
                }
                if payout > 0 {
                    if running < payout {
                        proof {
                            lemma_flight_payout_total_take_le(
                                old_ps,
                                fid,
                                resolution,
                                k as int + 1,
                            );
                        }
                        return Err(Error::InsufficientPoolForPayout);
                    }
                    running = running - payout;
                }
            }
            k += 1;
        }
        proof {
            assert(old_ps.take(n as int) =~= old_ps);
        }
        let ghost total = flight_payout_total(old_ps, fid, resolution);

        let mut transfers: Vec<Transfer> = Vec::new();
        let mut k: usize = 0;
        while k < n
            invariant
                k <= n,
                n == old_ps.len(),
                self.policies@.len() == old_ps.len(),
                fid == flight_id@,
                forall|i: int|
                    0 <= i < k ==> #[trigger] self.policies@[i] == settled_by_flight(
                        old_ps,
                        fid,
                        resolution,
                    )[i],
                forall|i: int| k <= i < n ==> #[trigger] self.policies@[i] == old_ps[i],
                transfers@ == flight_transfers(old_ps.take(k as int), fid, resolution),
                self.admin == old(self).admin,
                self.asset == old(self).asset,
                self.policy_counter == old(self).policy_counter,
                self.pool_balance == pool0,
                self.active_policies@ == old(self).active_policies@,
                self.flights@ == old(self).flights@,
                forall|i: int|
                    0 <= i < old_ps.len() ==> (#[trigger] old_ps[i]).premium_amount > 0
                        && old_ps[i].coverage_amount > 0,
            decreases n - k,
        {
            proof {
                lemma_flight_transfers_take_step(old_ps, fid, resolution, k as int);
                assert(self.policies@[k as int] == old_ps[k as int]);
            }
            let affected_now = self.policies[k].status == PolicyStatus::Unresolved
                && self.policies[k].flight_id == *flight_id;
            if affected_now {
                let premium = self.policies[k].premium_amount;
                let coverage = self.policies[k].coverage_amount;
                let customer = self.policies[k].customer;
                let payout = compute_payout(resolution, premium, coverage);
                let status = apply_status(resolution);
                let p = vec_index_mut(&mut self.policies, k);
                p.status = status;
                p.payout_amount = payout;
                if payout > 0 {
                    transfers.push(Transfer::FromPool { to: customer, amount: payout });
                }
                proof {
                    assert(payout as int == policy_payout(old_ps[k as int], resolution));
                    assert(self.policies@[k as int] == settled(old_ps[k as int], resolution));
                }
            }
            k += 1;
        }
        proof {
            assert(old_ps.take(n as int) =~= old_ps);
            assert(self.policies@ =~= settled_by_flight(old_ps, fid, resolution));
        }

        self.pool_balance = running;
        let new_active = collect_unresolved(&self.policies);
        self.active_policies = new_active;
        let ghost old_entries = self.flights@;
        self.flights.remove(j);

        proof {
            assert(self.flights@ == old_entries.remove(j as int));
            assert forall|m: int|
                0 <= m < old_entries.len() && m != j implies (
            #[trigger] old_entries[m]).flight_id@ != fid by {
                if m < j {
                    assert(old_entries[m].flight_id@ != old_entries[j as int].flight_id@);
                } else {
                    assert(old_entries[j as int].flight_id@ != old_entries[m].flight_id@);
                }
            }
            lemma_remove_match_lookup(old_entries, j as int, fid);
            assert forall|fid2: Seq<char>| fid2 != fid implies #[trigger] ids_for_flight(
                self.flights@,
                fid2,
            ) == ids_for_flight(old_entries, fid2) by {
                lemma_remove_other_lookup(old_entries, j as int, fid2);
            }
            assert forall|fid2: Seq<char>| fid2 != fid implies #[trigger] has_flight(
                self.flights@,
                fid2,
            ) == has_flight(old_entries, fid2) by {
                lemma_remove_other_lookup(old_entries, j as int, fid2);
            }
            Self::lemma_resolve_restores_wf(old_ps, old_entries, j as int, fid, resolution);
            assert forall|i: int| 0 <= i < self.policies@.len() implies (
            #[trigger] self.policies@[i]).payout_amount >= 0 by {
                if affected(old_ps[i], fid) {
                    lemma_payout_for_bounds(
                        resolution,
                        old_ps[i].premium_amount as int,
                        old_ps[i].coverage_amount as int,
                    );
                } else {
                    assert(self.policies@[i] == old_ps[i]);
                }
            }
            lemma_exposure_after_settlement(old_ps, fid, resolution);
            if old(self).solvent() && (forall|i: int|
                0 <= i < old_ps.len() && affected(#[trigger] old_ps[i], fid) ==> policy_payout(
                    old_ps[i],
                    resolution,
                ) <= old_ps[i].coverage_amount as int) {
                lemma_flight_payout_le_settled_coverage(old_ps, fid, resolution);
            }
        }
        Ok(transfers)
    }

    /// After a batch resolution settled flight `fid` and its entry at `j`
    /// was removed, the ledger invariants hold again: identifiers, amounts
    /// and index entries are untouched, and every policy still unresolved
    /// belongs to another flight and is still listed there.
    proof fn lemma_resolve_restores_wf(
        old_ps: Seq<Policy>,
        old_entries: Seq<FlightEntry>,
        j: int,
        fid: Seq<char>,
        resolution: FlightResolution,
    )
        requires
            entries_wf(old_entries, old_ps),
            forall|i: int| 0 <= i < old_ps.len() ==> (#[trigger] old_ps[i]).id == i + 1,
            0 <= j < old_entries.len(),
            old_entries[j].flight_id@ == fid,
            forall|j1: int, j2: int|
                0 <= j1 < j2 < old_entries.len() ==> (#[trigger] old_entries[j1]).flight_id@ != (
                #[trigger] old_entries[j2]).flight_id@,
        ensures
            entries_wf(old_entries.remove(j), settled_by_flight(old_ps, fid, resolution)),
            forall|i: int|
                0 <= i < old_ps.len() ==> (#[trigger] settled_by_flight(
                    old_ps,
                    fid,
                    resolution,
                )[i]).id == i + 1,
    {
        let ps = settled_by_flight(old_ps, fid, resolution);
        let entries = old_entries.remove(j);
        assert forall|i: int| 0 <= i < old_ps.len() implies (#[trigger] ps[i]).id == i + 1
            && ps[i].flight_id@ == old_ps[i].flight_id@ by {
            if affected(old_ps[i], fid) {
                assert(ps[i] == settled(old_ps[i], resolution));
            } else {
                assert(ps[i] == old_ps[i]);
            }
        }
        assert forall|j1: int, j2: int| 0 <= j1 < j2 < entries.len() implies (
        #[trigger] entries[j1]).flight_id@ != (#[trigger] entries[j2]).flight_id@ by {
            let m1 = if j1 < j { j1 } else { j1 + 1 };
            let m2 = if j2 < j { j2 } else { j2 + 1 };
            assert(entries[j1] == old_entries[m1]);
            assert(entries[j2] == old_entries[m2]);
        }
        assert forall|m: int| 0 <= m < entries.len() implies entry_wf(
            #[trigger] entries[m],
            ps,
        ) by {
            let m0 = if m < j { m } else { m + 1 };
            assert(entries[m] == old_entries[m0]);
            assert(entry_wf(old_entries[m0], old_ps));
            assert forall|k: int| 0 <= k < entries[m].policy_ids@.len() implies {
                let pid = #[trigger] entries[m].policy_ids@[k];
                &&& 1 <= pid <= ps.len()
                &&& ps[pid - 1].flight_id@ == entries[m].flight_id@
            } by {
                let pid = entries[m].policy_ids@[k];
                assert(1 <= pid <= old_ps.len());
                assert(ps[pid - 1].flight_id@ == old_ps[pid - 1].flight_id@);
            }
        }
        assert forall|i: int|
            0 <= i < ps.len() && (#[trigger] ps[i]).status == PolicyStatus::Unresolved implies
            listed(entries, ps[i]) by {
            assert(status_for(resolution) != PolicyStatus::Unresolved);
            assert(!affected(old_ps[i], fid));
            assert(ps[i] == old_ps[i]);
            assert(old_ps[i].flight_id@ != fid);
            assert(listed(old_entries, old_ps[i]));
            let w = choose|w: int|
                0 <= w < old_entries.len() && (#[trigger] old_entries[w]).flight_id@
                    == old_ps[i].flight_id@ && old_entries[w].policy_ids@.contains(old_ps[i].id);
            assert(w != j);
            let w2 = if w < j { w } else { w - 1 };
            assert(entries[w2] == old_entries[w]);
            assert(entries[w2].flight_id@ == ps[i].flight_id@);
            assert(entries[w2].policy_ids@.contains(ps[i].id));
        }
    }

    /// Credits `amount` to the pool. The host must collect `amount` from the
    /// administrator with the returned transfer in the same atomic call.
    /// Fails with `NotFound` on an uninitialized state and `InvalidAmount`
    /// on a non-positive amount.
    pub fn deposit_to_pool(&mut self, amount: i128) -> (r: Result<Transfer, Error>)
        requires
            old(self).wf(),
            amount > 0 ==> old(self).pool_balance + amount <= i128::MAX,
        ensures
            final(self).wf(),
            r is Ok <==> (old(self).admin is Some && amount > 0),
            match r {
                Ok(t) => {
                    &&& t == (Transfer::ToPool { from: old(self).admin->Some_0, amount })
                    &&& final(self).pool_balance == old(self).pool_balance + amount
                    &&& final(self).policies@ == old(self).policies@
                    &&& final(self).active_policies@ == old(self).active_policies@
                    &&& final(self).flights@ == old(self).flights@
                    &&& final(self).admin == old(self).admin
                    &&& final(self).asset == old(self).asset
                    &&& final(self).policy_counter == old(self).policy_counter
                    &&& old(self).solvent() ==> final(self).solvent()
                },
                Err(e) => {
                    &&& *final(self) == *old(self)
                    &&& (e == Error::NotFound <==> old(self).admin is None)
                    &&& (e == Error::InvalidAmount <==> old(self).admin is Some && amount <= 0)
                },
            },
    {
        let admin = match self.admin {
            Some(a) => a,
            None => {
                return Err(Error::NotFound);
            },
        };
        if amount <= 0 {
            return Err(Error::InvalidAmount);
        }
        self.pool_balance = self.pool_balance + amount;
        Ok(Transfer::ToPool { from: admin, amount })
    }

    /// Debits `amount` from the pool, refusing any withdrawal that would
    /// leave the pool below the summed coverage of the unresolved policies.
    /// On success the pool falls by exactly `amount`, the state is solvent,
    /// and the host must pay `amount` to the administrator with the returned
    /// transfer. Fails with `NotFound` on an uninitialized state,
    /// `InvalidAmount` on a non-positive amount, and `InsufficientCoverage`
    /// when the remaining pool would not cover the exposure.
    pub fn withdraw_from_pool(&mut self, amount: i128) -> (r: Result<Transfer, Error>)
        requires
            old(self).wf(),
            amount > 0 ==> old(self).pool_balance - amount >= i128::MIN,
            exposure(old(self).policies@) <= i128::MAX,
        ensures
            final(self).wf(),
            r is Ok <==> (old(self).admin is Some && amount > 0 && old(self).pool_balance - amount
                >= exposure(old(self).policies@)),
            match r {
                Ok(t) => {
                    &&& t == (Transfer::FromPool { to: old(self).admin->Some_0, amount })
                    &&& final(self).pool_balance == old(self).pool_balance - amount
                    &&& final(self).solvent()
                    &&& final(self).policies@ == old(self).policies@
                    &&& final(self).active_policies@ == old(self).active_policies@
                    &&& final(self).flights@ == old(self).flights@
                    &&& final(self).admin == old(self).admin
                    &&& final(self).asset == old(self).asset
                    &&& final(self).policy_counter == old(self).policy_counter
                },
                Err(e) => {
                    &&& *final(self) == *old(self)
                    &&& (e == Error::NotFound <==> old(self).admin is None)
                    &&& (e == Error::InvalidAmount <==> old(self).admin is Some && amount <= 0)
                    &&& (e == Error::InsufficientCoverage <==> old(self).admin is Some && amount
                        > 0 && old(self).pool_balance - amount < exposure(old(self).policies@))
                },
            },
    {
        let admin = match self.admin {
            Some(a) => a,
            None => {
                return Err(Error::NotFound);
            },
        };
        if amount <= 0 {
            return Err(Error::InvalidAmount);
        }
        let total_exposure = self.total_active_coverage();
        let after_withdrawal = self.pool_balance - amount;
        if after_withdrawal < total_exposure {
            return Err(Error::InsufficientCoverage);
        }
        self.pool_balance = after_withdrawal;
        Ok(Transfer::FromPool { to: admin, amount })
    }

    /// The live sum of the coverage of the unresolved policies, recomputed
    /// by walking the active index.
    fn total_active_coverage(&self) -> (total: i128)
        requires
            self.wf(),
            exposure(self.policies@) <= i128::MAX,
        ensures
            total == exposure(self.policies@),
            total >= 0,
    {
        proof {
            lemma_unresolved_ids_elems(self.policies@);
            lemma_active_coverage_is_exposure(self.policies@);
        }
        let n = self.active_policies.len();
        let mut total: i128 = 0;
        let mut k: usize = 0;
        while k < n
            invariant
                self.wf(),
                exposure(self.policies@) <= i128::MAX,
                k <= n,
                n == self.active_policies@.len(),
                total == sum_coverage(self.policies@, self.active_policies@.take(k as int)),
                total >= 0,
            decreases n - k,
        {
            let id = self.active_policies[k];
            proof {
                lemma_unresolved_ids_elems(self.policies@);
                lemma_active_coverage_is_exposure(self.policies@);
                assert(self.active_policies@[k as int] == unresolved_ids(self.policies@)[k as int]);
                assert(1 <= id <= self.policies@.len());
                lemma_sum_coverage_take_step(self.policies@, self.active_policies@, k as int);
                assert(coverage_of(self.policies@, id) == self.policies@[id - 1].coverage_amount
                    as int);
                lemma_sum_coverage_take_le(self.policies@, self.active_policies@, k as int + 1);
                lemma_sum_coverage_nonneg(
                    self.policies@,
                    self.active_policies@.take(k as int + 1),
                );
                assert(sum_coverage(self.policies@, self.active_policies@)
                    == exposure(self.policies@));
            }
            let np = self.policies.len();
            let idx: usize = (id - 1) as usize;
            assert(idx as int == id - 1 && idx < np);
            total = total + self.policies[idx].coverage_amount;
            k += 1;
        }
        proof {
            assert(self.active_policies@.take(n as int) =~= self.active_policies@);
        }
        total
    }
}

/// Collects the identifiers of the unresolved policies, in creation order.
fn collect_unresolved(policies: &Vec<Policy>) -> (r: Vec<u64>)
    ensures
        r@ == unresolved_ids(policies@),
{
    let n = policies.len();
    let mut r: Vec<u64> = Vec::new();
    let mut k: usize = 0;
    while k < n
        invariant
            k <= n,
            n == policies@.len(),
            r@ == unresolved_ids(policies@.take(k as int)),
        decreases n - k,
    {
        proof {
            lemma_unresolved_ids_take_step(policies@, k as int);
        }
        if policies[k].status == PolicyStatus::Unresolved {
            r.push(policies[k].id);
        }
        k += 1;
    }
    proof {
        assert(policies@.take(n as int) =~= policies@);
    }
    r
}

} // verus!
