//! The flight index: for each flight with open policies, the ordered list of
//! policy identifiers created against it. An entry grows at policy creation
//! and is deleted as a whole when the flight's batch resolution completes, so
//! a flight can be resolved at most once per generation of policies.

use vstd::prelude::*;
use crate::policy::{Policy, PolicyStatus};

verus! {

/// One flight's entry: its identifier and the policies created against it,
/// in creation order.
pub struct FlightEntry {
    pub flight_id: String,
    pub policy_ids: Vec<u64>,
}

/// The policy identifiers indexed for `fid`: those of the first entry whose
/// flight identifier matches, or the empty sequence when none does.
pub open spec fn ids_for_flight(entries: Seq<FlightEntry>, fid: Seq<char>) -> Seq<u64>
    decreases entries.len(),
{
    if entries.len() == 0 {
        Seq::empty()
    } else if entries.first().flight_id@ == fid {
        entries.first().policy_ids@
    } else {
        ids_for_flight(entries.drop_first(), fid)
    }
}

/// Whether some entry is indexed for `fid`.
pub open spec fn has_flight(entries: Seq<FlightEntry>, fid: Seq<char>) -> bool
    decreases entries.len(),
{
    if entries.len() == 0 {
        false
    } else if entries.first().flight_id@ == fid {
        true
    } else {
        has_flight(entries.drop_first(), fid)
    }
}

/// A well-formed entry against the ledger `ps`: it is never empty, every
/// identifier it lists names a policy of its flight, and the identifiers are
/// strictly ascending (each is appended exactly once, at creation).
pub open spec fn entry_wf(e: FlightEntry, ps: Seq<Policy>) -> bool {
    &&& e.policy_ids@.len() > 0
    &&& forall|k: int|
        0 <= k < e.policy_ids@.len() ==> {
            let id = #[trigger] e.policy_ids@[k];
            &&& 1 <= id <= ps.len()
            &&& ps[id - 1].flight_id@ == e.flight_id@
        }
    &&& forall|k1: int, k2: int|
        0 <= k1 < k2 < e.policy_ids@.len() ==> e.policy_ids@[k1] < e.policy_ids@[k2]
}

/// Whether `p` appears in the entry of its own flight.
pub open spec fn listed(entries: Seq<FlightEntry>, p: Policy) -> bool {
    exists|j: int|
        0 <= j < entries.len() && (#[trigger] entries[j]).flight_id@ == p.flight_id@
            && entries[j].policy_ids@.contains(p.id)
}

/// A well-formed index against the ledger `ps`: flight identifiers are
/// unique, every entry is well formed, and every unresolved policy is listed
/// under its flight (membership is removed exactly once, when the whole
/// entry goes).
pub open spec fn entries_wf(entries: Seq<FlightEntry>, ps: Seq<Policy>) -> bool {
    &&& forall|j1: int, j2: int|
        0 <= j1 < j2 < entries.len() ==> (#[trigger] entries[j1]).flight_id@ != (
        #[trigger] entries[j2]).flight_id@
    &&& forall|j: int| 0 <= j < entries.len() ==> entry_wf(#[trigger] entries[j], ps)
    &&& forall|i: int|
        0 <= i < ps.len() && (#[trigger] ps[i]).status == PolicyStatus::Unresolved ==> listed(
            entries,
            ps[i],
        )
}

/// An index with no entry for `fid` lists nothing for it.
pub proof fn lemma_no_flight_ids_empty(entries: Seq<FlightEntry>, fid: Seq<char>)
    requires
        !has_flight(entries, fid),
    ensures
        ids_for_flight(entries, fid) == Seq::<u64>::empty(),
    decreases entries.len(),
{
    if entries.len() > 0 {
        lemma_no_flight_ids_empty(entries.drop_first(), fid);
    }
}

/// The first matching entry determines the lookup.
pub proof fn lemma_lookup_first_match(entries: Seq<FlightEntry>, fid: Seq<char>, j: int)
    requires
        0 <= j < entries.len(),
        entries[j].flight_id@ == fid,
        forall|m: int| 0 <= m < j ==> (#[trigger] entries[m]).flight_id@ != fid,
    ensures
        has_flight(entries, fid),
        ids_for_flight(entries, fid) == entries[j].policy_ids@,
    decreases j,
{
    if j > 0 {
        lemma_lookup_first_match(entries.drop_first(), fid, j - 1);
    }
}

/// A lookup that matches nowhere finds nothing.
pub proof fn lemma_lookup_no_match(entries: Seq<FlightEntry>, fid: Seq<char>)
    requires
        forall|m: int| 0 <= m < entries.len() ==> (#[trigger] entries[m]).flight_id@ != fid,
    ensures
        !has_flight(entries, fid),
    decreases entries.len(),
{
    if entries.len() > 0 {
        lemma_lookup_no_match(entries.drop_first(), fid);
    }
}

/// Replacing one entry leaves the lookup of every other flight unchanged.
pub proof fn lemma_update_other_lookup(
    entries: Seq<FlightEntry>,
    j: int,
    e: FlightEntry,
    fid2: Seq<char>,
)
    requires
        0 <= j < entries.len(),
        entries[j].flight_id@ != fid2,
        e.flight_id@ != fid2,
    ensures
        ids_for_flight(entries.update(j, e), fid2) == ids_for_flight(entries, fid2),
        has_flight(entries.update(j, e), fid2) == has_flight(entries, fid2),
    decreases j,
{
    if j == 0 {
        assert(entries.update(0, e).drop_first() =~= entries.drop_first());
    } else {
        assert(entries.update(j, e).drop_first() =~= entries.drop_first().update(j - 1, e));
        assert(entries.update(j, e).first() == entries.first());
        lemma_update_other_lookup(entries.drop_first(), j - 1, e, fid2);
    }
}

/// Replacing the first matching entry with one for the same flight makes the
/// lookup yield the replacement's list.
pub proof fn lemma_update_match_lookup(entries: Seq<FlightEntry>, j: int, e: FlightEntry)
    requires
        0 <= j < entries.len(),
        e.flight_id@ == entries[j].flight_id@,
        forall|m: int|
            0 <= m < j ==> (#[trigger] entries[m]).flight_id@ != entries[j].flight_id@,
    ensures
        has_flight(entries.update(j, e), entries[j].flight_id@),
        ids_for_flight(entries.update(j, e), entries[j].flight_id@) == e.policy_ids@,
{
    let entries2 = entries.update(j, e);
    assert(entries2[j] == e);
    assert forall|m: int| 0 <= m < j implies (#[trigger] entries2[m]).flight_id@
        != entries[j].flight_id@ by {
        assert(entries2[m] == entries[m]);
    }
    lemma_lookup_first_match(entries2, entries[j].flight_id@, j);
}

/// Appending an entry leaves every existing lookup unchanged, and makes the
/// appended flight's lookup yield the new list when it was absent before.
pub proof fn lemma_push_lookup(entries: Seq<FlightEntry>, e: FlightEntry, fid2: Seq<char>)
    ensures
        has_flight(entries, fid2) ==> has_flight(entries.push(e), fid2) && ids_for_flight(
            entries.push(e),
            fid2,
        ) == ids_for_flight(entries, fid2),
        !has_flight(entries, fid2) && e.flight_id@ == fid2 ==> has_flight(entries.push(e), fid2)
            && ids_for_flight(entries.push(e), fid2) == e.policy_ids@,
        !has_flight(entries, fid2) && e.flight_id@ != fid2 ==> !has_flight(entries.push(e), fid2),
    decreases entries.len(),
{
    if entries.len() == 0 {
        assert(entries.push(e).first() == e);
        assert(entries.push(e).drop_first() =~= Seq::<FlightEntry>::empty());
        if e.flight_id@ != fid2 {
            assert(!has_flight(entries.push(e).drop_first(), fid2));
            assert(!has_flight(entries.push(e), fid2));
        }
    } else {
        assert(entries.push(e).first() == entries.first());
        assert(entries.push(e).drop_first() =~= entries.drop_first().push(e));
        lemma_push_lookup(entries.drop_first(), e, fid2);
    }
}

/// Removing an entry leaves the lookup of every other flight unchanged.
pub proof fn lemma_remove_other_lookup(entries: Seq<FlightEntry>, j: int, fid2: Seq<char>)
    requires
        0 <= j < entries.len(),
        entries[j].flight_id@ != fid2,
    ensures
        ids_for_flight(entries.remove(j), fid2) == ids_for_flight(entries, fid2),
        has_flight(entries.remove(j), fid2) == has_flight(entries, fid2),
    decreases j,
{
    if j == 0 {
        assert(entries.remove(0) =~= entries.drop_first());
    } else {
        assert(entries.remove(j).first() == entries.first());
        assert(entries.remove(j).drop_first() =~= entries.drop_first().remove(j - 1));
        lemma_remove_other_lookup(entries.drop_first(), j - 1, fid2);
    }
}

/// Removing the only entry of a flight removes the flight from the index.
pub proof fn lemma_remove_match_lookup(entries: Seq<FlightEntry>, j: int, fid: Seq<char>)
    requires
        0 <= j < entries.len(),
        entries[j].flight_id@ == fid,
        forall|m: int|
            0 <= m < entries.len() && m != j ==> (#[trigger] entries[m]).flight_id@ != fid,
    ensures
        !has_flight(entries.remove(j), fid),
        ids_for_flight(entries.remove(j), fid) == Seq::<u64>::empty(),
{
    let entries2 = entries.remove(j);
    assert forall|m: int| 0 <= m < entries2.len() implies (#[trigger] entries2[m]).flight_id@
        != fid by {
        if m < j {
            assert(entries2[m] == entries[m]);
        } else {
            assert(entries2[m] == entries[m + 1]);
        }
    }
    lemma_lookup_no_match(entries2, fid);
    lemma_no_flight_ids_empty(entries2, fid);
}

/// Finds the position of the entry for `flight_id`, scanning in index order.
pub fn find_flight(entries: &Vec<FlightEntry>, flight_id: &String) -> (r: Option<usize>)
    ensures
        match r {
            Some(j) => {
                &&& j < entries@.len()
                &&& entries@[j as int].flight_id@ == flight_id@
                &&& forall|m: int|
                    0 <= m < j ==> (#[trigger] entries@[m]).flight_id@ != flight_id@
                &&& has_flight(entries@, flight_id@)
                &&& ids_for_flight(entries@, flight_id@) == entries@[j as int].policy_ids@
            },
            None => {
                &&& !has_flight(entries@, flight_id@)
                &&& ids_for_flight(entries@, flight_id@) == Seq::<u64>::empty()
                &&& forall|m: int|
                    0 <= m < entries@.len() ==> (#[trigger] entries@[m]).flight_id@ != flight_id@
            },
        },
{
    let n = entries.len();
    let mut j: usize = 0;
    while j < n
        invariant
            j <= n,
            n == entries@.len(),
            forall|m: int| 0 <= m < j ==> (#[trigger] entries@[m]).flight_id@ != flight_id@,
        decreases n - j,
    {
        if entries[j].flight_id == *flight_id {
            proof {
                lemma_lookup_first_match(entries@, flight_id@, j as int);
            }
            return Some(j);
        }
        j += 1;
    }
    proof {
        lemma_lookup_no_match(entries@, flight_id@);
        lemma_no_flight_ids_empty(entries@, flight_id@);
    }
    None
}

/// Copies a list of policy identifiers.
pub fn copy_ids(ids: &Vec<u64>) -> (r: Vec<u64>)
    ensures
        r@ == ids@,
{
    let n = ids.len();
    let mut r: Vec<u64> = Vec::new();
    let mut k: usize = 0;
    while k < n
        invariant
            k <= n,
            n == ids@.len(),
            r@ == ids@.take(k as int),
        decreases n - k,
    {
        r.push(ids[k]);
        proof {
            assert(ids@.take(k + 1) =~= ids@.take(k as int).push(ids@[k as int]));
        }
        k += 1;
    }
    proof {
        assert(ids@.take(n as int) =~= ids@);
    }
    r
}

} // verus!
