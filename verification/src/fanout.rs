//! The bounded fan-out model: the admission gate that caps how many fetch
//! units are in flight at once, and the collection of every unit's outcome
//! into one accumulated candidate list.
//!
//! The network calls themselves happen outside the library; each unit's
//! result comes back as a `FetchOutcome`, and the library turns the full
//! outcome list into candidates deterministically.

use vstd::prelude::*;
use crate::aggregate::{pair, pair_seq, sums_fit};
use crate::fare::{Fare, ReturnFlight};
use crate::rank::{rank, sorted_by_price, stable_reordering};

verus! {

/// The counting admission gate: at most `limit` units hold a permit at any
/// instant.  Well-formedness — the permit count never exceeds the limit —
/// is established by the constructor and preserved by every operation.
#[derive(Clone, Copy, PartialEq, Eq, Structural, Debug)]
pub struct AdmissionGate {
    pub limit: usize,
    pub active: usize,
}

/// Well-formedness of a gate: `active` stays within the ceiling.
pub open spec fn gate_wf(g: AdmissionGate) -> bool {
    g.active <= g.limit
}

impl AdmissionGate {
    /// A fresh gate with the given ceiling and no permits out.
    pub fn new(limit: usize) -> (r: AdmissionGate)
        ensures
            r.limit == limit,
            r.active == 0,
            gate_wf(r),
    {
        AdmissionGate { limit, active: 0 }
    }

    /// Try to take a permit.  Granted exactly while fewer than `limit`
    /// permits are in use; a refused unit waits and tries again.
    pub fn try_acquire(&mut self) -> (granted: bool)
        requires
            gate_wf(*old(self)),
        ensures
            gate_wf(*final(self)),
            final(self).limit == old(self).limit,
            granted ==> old(self).active < old(self).limit && final(self).active == old(
                self,
            ).active + 1,
            !granted ==> *final(self) == *old(self) && old(self).active == old(self).limit,
    {
        if self.active < self.limit {
            self.active = self.active + 1;
            true
        } else {
            false
        }
    }

    /// Return a permit.  Every exit path of a unit must release exactly the
    /// permit it acquired.
    pub fn release(&mut self)
        requires
            gate_wf(*old(self)),
            old(self).active > 0,
        ensures
            gate_wf(*final(self)),
            final(self).limit == old(self).limit,
            final(self).active == old(self).active - 1,
    {
        self.active = self.active - 1;
    }
}

/// At no instant does a well-formed gate have more than `limit` permits
/// out: the concurrency ceiling holds in every reachable state.
pub proof fn lemma_gate_bounded(g: AdmissionGate)
    requires
        gate_wf(g),
    ensures
        g.active <= g.limit,
{
}

/// What one fetch unit came back with: both legs' fare lists, or a recorded
/// failure of either fetch.
pub enum FetchOutcome {
    /// Both one-way lookups succeeded: the outbound-leg fares and the
    /// inbound-leg fares for this unit's date pair.
    Success(Vec<Fare>, Vec<Fare>),
    /// Either lookup failed; the unit contributes nothing.
    Failure,
}

/// The candidates one outcome contributes: the full cross product on
/// success, nothing on failure.
pub open spec fn outcome_candidates(o: FetchOutcome) -> Seq<ReturnFlight> {
    match o {
        FetchOutcome::Success(to_fares, from_fares) => pair_seq(to_fares@, from_fares@),
        FetchOutcome::Failure => Seq::empty(),
    }
}

/// Every outcome's pairing stays within the machine's price range.
pub open spec fn outcomes_fit(outcomes: Seq<FetchOutcome>) -> bool {
    forall|i: int|
        0 <= i < outcomes.len() ==> match #[trigger] outcomes[i] {
            FetchOutcome::Success(to_fares, from_fares) => sums_fit(to_fares@, from_fares@),
            FetchOutcome::Failure => true,
        }
}

/// All candidates the outcome list contributes, in outcome order.
pub open spec fn collected(outcomes: Seq<FetchOutcome>) -> Seq<ReturnFlight>
    decreases outcomes.len(),
{
    if outcomes.len() == 0 {
        Seq::empty()
    } else {
        outcome_candidates(outcomes[0]) + collected(outcomes.drop_first())
    }
}

/// Collection distributes over splitting the outcome list.
pub proof fn lemma_collected_concat(s1: Seq<FetchOutcome>, s2: Seq<FetchOutcome>)
    ensures
        collected(s1 + s2) == collected(s1) + collected(s2),
    decreases s1.len(),
{
    if s1.len() == 0 {
        assert(s1 + s2 =~= s2);
        assert(collected(s1) + collected(s2) =~= collected(s2));
    } else {
        assert((s1 + s2).drop_first() =~= s1.drop_first() + s2);
        lemma_collected_concat(s1.drop_first(), s2);
        assert((s1 + s2)[0] == s1[0]);
        assert(collected(s1 + s2) =~= collected(s1) + collected(s2));
    }
}

/// A failed unit contributes nothing: wherever in the schedule one unit
/// fails, the collected candidates are exactly those of the other units,
/// and no error escapes.
pub proof fn lemma_failed_unit_contributes_nothing(
    before: Seq<FetchOutcome>,
    after: Seq<FetchOutcome>,
)
    ensures
        collected(before + seq![FetchOutcome::Failure] + after) == collected(before + after),
        collected(before + after) == collected(before) + collected(after),
{
    lemma_collected_concat(before, seq![FetchOutcome::Failure] + after);
    lemma_collected_concat(seq![FetchOutcome::Failure], after);
    lemma_collected_concat(before, after);
    lemma_collected_singleton(FetchOutcome::Failure);
    assert(collected(seq![FetchOutcome::Failure]) =~= Seq::<ReturnFlight>::empty());
    assert(before + seq![FetchOutcome::Failure] + after =~= before + (seq![FetchOutcome::Failure]
        + after));
    assert(collected(before + seq![FetchOutcome::Failure] + after) =~= collected(before)
        + collected(after));
    assert(collected(before + after) =~= collected(before) + collected(after));
}

/// Fold every unit's outcome into the accumulated candidate list: each
/// successful unit appends its date pair's full cross product, each failed
/// unit appends nothing.
pub fn collect_candidates(outcomes: Vec<FetchOutcome>) -> (r: Vec<ReturnFlight>)
    requires
        outcomes_fit(outcomes@),
    ensures
        r@ == collected(outcomes@),
{
    let ghost all = outcomes@;
    let mut rest = outcomes;
    let mut r: Vec<ReturnFlight> = Vec::new();
    proof {
        assert(rest@ =~= all.subrange(0, all.len() as int));
        assert(all.take(0) =~= Seq::<FetchOutcome>::empty());
    }
    while rest.len() > 0
        invariant
            rest@.len() <= all.len(),
            rest@ == all.subrange(all.len() - rest@.len(), all.len() as int),
            outcomes_fit(all),
            r@ == collected(all.take(all.len() - rest@.len())),
        decreases rest@.len(),
    {
        let ghost done = all.len() - rest@.len();
        let outcome = rest.remove(0);
        proof {
            assert(outcome == all[done]);
            assert(rest@ =~= all.subrange(all.len() - rest@.len(), all.len() as int));
            assert(all.take(done + 1) =~= all.take(done).push(all[done]));
            lemma_collected_push(all.take(done), all[done]);
        }
        match outcome {
            FetchOutcome::Success(to_fares, from_fares) => {
                let mut produced = pair(&to_fares, &from_fares);
                r.append(&mut produced);
            },
            FetchOutcome::Failure => {},
        }
        proof {
            assert(r@ =~= collected(all.take(done + 1)));
        }
    }
    proof {
        assert(all.take(all.len() as int) =~= all);
    }
    r
}

/// The collection of a single outcome is that outcome's contribution.
proof fn lemma_collected_singleton(o: FetchOutcome)
    ensures
        collected(seq![o]) == outcome_candidates(o),
{
    let s = seq![o];
    assert(s.drop_first() =~= Seq::<FetchOutcome>::empty());
    assert(collected(s.drop_first()) =~= Seq::<ReturnFlight>::empty());
    assert(collected(s) =~= outcome_candidates(o));
}

/// Recording one more outcome appends exactly its contribution.
proof fn lemma_collected_push(s: Seq<FetchOutcome>, o: FetchOutcome)
    ensures
        collected(s.push(o)) == collected(s) + outcome_candidates(o),
{
    lemma_collected_concat(s, seq![o]);
    lemma_collected_singleton(o);
    assert(s.push(o) =~= s + seq![o]);
}

/// The whole aggregation after the fan-out: fold all units' outcomes into
/// one candidate list and rank it by ascending total price, stably.
pub fn cheapest_from_outcomes(outcomes: Vec<FetchOutcome>) -> (r: Vec<ReturnFlight>)
    requires
        outcomes_fit(outcomes@),
    ensures
        sorted_by_price(r@),
        stable_reordering(collected(outcomes@), r@),
        r@.len() == collected(outcomes@).len(),
{
    let accumulated = collect_candidates(outcomes);
    rank(accumulated)
}

} // verus!
