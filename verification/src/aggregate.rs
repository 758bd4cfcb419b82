//! Pairing of one date pair's two one-way result sets into priced
//! round-trip candidates: the full cross product of outbound and inbound
//! quotes, with the total price of each combination.

use vstd::prelude::*;
use crate::fare::{Fare, Price, ReturnFlight};

verus! {

/// The round-trip candidate built from one outbound and one inbound quote.
/// The total price sums both amounts; its currency metadata is taken from
/// the inbound quote.
pub open spec fn round_trip_of(to_dest: Fare, from_dest: Fare) -> ReturnFlight {
    ReturnFlight {
        to_destination: to_dest,
        from_destination: from_dest,
        price: Price {
            value: (from_dest.summary.price.value + to_dest.summary.price.value) as u64,
            currency_code: from_dest.summary.price.currency_code,
            currency_symbol: from_dest.summary.price.currency_symbol,
        },
    }
}

/// One outbound quote paired with every inbound quote, in order.
pub open spec fn pair_row(to_dest: Fare, from_fares: Seq<Fare>) -> Seq<ReturnFlight> {
    Seq::new(from_fares.len(), |j: int| round_trip_of(to_dest, from_fares[j]))
}

/// The full cross product, row by row: every outbound quote paired with
/// every inbound quote.
pub open spec fn pair_seq(to_fares: Seq<Fare>, from_fares: Seq<Fare>) -> Seq<ReturnFlight>
    decreases to_fares.len(),
{
    if to_fares.len() == 0 {
        Seq::empty()
    } else {
        pair_row(to_fares[0], from_fares) + pair_seq(to_fares.drop_first(), from_fares)
    }
}

/// Appending an outbound quote appends its row of combinations.
pub proof fn lemma_pair_seq_push(to_fares: Seq<Fare>, from_fares: Seq<Fare>, x: Fare)
    ensures
        pair_seq(to_fares.push(x), from_fares) == pair_seq(to_fares, from_fares) + pair_row(
            x,
            from_fares,
        ),
    decreases to_fares.len(),
{
    let pushed = to_fares.push(x);
    if to_fares.len() == 0 {
        assert(pushed.drop_first() =~= Seq::<Fare>::empty());
        assert(pair_seq(pushed.drop_first(), from_fares) =~= Seq::<ReturnFlight>::empty());
        assert(pair_seq(to_fares, from_fares) =~= Seq::<ReturnFlight>::empty());
        assert(pair_seq(pushed, from_fares) =~= pair_row(x, from_fares) + Seq::<
            ReturnFlight,
        >::empty());
        assert(pair_row(pushed[0], from_fares) == pair_row(x, from_fares));
        assert(pair_seq(to_fares, from_fares) + pair_row(x, from_fares) =~= pair_row(
            x,
            from_fares,
        ));
    } else {
        assert(pushed.drop_first() =~= to_fares.drop_first().push(x));
        lemma_pair_seq_push(to_fares.drop_first(), from_fares, x);
        assert(pushed[0] == to_fares[0]);
        assert(pair_seq(pushed, from_fares) =~= pair_seq(to_fares, from_fares) + pair_row(
            x,
            from_fares,
        ));
    }
}

/// The cross product of m outbound and n inbound quotes has exactly m * n
/// members.
pub proof fn lemma_pair_seq_len(to_fares: Seq<Fare>, from_fares: Seq<Fare>)
    ensures
        pair_seq(to_fares, from_fares).len() == to_fares.len() * from_fares.len(),
    decreases to_fares.len(),
{
    if to_fares.len() == 0 {
    } else {
        lemma_pair_seq_len(to_fares.drop_first(), from_fares);
        assert((to_fares.len() - 1) * from_fares.len() + from_fares.len() == to_fares.len()
            * from_fares.len()) by (nonlinear_arith);
    }
}

/// The cross product with an empty side is empty: no partial candidates.
pub proof fn lemma_pair_seq_empty(to_fares: Seq<Fare>, from_fares: Seq<Fare>)
    requires
        to_fares.len() == 0 || from_fares.len() == 0,
    ensures
        pair_seq(to_fares, from_fares) == Seq::<ReturnFlight>::empty(),
{
    lemma_pair_seq_len(to_fares, from_fares);
    assert(pair_seq(to_fares, from_fares) =~= Seq::<ReturnFlight>::empty());
}

/// Every amount that pairing `to_fares` with `from_fares` would sum stays
/// within the machine's price range.
pub open spec fn sums_fit(to_fares: Seq<Fare>, from_fares: Seq<Fare>) -> bool {
    forall|i: int, j: int|
        0 <= i < to_fares.len() && 0 <= j < from_fares.len()
            ==> (#[trigger] to_fares[i]).summary.price.value
            + (#[trigger] from_fares[j]).summary.price.value <= u64::MAX
}

/// Cross-join two one-way result sets into priced round-trip candidates.
///
/// Emits one candidate per (outbound, inbound) combination, outbound-major
/// in input order — exactly m * n candidates for m outbound and n inbound
/// quotes, and none when either side is empty.
pub fn pair(to_fares: &Vec<Fare>, from_fares: &Vec<Fare>) -> (r: Vec<ReturnFlight>)
    requires
        sums_fit(to_fares@, from_fares@),
    ensures
        r@ == pair_seq(to_fares@, from_fares@),
        r@.len() == to_fares@.len() * from_fares@.len(),
{
    let mut r: Vec<ReturnFlight> = Vec::new();
    let mut i: usize = 0;
    proof {
        assert(to_fares@.take(0) =~= Seq::<Fare>::empty());
    }
    while i < to_fares.len()
        invariant
            i <= to_fares@.len(),
            sums_fit(to_fares@, from_fares@),
            r@ == pair_seq(to_fares@.take(i as int), from_fares@),
        decreases to_fares@.len() - i,
    {
        let mut j: usize = 0;
        proof {
            assert(pair_row(to_fares@[i as int], from_fares@).take(0) =~= Seq::<
                ReturnFlight,
            >::empty());
            assert(r@ =~= pair_seq(to_fares@.take(i as int), from_fares@) + pair_row(
                to_fares@[i as int],
                from_fares@,
            ).take(0));
        }
        while j < from_fares.len()
            invariant
                i < to_fares@.len(),
                j <= from_fares@.len(),
                sums_fit(to_fares@, from_fares@),
                r@ == pair_seq(to_fares@.take(i as int), from_fares@) + pair_row(
                    to_fares@[i as int],
                    from_fares@,
                ).take(j as int),
            decreases from_fares@.len() - j,
        {
            let to_dest = &to_fares[i];
            let from_dest = &from_fares[j];
            proof {
                assert(to_fares@[i as int].summary.price.value + from_fares@[
                    j as int].summary.price.value <= u64::MAX);
            }
            let total = from_dest.summary.price.plus(&to_dest.summary.price);
            let candidate = ReturnFlight {
                to_destination: to_dest.clone(),
                from_destination: from_dest.clone(),
                price: total,
            };
            r.push(candidate);
            proof {
                let row = pair_row(to_fares@[i as int], from_fares@);
                assert(row.take(j + 1) =~= row.take(j as int).push(row[j as int]));
            }
            j = j + 1;
        }
        proof {
            let row = pair_row(to_fares@[i as int], from_fares@);
            assert(row.take(from_fares@.len() as int) =~= row);
            lemma_pair_seq_push(to_fares@.take(i as int), from_fares@, to_fares@[i as int]);
            assert(to_fares@.take(i + 1) =~= to_fares@.take(i as int).push(to_fares@[i as int]));
        }
        i = i + 1;
    }
    proof {
        assert(to_fares@.take(to_fares@.len() as int) =~= to_fares@);
        lemma_pair_seq_len(to_fares@, from_fares@);
    }
    r
}

} // verus!
