//! Ranking of round-trip candidates by ascending total price.
//!
//! The sort is stable: candidates with equal total price keep their relative
//! input order.  Stability and permutation are captured together by one
//! exact property: for every price, the subsequence of candidates at that
//! price is unchanged.

use vstd::prelude::*;
use crate::fare::ReturnFlight;

verus! {

/// The sort key: the total price's amount in minor units.
pub open spec fn price_key(r: ReturnFlight) -> int {
    r.price.value as int
}

/// The predicate "costs exactly `k`", shared by every filter below so that
/// equal filters stay syntactically equal.
pub open spec fn has_price(k: int) -> spec_fn(ReturnFlight) -> bool {
    |r: ReturnFlight| price_key(r) == k
}

/// The subsequence of candidates whose total price is exactly `k`, in order.
pub open spec fn entries_with_price(s: Seq<ReturnFlight>, k: int) -> Seq<ReturnFlight> {
    s.filter(has_price(k))
}

/// Total prices never decrease along the sequence.
pub open spec fn sorted_by_price(s: Seq<ReturnFlight>) -> bool {
    forall|i: int, j: int| 0 <= i <= j < s.len() ==> price_key(s[i]) <= price_key(s[j])
}

/// `b` is `a` stably reordered: for every price, both hold the same
/// candidates at that price in the same relative order.  This pins `b` as a
/// permutation of `a` and as stable at once.
pub open spec fn stable_reordering(a: Seq<ReturnFlight>, b: Seq<ReturnFlight>) -> bool {
    forall|k: int| (#[trigger] entries_with_price(a, k)) == entries_with_price(b, k)
}

/// Filtering a sequence where nothing matches gives the empty sequence.
proof fn lemma_filter_none(s: Seq<ReturnFlight>, pred: spec_fn(ReturnFlight) -> bool)
    requires
        forall|i: int| 0 <= i < s.len() ==> !pred(s[i]),
    ensures
        s.filter(pred) == Seq::<ReturnFlight>::empty(),
    decreases s.len(),
{
    reveal(Seq::filter);
    if s.len() > 0 {
        lemma_filter_none(s.drop_last(), pred);
    }
    assert(s.filter(pred) =~= Seq::<ReturnFlight>::empty());
}

/// Appending one candidate extends exactly the filter at its own price.
proof fn lemma_entries_push(s: Seq<ReturnFlight>, x: ReturnFlight)
    ensures
        entries_with_price(s.push(x), price_key(x)) == entries_with_price(s, price_key(x)).push(x),
        forall|k: int|
            k != price_key(x) ==> (#[trigger] entries_with_price(s.push(x), k))
                == entries_with_price(s, k),
{
    reveal(Seq::filter);
    assert(s.push(x).drop_last() =~= s);
    assert(s.push(x).last() == x);
    assert forall|k: int| k != price_key(x) implies (#[trigger] entries_with_price(s.push(x), k))
        == entries_with_price(s, k) by {
        assert(!(has_price(k)(x)));
    };
}

/// Inserting a candidate between the keys at or below its price and those
/// strictly above keeps the sequence sorted, appends it to the filter at its
/// own price, and leaves every other filter unchanged.
proof fn lemma_insert_step(s: Seq<ReturnFlight>, x: ReturnFlight, pos: int)
    requires
        sorted_by_price(s),
        0 <= pos <= s.len(),
        forall|i: int| 0 <= i < pos ==> price_key(s[i]) <= price_key(x),
        forall|i: int| pos <= i < s.len() ==> price_key(s[i]) > price_key(x),
    ensures
        sorted_by_price(s.insert(pos, x)),
        entries_with_price(s.insert(pos, x), price_key(x)) == entries_with_price(
            s,
            price_key(x),
        ).push(x),
        forall|k: int|
            k != price_key(x) ==> (#[trigger] entries_with_price(s.insert(pos, x), k))
                == entries_with_price(s, k),
{
    broadcast use vstd::seq_lib::group_seq_properties;

    let kx = price_key(x);
    let a = s.subrange(0, pos);
    let b = s.subrange(pos, s.len() as int);
    let t = s.insert(pos, x);
    assert(s =~= a + b);
    assert(t =~= a.push(x) + b);
    assert(sorted_by_price(t)) by {
        assert forall|i: int, j: int| 0 <= i <= j < t.len() implies price_key(t[i]) <= price_key(
            t[j],
        ) by {
            if i < pos {
                assert(t[i] == s[i]);
            } else if i == pos {
                assert(t[i] == x);
            } else {
                assert(t[i] == s[i - 1]);
            }
            if j < pos {
                assert(t[j] == s[j]);
            } else if j == pos {
                assert(t[j] == x);
            } else {
                assert(t[j] == s[j - 1]);
            }
        };
    };
    reveal(Seq::filter);
    assert(a.push(x).drop_last() =~= a);
    Seq::filter_distributes_over_add(a, b, has_price(kx));
    Seq::filter_distributes_over_add(a.push(x), b, has_price(kx));
    lemma_filter_none(b, has_price(kx));
    assert(entries_with_price(t, kx) =~= entries_with_price(s, kx).push(x));
    assert forall|k: int| k != kx implies (#[trigger] entries_with_price(t, k))
        == entries_with_price(s, k) by {
        Seq::filter_distributes_over_add(a, b, has_price(k));
        Seq::filter_distributes_over_add(a.push(x), b, has_price(k));
        assert(!(has_price(k)(x)));
        assert(a.push(x).filter(has_price(k)) == a.filter(has_price(k)));
        assert(entries_with_price(t, k) =~= entries_with_price(s, k));
    };
}

/// Sort round-trip candidates by ascending total price, stably.
///
/// The result is non-decreasing in total price, and for every price it
/// holds exactly the input's candidates at that price, in their input
/// order: a stable permutation of the input.
pub fn rank(candidates: Vec<ReturnFlight>) -> (r: Vec<ReturnFlight>)
    ensures
        sorted_by_price(r@),
        stable_reordering(candidates@, r@),
        r@.len() == candidates@.len(),
{
    let ghost orig = candidates@;
    let mut rest = candidates;
    let mut out: Vec<ReturnFlight> = Vec::new();
    proof {
        assert(orig.take(0) =~= Seq::<ReturnFlight>::empty());
        assert(rest@ =~= orig.subrange(0, orig.len() as int));
        assert forall|k: int| (#[trigger] entries_with_price(out@, k)) == entries_with_price(
            orig.take(0),
            k,
        ) by {
            lemma_filter_none(out@, has_price(k));
            lemma_filter_none(orig.take(0), has_price(k));
        };
    }
    while rest.len() > 0
        invariant
            rest@.len() <= orig.len(),
            rest@ == orig.subrange(orig.len() - rest@.len(), orig.len() as int),
            out@.len() + rest@.len() == orig.len(),
            sorted_by_price(out@),
            forall|k: int|
                (#[trigger] entries_with_price(out@, k)) == entries_with_price(
                    orig.take(orig.len() - rest@.len()),
                    k,
                ),
        decreases rest@.len(),
    {
        let ghost done = orig.len() - rest@.len();
        let x = rest.remove(0);
        proof {
            assert(x == orig[done]);
            assert(rest@ =~= orig.subrange(orig.len() - rest@.len(), orig.len() as int));
        }
        let mut pos: usize = 0;
        while pos < out.len() && out[pos].price.value <= x.price.value
            invariant
                pos <= out@.len(),
                sorted_by_price(out@),
                forall|i: int| 0 <= i < pos ==> price_key(out@[i]) <= price_key(x),
            decreases out@.len() - pos,
        {
            pos = pos + 1;
        }
        proof {
            assert forall|i: int| pos <= i < out@.len() implies price_key(out@[i]) > price_key(
                x,
            ) by {
                assert(price_key(out@[pos as int]) <= price_key(out@[i]));
            };
            lemma_insert_step(out@, x, pos as int);
            assert(orig.take(done + 1) =~= orig.take(done).push(x));
            lemma_entries_push(orig.take(done), x);
        }
        out.insert(pos, x);
    }
    proof {
        assert(orig.take(orig.len() as int) =~= orig);
    }
    out
}

} // verus!
