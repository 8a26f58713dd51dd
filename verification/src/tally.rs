//! Counting and summing over a sequence of bottles, and why neither
//! depends on the order of the sequence.

use crate::bottle::{Bottle, Tier};
use vstd::prelude::*;
use vstd::seq_lib::{commutative_foldl, lemma_fold_left_permutation};

verus! {

/// Sum of `weight` over the bottles of `s`.
pub open spec fn total(s: Seq<Bottle>, weight: spec_fn(Bottle) -> nat) -> nat
    decreases s.len(),
{
    if s.len() == 0 {
        0
    } else {
        total(s.drop_last(), weight) + weight(s.last())
    }
}

/// Weighs a bottle of tier `t` as one and any other as nothing.
pub open spec fn one_per_bottle(t: Tier) -> spec_fn(Bottle) -> nat {
    |b: Bottle| if b.tier == t { 1nat } else { 0nat }
}

/// Weighs a bottle of tier `t` by its payout and any other as nothing.
pub open spec fn payout_per_bottle(t: Tier) -> spec_fn(Bottle) -> nat {
    |b: Bottle| if b.tier == t { b.sats as nat } else { 0nat }
}

/// Number of bottles of tier `t` in `s`.
pub open spec fn tier_count(s: Seq<Bottle>, t: Tier) -> nat {
    total(s, one_per_bottle(t))
}

/// Satoshis paid out by the bottles of tier `t` in `s`, taken together.
pub open spec fn tier_payout(s: Seq<Bottle>, t: Tier) -> nat {
    total(s, payout_per_bottle(t))
}

/// Appending a bottle adds its weight.
pub proof fn lemma_total_push(s: Seq<Bottle>, b: Bottle, weight: spec_fn(Bottle) -> nat)
    ensures
        total(s.push(b), weight) == total(s, weight) + weight(b),
{
    assert(s.push(b).drop_last() == s);
}

/// The total of a concatenation is the sum of the totals.
pub proof fn lemma_total_concat(a: Seq<Bottle>, b: Seq<Bottle>, weight: spec_fn(Bottle) -> nat)
    ensures
        total(a + b, weight) == total(a, weight) + total(b, weight),
    decreases b.len(),
{
    if b.len() == 0 {
        assert(a + b == a);
    } else {
        assert((a + b).drop_last() == a + b.drop_last());
        lemma_total_concat(a, b.drop_last(), weight);
    }
}

/// The total of a sequence that repeats one bottle.
pub proof fn lemma_total_repeat(s: Seq<Bottle>, b: Bottle, weight: spec_fn(Bottle) -> nat)
    requires
        forall|i: int| 0 <= i < s.len() ==> s[i] == b,
    ensures
        total(s, weight) == s.len() * weight(b),
    decreases s.len(),
{
    if s.len() > 0 {
        lemma_total_repeat(s.drop_last(), b, weight);
        assert(s.len() * weight(b) == s.drop_last().len() * weight(b) + weight(b))
            by (nonlinear_arith)
            requires
                s.len() == s.drop_last().len() + 1,
        ;
    }
}

/// Replacing one bottle changes the total by the difference of the two
/// weights.
pub proof fn lemma_total_update(
    s: Seq<Bottle>,
    i: int,
    b: Bottle,
    weight: spec_fn(Bottle) -> nat,
)
    requires
        0 <= i < s.len(),
    ensures
        total(s.update(i, b), weight) + weight(s[i]) == total(s, weight) + weight(b),
    decreases s.len(),
{
    if i == s.len() - 1 {
        assert(s.update(i, b).drop_last() == s.drop_last());
    } else {
        assert(s.update(i, b).drop_last() == s.drop_last().update(i, b));
        lemma_total_update(s.drop_last(), i, b, weight);
    }
}

/// Bottles that all weigh nothing total nothing.
pub proof fn lemma_total_zero(s: Seq<Bottle>, weight: spec_fn(Bottle) -> nat)
    requires
        forall|i: int| 0 <= i < s.len() ==> weight(#[trigger] s[i]) == 0,
    ensures
        total(s, weight) == 0,
    decreases s.len(),
{
    if s.len() > 0 {
        lemma_total_zero(s.drop_last(), weight);
    }
}

/// Where no bottle of `a` outweighs the bottle of `b` at its position,
/// `a` does not out-total `b`.
pub proof fn lemma_total_le(a: Seq<Bottle>, b: Seq<Bottle>, weight: spec_fn(Bottle) -> nat)
    requires
        a.len() == b.len(),
        forall|i: int| 0 <= i < a.len() ==> weight(#[trigger] a[i]) <= weight(b[i]),
    ensures
        total(a, weight) <= total(b, weight),
    decreases a.len(),
{
    if a.len() > 0 {
        lemma_total_le(a.drop_last(), b.drop_last(), weight);
    }
}

/// No single bottle outweighs the total.
pub proof fn lemma_total_member(s: Seq<Bottle>, i: int, weight: spec_fn(Bottle) -> nat)
    requires
        0 <= i < s.len(),
    ensures
        weight(s[i]) <= total(s, weight),
    decreases s.len(),
{
    if i < s.len() - 1 {
        lemma_total_member(s.drop_last(), i, weight);
    }
}

/// As many payouts as a slice can hold add up within 128 bits.
pub proof fn lemma_payouts_fit(n: nat)
    requires
        n <= usize::MAX,
    ensures
        n * u32::MAX <= u64::MAX * u32::MAX < u128::MAX,
{
    assert(n * u32::MAX <= u64::MAX * u32::MAX) by (nonlinear_arith)
        requires
            n <= u64::MAX,
    ;
}

/// A total never exceeds the length times a bound on the weights.
pub proof fn lemma_total_bound(s: Seq<Bottle>, weight: spec_fn(Bottle) -> nat, bound: nat)
    requires
        forall|b: Bottle| #[trigger] weight(b) <= bound,
    ensures
        total(s, weight) <= s.len() * bound,
    decreases s.len(),
{
    if s.len() > 0 {
        lemma_total_bound(s.drop_last(), weight, bound);
        assert(s.len() * bound == s.drop_last().len() * bound + bound) by (nonlinear_arith)
            requires
                s.len() == s.drop_last().len() + 1,
        ;
    }
}

/// Two sequences with the same bottles, in whatever order, have the same
/// total.
pub proof fn lemma_total_permutation(
    s1: Seq<Bottle>,
    s2: Seq<Bottle>,
    weight: spec_fn(Bottle) -> nat,
)
    requires
        s1.to_multiset() == s2.to_multiset(),
    ensures
        total(s1, weight) == total(s2, weight),
{
    let step = |acc: nat, b: Bottle| acc + weight(b);
    assert(commutative_foldl(step));
    lemma_total_is_fold(s1, weight);
    lemma_total_is_fold(s2, weight);
    lemma_fold_left_permutation(s1, s2, step, 0nat);
}

/// The total, written as a left fold that adds the weights up.
proof fn lemma_total_is_fold(s: Seq<Bottle>, weight: spec_fn(Bottle) -> nat)
    ensures
        total(s, weight) == s.fold_left(0nat, |acc: nat, b: Bottle| acc + weight(b)),
    decreases s.len(),
{
    if s.len() > 0 {
        lemma_total_is_fold(s.drop_last(), weight);
    }
}

/// Counts the bottles of tier `t`.
pub fn count_tier(bottles: &[Bottle], t: Tier) -> (n: usize)
    ensures
        n == tier_count(bottles@, t),
{
    let ghost weight = one_per_bottle(t);
    let mut n: usize = 0;
    let mut i: usize = 0;
    while i < bottles.len()
        invariant
            i <= bottles.len(),
            n <= i,
            n == total(bottles@.take(i as int), weight),
            weight == one_per_bottle(t),
        decreases bottles.len() - i,
    {
        proof {
            assert(bottles@.take(i + 1) == bottles@.take(i as int).push(bottles@[i as int]));
            lemma_total_push(bottles@.take(i as int), bottles@[i as int], weight);
        }
        if bottles[i].tier == t {
            n = n + 1;
        }
        i = i + 1;
    }
    assert(bottles@.take(i as int) == bottles@);
    n
}

/// Adds up the payouts of the bottles of tier `t`.
pub fn sum_tier(bottles: &[Bottle], t: Tier) -> (sats: u128)
    ensures
        sats == tier_payout(bottles@, t),
{
    let ghost weight = payout_per_bottle(t);
    let mut sats: u128 = 0;
    let mut i: usize = 0;
    while i < bottles.len()
        invariant
            i <= bottles.len(),
            sats <= i * u32::MAX,
            sats == total(bottles@.take(i as int), weight),
            weight == payout_per_bottle(t),
        decreases bottles.len() - i,
    {
        proof {
            assert(bottles@.take(i + 1) == bottles@.take(i as int).push(bottles@[i as int]));
            lemma_total_push(bottles@.take(i as int), bottles@[i as int], weight);
            assert(i * u32::MAX + u32::MAX == (i + 1) * u32::MAX) by (nonlinear_arith);
            lemma_payouts_fit((i + 1) as nat);
        }
        if bottles[i].tier == t {
            sats = sats + bottles[i].sats as u128;
        }
        i = i + 1;
    }
    assert(bottles@.take(i as int) == bottles@);
    sats
}

} // verus!
