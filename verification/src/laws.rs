//! What follows from the contract of generation, for every price, every
//! cap, and every outcome the random source allows.

use crate::bottle::{Bottle, GenError, Tier, ONE_BTC_SATS};
use crate::budget::{
    budget_sats, cap_sufficient, lemma_budget_bounds, lemma_round_trip, min_budget,
    sats_to_cents,
};
use crate::distribution::generation_outcome;
use crate::tally::{tier_count, tier_payout};
use vstd::prelude::*;

verus! {

/// The cap, in cents, that the minimum budget is worth at `price`,
/// rounded down.
pub open spec fn threshold_cents(price: u64) -> nat {
    sats_to_cents(min_budget(), price as nat)
}

/// A nonzero cap is sufficient exactly when the satoshis it buys, before
/// rounding, reach the minimum budget.
pub proof fn law_sufficient_cap(price: u64, cap: u64)
    requires
        price != 0,
    ensures
        cap_sufficient(price, cap) <==> cap == 0 || cap * ONE_BTC_SATS >= min_budget() * price,
{
    lemma_budget_bounds();
    if cap != 0 {
        let unit = ONE_BTC_SATS as int;
        let bought = cap * unit;
        let need = min_budget() as int;
        let p = price as int;
        assert(bought / p >= need <==> bought >= need * p) by (nonlinear_arith)
            requires
                p > 0,
                bought >= 0,
                need >= 0,
        ;
    }
}

/// Without a cap every nonzero price succeeds: 31 500 bottles come back,
/// one of tier A, 10 of B, 100 of C, 1 000 of D, 2 000 of E and 28 389 of
/// F, and every tier-F payout lies between 21 and 500 satoshis.
pub proof fn law_no_cap(price: u64, r: Result<Vec<Bottle>, GenError>)
    requires
        price != 0,
        generation_outcome(price, 0, r),
    ensures
        r is Ok,
        r->Ok_0@.len() == 31_500,
        tier_count(r->Ok_0@, Tier::A) == 1,
        tier_count(r->Ok_0@, Tier::B) == 10,
        tier_count(r->Ok_0@, Tier::C) == 100,
        tier_count(r->Ok_0@, Tier::D) == 1_000,
        tier_count(r->Ok_0@, Tier::E) == 2_000,
        tier_count(r->Ok_0@, Tier::F) == 28_389,
        forall|i: int|
            0 <= i < r->Ok_0@.len() && (#[trigger] r->Ok_0@[i]).tier == Tier::F ==> 21
                <= r->Ok_0@[i].sats <= 500,
{
    lemma_budget_bounds();
    let s = r->Ok_0@;
    assert(tier_count(s, Tier::A) == Tier::A.quota());
    assert(tier_count(s, Tier::B) == Tier::B.quota());
    assert(tier_count(s, Tier::C) == Tier::C.quota());
    assert(tier_count(s, Tier::D) == Tier::D.quota());
    assert(tier_count(s, Tier::E) == Tier::E.quota());
    assert(tier_count(s, Tier::F) == Tier::F.quota());
    assert forall|i: int| 0 <= i < s.len() && (#[trigger] s[i]).tier == Tier::F implies 21
        <= s[i].sats <= 500 by {
        assert(s[i].fresh());
    }
}

/// A zero price is rejected as invalid, whatever the cap.
pub proof fn law_zero_price(cap: u64, r: Result<Vec<Bottle>, GenError>)
    requires
        generation_outcome(0, cap, r),
    ensures
        r == Err::<Vec<Bottle>, GenError>(GenError::InvalidPrice),
{
}

/// Around the threshold: a nonzero cap below it is too low, and a cap
/// above it succeeds. A cap equal to the threshold succeeds when the
/// threshold is exact, that is when rounding dropped nothing.
///
/// Two inputs are left out because the outcome differs from what the
/// threshold alone suggests. A cap of zero means "no cap" and succeeds
/// although it lies below any positive threshold. A nonzero cap equal to
/// a threshold that was rounded down buys one satoshi too few and is
/// rejected.
pub proof fn law_threshold(price: u64, cap: u64, r: Result<Vec<Bottle>, GenError>)
    requires
        price != 0,
        generation_outcome(price, cap, r),
        !(cap == 0 && threshold_cents(price) > 0),
        !(cap != 0 && cap == threshold_cents(price) && (min_budget() * price)
            % ONE_BTC_SATS as int != 0),
    ensures
        cap < threshold_cents(price) ==> r == Err::<Vec<Bottle>, GenError>(GenError::CapTooLow),
        cap >= threshold_cents(price) ==> r is Ok,
{
    lemma_budget_bounds();
    law_sufficient_cap(price, cap);
    let unit = ONE_BTC_SATS as int;
    let worth = min_budget() * price;
    let threshold = threshold_cents(price) as int;
    assert(threshold == worth / unit);
    assert(threshold * unit <= worth < threshold * unit + unit && (worth % unit == 0 ==> worth
        == threshold * unit)) by (nonlinear_arith)
        requires
            threshold == worth / unit,
            unit > 0,
            worth >= 0,
    ;
    if cap != 0 {
        let c = cap as int;
        if c < threshold {
            assert(c * unit <= threshold * unit - unit) by (nonlinear_arith)
                requires
                    c + 1 <= threshold,
                    unit > 0,
            ;
        } else if c > threshold {
            assert(c * unit >= threshold * unit + unit) by (nonlinear_arith)
                requires
                    c >= threshold + 1,
                    unit > 0,
            ;
        }
    }
}

/// With a nonzero cap, the tier-F payouts of any distribution that comes
/// back are worth no more than the cap, at the price given and rounded
/// down to the cent.
pub proof fn law_cap_respected(price: u64, cap: u64, r: Result<Vec<Bottle>, GenError>)
    requires
        cap != 0,
        generation_outcome(price, cap, r),
        r is Ok,
    ensures
        sats_to_cents(tier_payout(r->Ok_0@, Tier::F), price as nat) <= cap,
{
    lemma_round_trip(tier_payout(r->Ok_0@, Tier::F), cap as nat, price as nat);
}

/// Two runs on the same inputs agree on everything but the draws: both
/// fail with the same error, or both succeed with identical tier counts,
/// and each on its own keeps its tier-F payouts within the budget.
pub proof fn law_repeatable(
    price: u64,
    cap: u64,
    first: Result<Vec<Bottle>, GenError>,
    second: Result<Vec<Bottle>, GenError>,
)
    requires
        generation_outcome(price, cap, first),
        generation_outcome(price, cap, second),
    ensures
        first is Err ==> second == first,
        first is Ok ==> second is Ok,
        first is Ok ==> first->Ok_0@.len() == second->Ok_0@.len(),
        first is Ok ==> forall|t: Tier|
            tier_count(first->Ok_0@, t) == tier_count(second->Ok_0@, t),
        first is Ok ==> tier_payout(first->Ok_0@, Tier::F) <= budget_sats(price, cap)
            && tier_payout(second->Ok_0@, Tier::F) <= budget_sats(price, cap),
        first is Ok && cap != 0 ==> sats_to_cents(
            tier_payout(first->Ok_0@, Tier::F),
            price as nat,
        ) <= cap && sats_to_cents(tier_payout(second->Ok_0@, Tier::F), price as nat) <= cap,
{
    if first is Ok {
        let a = first->Ok_0@;
        let b = second->Ok_0@;
        assert forall|t: Tier| tier_count(a, t) == tier_count(b, t) by {
            assert(tier_count(a, t) == t.quota());
            assert(tier_count(b, t) == t.quota());
        }
        if cap != 0 {
            law_cap_respected(price, cap, first);
            law_cap_respected(price, cap, second);
        }
    }
}

} // verus!
