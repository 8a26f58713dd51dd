//! From a cap in fiat cents to a budget in satoshis, and the running
//! state of the variable-tier allocation.

use crate::bottle::{Bottle, GenError, Tier, MAX_F, MIN_F, ONE_BTC_SATS, TIER_F_BOTTLES};
use vstd::prelude::*;

verus! {

/// Satoshis needed to pay every variable-tier bottle its minimum.
pub open spec fn min_budget() -> nat {
    (MIN_F * TIER_F_BOTTLES) as nat
}

/// Satoshis that pay every variable-tier bottle its maximum; the budget
/// when no cap is given.
pub open spec fn max_budget() -> nat {
    (MAX_F * TIER_F_BOTTLES) as nat
}

/// Satoshis that `cents` buy at `price` cents per bitcoin, rounded down.
pub open spec fn cents_to_sats(cents: nat, price: nat) -> nat
    recommends
        price > 0,
{
    cents * ONE_BTC_SATS as nat / price
}

/// Cents that `sats` are worth at `price` cents per bitcoin, rounded down.
pub open spec fn sats_to_cents(sats: nat, price: nat) -> nat {
    sats * price / ONE_BTC_SATS as nat
}

/// The satoshi budget of the variable tier. A cap of zero stands for "no
/// cap" and yields the budget that lets every bottle take the maximum.
pub open spec fn budget_sats(price: u64, cap: u64) -> nat
    recommends
        price > 0,
{
    if cap == 0 {
        max_budget()
    } else {
        cents_to_sats(cap as nat, price as nat)
    }
}

/// Whether the budget covers the minimum payout of every variable-tier
/// bottle.
pub open spec fn cap_sufficient(price: u64, cap: u64) -> bool
    recommends
        price > 0,
{
    budget_sats(price, cap) >= min_budget()
}

/// The two budget bounds, worked out.
pub proof fn lemma_budget_bounds()
    ensures
        min_budget() == 596_169,
        max_budget() == 14_194_500,
{
    assert(MIN_F * TIER_F_BOTTLES == 596_169) by (nonlinear_arith)
        requires
            MIN_F == 21,
            TIER_F_BOTTLES == 28_389,
    ;
    assert(MAX_F * TIER_F_BOTTLES == 14_194_500) by (nonlinear_arith)
        requires
            MAX_F == 500,
            TIER_F_BOTTLES == 28_389,
    ;
}

/// Converting a budget back to cents never gives more than the cents it
/// was bought with.
pub proof fn lemma_round_trip(sats: nat, cents: nat, price: nat)
    requires
        price > 0,
        sats <= cents_to_sats(cents, price),
    ensures
        sats_to_cents(sats, price) <= cents,
{
    let unit = ONE_BTC_SATS as nat;
    let bought = cents * unit / price;
    assert(bought * price <= cents * unit) by (nonlinear_arith)
        requires
            price > 0,
            bought == cents * unit / price,
    ;
    assert(sats * price <= bought * price) by (nonlinear_arith)
        requires
            sats <= bought,
    ;
    assert(sats * price / unit <= cents) by (nonlinear_arith)
        requires
            sats * price <= cents * unit,
            unit > 0,
    ;
}

/// Validates the inputs and computes the variable tier's budget in
/// satoshis. The price is looked at first: zero is `InvalidPrice`
/// whatever the cap. A cap that buys less than the minimum budget is
/// `CapTooLow`. The product of cap and satoshis per bitcoin is taken in
/// 128 bits, where it cannot overflow.
pub fn tier_f_budget(price: u64, cap: u64) -> (r: Result<u128, GenError>)
    ensures
        match r {
            Ok(budget) => price != 0 && cap_sufficient(price, cap) && budget == budget_sats(
                price,
                cap,
            ),
            Err(GenError::InvalidPrice) => price == 0,
            Err(GenError::CapTooLow) => price != 0 && !cap_sufficient(price, cap),
        },
{
    if price == 0 {
        return Err(GenError::InvalidPrice);
    }
    let budget: u128 = if cap == 0 {
        proof {
            lemma_budget_bounds();
        }
        MAX_F as u128 * TIER_F_BOTTLES as u128
    } else {
        assert(cap as u128 * ONE_BTC_SATS <= u128::MAX) by (nonlinear_arith)
            requires
                cap <= u64::MAX,
                ONE_BTC_SATS == 100_000_000,
        ;
        cap as u128 * ONE_BTC_SATS / price as u128
    };
    proof {
        lemma_budget_bounds();
    }
    let min_possible: u128 = MIN_F as u128 * TIER_F_BOTTLES as u128;
    if budget < min_possible {
        return Err(GenError::CapTooLow);
    }
    Ok(budget)
}

/// What `sats` satoshis are worth in cents at `price` cents per bitcoin,
/// rounded down. `None` when the product does not fit in 128 bits.
pub fn value_in_cents(sats: u128, price: u64) -> (r: Option<u128>)
    ensures
        match r {
            Some(cents) => cents == sats_to_cents(sats as nat, price as nat),
            None => sats * price > u128::MAX,
        },
{
    match sats.checked_mul(price as u128) {
        Some(product) => Some(product / ONE_BTC_SATS),
        None => None,
    }
}

/// Splits an amount in cents into whole euros and the cents left over.
pub fn euros_and_cents(amount: u128) -> (r: (u128, u128))
    ensures
        r.0 == amount / 100,
        r.1 == amount % 100,
        r.0 * 100 + r.1 == amount,
        r.1 < 100,
{
    (amount / 100, amount % 100)
}

/// The minimum for `remaining` bottles is the reserve for all but one of
/// them plus one minimum.
proof fn lemma_reserve_step(remaining: u32)
    ensures
        MIN_F * remaining == MIN_F * (remaining - 1) + MIN_F,
{
    assert(MIN_F * remaining == MIN_F * (remaining - 1) + MIN_F) by (nonlinear_arith);
}

/// Where the variable-tier allocation stands: how many bottles still
/// await a payout, and how many satoshis are left to pay them.
#[derive(Copy, Clone, Debug)]
pub struct Allocation {
    pub remaining: u32,
    pub budget: u128,
}

impl Allocation {
    /// The budget pays every remaining bottle at least the minimum.
    pub open spec fn funded(self) -> bool {
        self.budget >= MIN_F * self.remaining
    }

    /// Satoshis to hold back so that every bottle after the next one can
    /// still receive the minimum.
    pub open spec fn spec_reserve(self) -> nat
        recommends
            self.remaining >= 1,
    {
        (MIN_F * (self.remaining - 1)) as nat
    }

    /// Largest payout the next bottle may take: the maximum, or what the
    /// budget leaves above the reserve if that is less.
    pub open spec fn spec_feasible_max(self) -> nat
        recommends
            self.remaining >= 1,
    {
        let spare = if self.budget >= self.spec_reserve() {
            (self.budget - self.spec_reserve()) as nat
        } else {
            0
        };
        if spare < MAX_F {
            spare
        } else {
            MAX_F as nat
        }
    }

    /// The allocation before any variable-tier bottle has been paid.
    pub fn start(budget: u128) -> (state: Allocation)
        ensures
            state == (Allocation { remaining: TIER_F_BOTTLES, budget }),
            budget >= min_budget() ==> state.funded(),
    {
        Allocation { remaining: TIER_F_BOTTLES, budget }
    }

    /// See [`Allocation::spec_reserve`].
    pub fn reserve(&self) -> (sats: u128)
        requires
            self.remaining >= 1,
        ensures
            sats == self.spec_reserve(),
    {
        let rest: u32 = self.remaining - 1;
        assert(MIN_F * rest <= u128::MAX) by (nonlinear_arith)
            requires
                MIN_F == 21,
                rest <= u32::MAX,
        ;
        MIN_F as u128 * rest as u128
    }

    /// See [`Allocation::spec_feasible_max`]. On a funded allocation the
    /// result is never below the minimum payout, so the range to draw
    /// from is never empty.
    pub fn feasible_max(&self) -> (sats: u32)
        requires
            self.remaining >= 1,
        ensures
            sats == self.spec_feasible_max(),
            sats <= MAX_F,
            self.funded() ==> MIN_F <= sats,
    {
        let spare: u128 = self.budget.saturating_sub(self.reserve());
        proof {
            lemma_reserve_step(self.remaining);
        }
        if spare < MAX_F as u128 {
            spare as u32
        } else {
            MAX_F
        }
    }

    /// Pays `payout` to the next bottle and returns that bottle. The
    /// payout may be any value of the feasible range; whichever it is,
    /// the allocation stays funded.
    pub fn assign(&mut self, payout: u32) -> (bottle: Bottle)
        requires
            old(self).remaining >= 1,
            old(self).funded(),
            MIN_F <= payout <= old(self).spec_feasible_max(),
        ensures
            final(self).remaining == old(self).remaining - 1,
            final(self).budget == old(self).budget - payout,
            final(self).funded(),
            bottle == (Bottle { tier: Tier::F, sats: payout, claimed: false }),
    {
        proof {
            lemma_reserve_step(self.remaining);
        }
        self.budget = self.budget - payout as u128;
        self.remaining = self.remaining - 1;
        Bottle { tier: Tier::F, sats: payout, claimed: false }
    }
}

} // verus!
