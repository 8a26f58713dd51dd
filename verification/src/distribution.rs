//! What a distribution is, and how one is put together.

use crate::bottle::{Bottle, GenError, Tier, MIN_F, TIER_F_BOTTLES, TOTAL_BOTTLES};
use crate::budget::{
    budget_sats, cap_sufficient, lemma_budget_bounds, lemma_round_trip, min_budget,
    sats_to_cents, tier_f_budget, Allocation,
};
use crate::random::{draw_inclusive, shuffle};
use crate::tally::{
    count_tier, lemma_total_concat, lemma_total_permutation, lemma_total_push,
    lemma_total_repeat, one_per_bottle, payout_per_bottle, sum_tier, tier_count, tier_payout,
};
use rand::rngs::ThreadRng;
use vstd::prelude::*;

verus! {

/// The bottles of one fixed tier, as generation lays them down.
pub open spec fn fixed_run(t: Tier) -> Seq<Bottle> {
    Seq::new(
        t.quota(),
        |i: int| Bottle { tier: t, sats: t.min_payout() as u32, claimed: false },
    )
}

/// The bottles of the five fixed tiers, tier after tier.
pub open spec fn fixed_part() -> Seq<Bottle> {
    fixed_run(Tier::A) + fixed_run(Tier::B) + fixed_run(Tier::C) + fixed_run(Tier::D)
        + fixed_run(Tier::E)
}

/// The variable tier on its own: the full count of tier-F bottles, each
/// unclaimed and within the payout range, that together stay within
/// `budget` satoshis.
pub open spec fn is_variable_tier(s: Seq<Bottle>, budget: nat) -> bool {
    &&& s.len() == TIER_F_BOTTLES
    &&& forall|i: int| 0 <= i < s.len() ==> (#[trigger] s[i]).tier == Tier::F && s[i].fresh()
    &&& tier_payout(s, Tier::F) <= budget
}

/// A complete distribution: 31 500 unclaimed bottles, every tier holding
/// its quota, every payout within the range of its tier. The order of the
/// bottles carries no meaning.
pub open spec fn is_distribution(s: Seq<Bottle>) -> bool {
    &&& s.len() == TOTAL_BOTTLES
    &&& forall|t: Tier| #[trigger] tier_count(s, t) == t.quota()
    &&& forall|i: int| 0 <= i < s.len() ==> (#[trigger] s[i]).fresh()
}

/// `s` is a distribution that generation may hand out for `price` and
/// `cap`: the inputs are valid, and the variable tier stays within the
/// budget they give.
pub open spec fn acceptable(s: Seq<Bottle>, price: u64, cap: u64) -> bool {
    &&& price != 0
    &&& cap_sufficient(price, cap)
    &&& is_distribution(s)
    &&& tier_payout(s, Tier::F) <= budget_sats(price, cap)
}

/// What generation owes for a price and a cap: the error that the inputs
/// call for, or else an acceptable distribution.
pub open spec fn generation_outcome(
    price: u64,
    cap: u64,
    r: Result<Vec<Bottle>, GenError>,
) -> bool {
    match r {
        Ok(dist) => acceptable(dist@, price, cap),
        Err(GenError::InvalidPrice) => price == 0,
        Err(GenError::CapTooLow) => price != 0 && !cap_sufficient(price, cap),
    }
}

/// Counts and payouts of one fixed run.
proof fn lemma_fixed_run(t: Tier, u: Tier)
    requires
        t.is_fixed(),
    ensures
        tier_count(fixed_run(t), u) == if u == t { t.quota() } else { 0 },
        tier_payout(fixed_run(t), Tier::F) == 0,
{
    let b = Bottle { tier: t, sats: t.min_payout() as u32, claimed: false };
    lemma_total_repeat(fixed_run(t), b, one_per_bottle(u));
    lemma_total_repeat(fixed_run(t), b, payout_per_bottle(Tier::F));
    assert(one_per_bottle(u)(b) == if u == t { 1nat } else { 0nat });
    assert(payout_per_bottle(Tier::F)(b) == 0);
    assert(fixed_run(t).len() * 1 == fixed_run(t).len() && fixed_run(t).len() * 0 == 0)
        by (nonlinear_arith);
}

/// The fixed part holds the quota of every fixed tier and nothing of the
/// variable one.
pub proof fn lemma_fixed_part()
    ensures
        fixed_part().len() == TOTAL_BOTTLES - TIER_F_BOTTLES,
        forall|t: Tier| #[trigger]
            tier_count(fixed_part(), t) == if t.is_fixed() { t.quota() } else { 0 },
        forall|i: int| 0 <= i < fixed_part().len() ==> (#[trigger] fixed_part()[i]).fresh(),
        tier_payout(fixed_part(), Tier::F) == 0,
{
    let a = fixed_run(Tier::A);
    let ab = a + fixed_run(Tier::B);
    let abc = ab + fixed_run(Tier::C);
    let abcd = abc + fixed_run(Tier::D);
    assert forall|t: Tier| #[trigger]
        tier_count(fixed_part(), t) == if t.is_fixed() { t.quota() } else { 0 } by {
        let w = one_per_bottle(t);
        lemma_fixed_run(Tier::A, t);
        lemma_fixed_run(Tier::B, t);
        lemma_fixed_run(Tier::C, t);
        lemma_fixed_run(Tier::D, t);
        lemma_fixed_run(Tier::E, t);
        lemma_total_concat(a, fixed_run(Tier::B), w);
        lemma_total_concat(ab, fixed_run(Tier::C), w);
        lemma_total_concat(abc, fixed_run(Tier::D), w);
        lemma_total_concat(abcd, fixed_run(Tier::E), w);
    }
    let w = payout_per_bottle(Tier::F);
    lemma_fixed_run(Tier::A, Tier::F);
    lemma_fixed_run(Tier::B, Tier::F);
    lemma_fixed_run(Tier::C, Tier::F);
    lemma_fixed_run(Tier::D, Tier::F);
    lemma_fixed_run(Tier::E, Tier::F);
    lemma_total_concat(a, fixed_run(Tier::B), w);
    lemma_total_concat(ab, fixed_run(Tier::C), w);
    lemma_total_concat(abc, fixed_run(Tier::D), w);
    lemma_total_concat(abcd, fixed_run(Tier::E), w);
}

/// The fixed part followed by a variable tier is a distribution, and its
/// tier-F payout is that of the variable tier.
pub proof fn lemma_assemble(variable: Seq<Bottle>, budget: nat)
    requires
        is_variable_tier(variable, budget),
    ensures
        is_distribution(fixed_part() + variable),
        tier_payout(fixed_part() + variable, Tier::F) == tier_payout(variable, Tier::F),
{
    let s = fixed_part() + variable;
    lemma_fixed_part();
    assert forall|t: Tier| #[trigger] tier_count(s, t) == t.quota() by {
        let w = one_per_bottle(t);
        lemma_total_concat(fixed_part(), variable, w);
        assert(tier_count(fixed_part(), t) == if t.is_fixed() { t.quota() } else { 0 });
        if t == Tier::F {
            lemma_count_uniform(variable, t);
        } else {
            lemma_count_absent(variable, t);
        }
    }
    lemma_total_concat(
        fixed_part(),
        variable,
        payout_per_bottle(Tier::F),
    );
    assert forall|i: int| 0 <= i < s.len() implies (#[trigger] s[i]).fresh() by {
        if i < fixed_part().len() {
            assert(s[i] == fixed_part()[i]);
        } else {
            assert(s[i] == variable[i - fixed_part().len()]);
        }
    }
}

/// A sequence of bottles of one tier counts in full for that tier.
proof fn lemma_count_uniform(s: Seq<Bottle>, t: Tier)
    requires
        forall|i: int| 0 <= i < s.len() ==> (#[trigger] s[i]).tier == t,
    ensures
        tier_count(s, t) == s.len(),
    decreases s.len(),
{
    if s.len() > 0 {
        lemma_count_uniform(s.drop_last(), t);
    }
}

/// A sequence without bottles of a tier counts zero for that tier.
proof fn lemma_count_absent(s: Seq<Bottle>, t: Tier)
    requires
        forall|i: int| 0 <= i < s.len() ==> (#[trigger] s[i]).tier != t,
    ensures
        tier_count(s, t) == 0,
    decreases s.len(),
{
    if s.len() > 0 {
        lemma_count_absent(s.drop_last(), t);
    }
}

/// Reordering a distribution gives a distribution with the same payouts.
pub proof fn lemma_reorder(s1: Seq<Bottle>, s2: Seq<Bottle>)
    requires
        s1.to_multiset() == s2.to_multiset(),
        is_distribution(s1),
    ensures
        is_distribution(s2),
        forall|t: Tier| #[trigger] tier_payout(s2, t) == tier_payout(s1, t),
{
    broadcast use vstd::seq_lib::group_to_multiset_ensures;

    assert(s1.len() == s2.len()) by {
        vstd::seq_lib::to_multiset_len(s1);
        vstd::seq_lib::to_multiset_len(s2);
    }
    assert forall|t: Tier| #[trigger] tier_count(s2, t) == t.quota() by {
        lemma_total_permutation(s1, s2, one_per_bottle(t));
        assert(tier_count(s1, t) == t.quota());
    }
    assert forall|t: Tier| #[trigger] tier_payout(s2, t) == tier_payout(s1, t) by {
        lemma_total_permutation(
            s1,
            s2,
            payout_per_bottle(t),
        );
    }
    assert forall|i: int| 0 <= i < s2.len() implies (#[trigger] s2[i]).fresh() by {
        assert(s2.contains(s2[i]));
        assert(s2.to_multiset().count(s2[i]) > 0);
        assert(s1.contains(s2[i]));
    }
}

/// Appends the bottles of the fixed tier `t`.
fn push_run(dist: &mut Vec<Bottle>, t: Tier)
    ensures
        final(dist)@ == old(dist)@ + fixed_run(t),
{
    let count: usize = t.bottle_count();
    let sats: u32 = t.payout_range().0;
    let mut k: usize = 0;
    while k < count
        invariant
            k <= count == t.quota(),
            sats == t.min_payout(),
            dist@ == old(dist)@ + fixed_run(t).take(k as int),
        decreases count - k,
    {
        dist.push(Bottle { tier: t, sats, claimed: false });
        k = k + 1;
    }
}

/// The bottles of the five fixed tiers.
pub fn fixed_tiers() -> (dist: Vec<Bottle>)
    ensures
        dist@ == fixed_part(),
{
    let mut dist: Vec<Bottle> = Vec::with_capacity(TOTAL_BOTTLES);
    push_run(&mut dist, Tier::A);
    push_run(&mut dist, Tier::B);
    push_run(&mut dist, Tier::C);
    push_run(&mut dist, Tier::D);
    push_run(&mut dist, Tier::E);
    dist
}

/// Draws the payouts of the variable tier one bottle at a time. Each
/// draw is uniform between the minimum and what the budget can spare
/// once the minimum of every later bottle is set aside.
pub fn draw_variable_tier(budget: u128, rng: &mut ThreadRng) -> (bottles: Vec<Bottle>)
    requires
        budget >= min_budget(),
    ensures
        is_variable_tier(bottles@, budget as nat),
{
    let mut state: Allocation = Allocation::start(budget);
    let mut bottles: Vec<Bottle> = Vec::new();
    while state.remaining > 0
        invariant
            state.funded(),
            state.remaining <= TIER_F_BOTTLES,
            bottles@.len() == TIER_F_BOTTLES - state.remaining,
            forall|i: int|
                0 <= i < bottles@.len() ==> (#[trigger] bottles@[i]).tier == Tier::F
                    && bottles@[i].fresh(),
            tier_payout(bottles@, Tier::F) + state.budget == budget,
        decreases state.remaining,
    {
        let max: u32 = state.feasible_max();
        let payout: u32 = draw_inclusive(rng, MIN_F, max);
        let bottle: Bottle = state.assign(payout);
        proof {
            lemma_total_push(
                bottles@,
                bottle,
                payout_per_bottle(Tier::F),
            );
        }
        bottles.push(bottle);
    }
    bottles
}

/// Builds the full distribution for a bitcoin price and a cap on the
/// variable tier, both in euro cents, drawing from `rng`. A cap of zero
/// means no cap.
///
/// Fails with `InvalidPrice` exactly when the price is zero, and with
/// `CapTooLow` exactly when the price is not zero and the cap does not
/// buy the minimum payout of every variable-tier bottle. Otherwise the
/// result is a distribution whose variable tier costs no more than the
/// cap; which payouts it holds, and in which order, is up to the random
/// source.
pub fn generate_distribution_with(
    btc_price_eur_cents: u64,
    eur_cap_cents: u64,
    rng: &mut ThreadRng,
) -> (r: Result<Vec<Bottle>, GenError>)
    ensures
        generation_outcome(btc_price_eur_cents, eur_cap_cents, r),
        btc_price_eur_cents == 0 ==> r matches Err(GenError::InvalidPrice),
        btc_price_eur_cents != 0 && eur_cap_cents == 0 ==> (r matches Ok(dist) && is_distribution(
            dist@,
        )),
        r matches Ok(dist) ==> eur_cap_cents != 0 ==> sats_to_cents(
            tier_payout(dist@, Tier::F),
            btc_price_eur_cents as nat,
        ) <= eur_cap_cents,
{
    proof {
        lemma_budget_bounds();
    }
    let budget: u128 = match tier_f_budget(btc_price_eur_cents, eur_cap_cents) {
        Ok(budget) => budget,
        Err(e) => {
            return Err(e);
        },
    };
    let mut dist: Vec<Bottle> = fixed_tiers();
    let mut variable: Vec<Bottle> = draw_variable_tier(budget, rng);
    let ghost drawn = variable@;
    dist.append(&mut variable);
    let ghost assembled = dist@;
    shuffle(&mut dist, rng);
    proof {
        lemma_assemble(drawn, budget as nat);
        lemma_reorder(assembled, dist@);
        if eur_cap_cents != 0 {
            lemma_round_trip(
                tier_payout(dist@, Tier::F),
                eur_cap_cents as nat,
                btc_price_eur_cents as nat,
            );
        }
    }
    Ok(dist)
}

/// [`generate_distribution_with`] on the generator of the calling
/// thread.
pub fn generate_distribution(btc_price_eur_cents: u64, eur_cap_cents: u64) -> (r: Result<
    Vec<Bottle>,
    GenError,
>)
    ensures
        generation_outcome(btc_price_eur_cents, eur_cap_cents, r),
        btc_price_eur_cents == 0 ==> r matches Err(GenError::InvalidPrice),
        btc_price_eur_cents != 0 && eur_cap_cents == 0 ==> (r matches Ok(dist) && is_distribution(
            dist@,
        )),
        r matches Ok(dist) ==> eur_cap_cents != 0 ==> sats_to_cents(
            tier_payout(dist@, Tier::F),
            btc_price_eur_cents as nat,
        ) <= eur_cap_cents,
{
    let mut rng: ThreadRng = rand::rng();
    generate_distribution_with(btc_price_eur_cents, eur_cap_cents, &mut rng)
}

/// Whether every bottle is unclaimed and pays what its tier allows.
fn all_fresh(bottles: &[Bottle]) -> (ok: bool)
    ensures
        ok == forall|i: int| 0 <= i < bottles@.len() ==> (#[trigger] bottles@[i]).fresh(),
{
    let mut i: usize = 0;
    while i < bottles.len()
        invariant
            i <= bottles.len(),
            forall|j: int| 0 <= j < i ==> (#[trigger] bottles@[j]).fresh(),
        decreases bottles.len() - i,
    {
        if !bottles[i].is_fresh() {
            return false;
        }
        i = i + 1;
    }
    true
}

/// Tells whether `bottles` is a distribution that generation may hand
/// out for the price and the cap.
pub fn validate(bottles: &[Bottle], btc_price_eur_cents: u64, eur_cap_cents: u64) -> (ok: bool)
    ensures
        ok == acceptable(bottles@, btc_price_eur_cents, eur_cap_cents),
{
    let budget: u128 = match tier_f_budget(btc_price_eur_cents, eur_cap_cents) {
        Ok(budget) => budget,
        Err(_) => {
            return false;
        },
    };
    if bottles.len() != TOTAL_BOTTLES {
        return false;
    }
    let quotas_met: bool = count_tier(bottles, Tier::A) == Tier::A.bottle_count() && count_tier(
        bottles,
        Tier::B,
    ) == Tier::B.bottle_count() && count_tier(bottles, Tier::C) == Tier::C.bottle_count()
        && count_tier(bottles, Tier::D) == Tier::D.bottle_count() && count_tier(bottles, Tier::E)
        == Tier::E.bottle_count() && count_tier(bottles, Tier::F) == Tier::F.bottle_count();
    if !quotas_met {
        return false;
    }
    if !all_fresh(bottles) {
        return false;
    }
    sum_tier(bottles, Tier::F) <= budget
}

} // verus!
