use bos_algo::distribution::{draw_variable_tier, fixed_tiers};
use bos_algo::tally::{count_tier, sum_tier};
use bos_algo::{
    generate_distribution, generate_distribution_with, validate, Bottle, GenError, Tier,
};

const TOTAL: usize = 31_500;
const F_COUNT: usize = 28_389;
const MIN_F: u32 = 21;
const MAX_F: u32 = 500;
const ONE_BTC_SATS: u128 = 100_000_000;

fn fixed_counts_ok(dist: &[Bottle]) -> bool {
    let mut counts = [0usize; 6];
    for b in dist {
        counts[b.tier as usize] += 1;
    }
    counts == [1, 10, 100, 1_000, 2_000, F_COUNT]
}

fn tier_f_sats(dist: &[Bottle]) -> u128 {
    dist.iter()
        .filter(|b| b.tier == Tier::F)
        .map(|b| u128::from(b.sats))
        .sum()
}

#[test]
fn rejects_zero_price() {
    assert!(matches!(
        generate_distribution(0, 0).unwrap_err(),
        bos_algo::GenError::InvalidPrice
    ));
}

#[test]
fn rejects_cap_too_low() {
    let price = 96_496_00;
    let min_cap_cents = (F_COUNT as u128 * MIN_F as u128 * price as u128) / ONE_BTC_SATS;
    let too_low = min_cap_cents as u64 - 1;
    assert!(matches!(
        generate_distribution(price, too_low).unwrap_err(),
        bos_algo::GenError::CapTooLow
    ));
}

#[test]
fn unlimited_cap_invariants_hold() {
    let price = 96_496_00;
    let dist = generate_distribution(price, 0).unwrap();
    assert_eq!(dist.len(), TOTAL);
    assert!(fixed_counts_ok(&dist));
    assert!(dist
        .iter()
        .filter(|b| b.tier == Tier::F)
        .all(|b| (MIN_F..=MAX_F).contains(&b.sats)));
}

#[test]
fn cap_respected_exact() {
    let price = 96_496_00;
    let cap = 10_000_00;
    let dist = generate_distribution(price, cap).unwrap();

    let total_f_sats: u128 = dist
        .iter()
        .filter(|b| b.tier == Tier::F)
        .map(|b| u128::from(b.sats))
        .sum();

    let total_eur_cents = total_f_sats * price as u128 / ONE_BTC_SATS;
    assert!(total_eur_cents <= cap as u128);
}

#[test]
fn zero_price_is_rejected_whatever_the_cap() {
    for cap in [0u64, 1, 57_527, 10_000_00, u64::MAX] {
        assert_eq!(generate_distribution(0, cap).unwrap_err(), GenError::InvalidPrice);
    }
}

#[test]
fn capped_distribution_keeps_every_invariant() {
    let price = 96_496_00;
    let cap = 10_000_00;
    let dist = generate_distribution(price, cap).unwrap();
    assert_eq!(dist.len(), TOTAL);
    assert!(fixed_counts_ok(&dist));
    for b in &dist {
        assert!(!b.claimed);
        match b.tier {
            Tier::A => assert_eq!(b.sats, 1_000_000),
            Tier::B => assert_eq!(b.sats, 100_000),
            Tier::C => assert_eq!(b.sats, 10_000),
            Tier::D => assert_eq!(b.sats, 2_100),
            Tier::E => assert_eq!(b.sats, 1_000),
            Tier::F => assert!((MIN_F..=MAX_F).contains(&b.sats)),
        }
    }
    // 1 000 000 cents buy 10 363 123 satoshis at this price.
    assert!(tier_f_sats(&dist) <= 10_363_123);
}

#[test]
fn smallest_sufficient_cap_pays_the_minimum_throughout() {
    // 57 528 cents is the first cap that buys 596 169 satoshis, exactly
    // 21 for each of the 28 389 bottles.
    let dist = generate_distribution(96_496_00, 57_528).unwrap();
    assert!(fixed_counts_ok(&dist));
    assert!(dist
        .iter()
        .filter(|b| b.tier == Tier::F)
        .all(|b| b.sats == MIN_F));
    assert_eq!(tier_f_sats(&dist), 596_169);
}

#[test]
fn cap_at_a_rounded_threshold_is_too_low() {
    // 28389 * 21 * 9649600 / 100000000 is 57 527.92..., so 57 527 cents
    // buy only 596 159 satoshis.
    assert_eq!(
        generate_distribution(96_496_00, 57_527).unwrap_err(),
        GenError::CapTooLow
    );
    assert!(generate_distribution(96_496_00, 57_528).is_ok());
}

#[test]
fn cap_at_an_exact_threshold_succeeds() {
    // At one euro cent per satoshi the threshold is exactly 596 169.
    let price = 100_000_000;
    assert!(generate_distribution(price, 596_169).is_ok());
    assert_eq!(
        generate_distribution(price, 596_168).unwrap_err(),
        GenError::CapTooLow
    );
}

#[test]
fn largest_inputs_do_not_overflow() {
    let dist = generate_distribution(1, u64::MAX).unwrap();
    assert!(fixed_counts_ok(&dist));
    assert_eq!(
        generate_distribution(u64::MAX, 1).unwrap_err(),
        GenError::CapTooLow
    );
    assert!(generate_distribution(u64::MAX, 0).is_ok());
}

#[test]
fn two_runs_agree_on_counts_and_each_keeps_the_budget() {
    let price = 96_496_00;
    let cap = 2_000_00;
    let first = generate_distribution(price, cap).unwrap();
    let second = generate_distribution(price, cap).unwrap();
    for t in [Tier::A, Tier::B, Tier::C, Tier::D, Tier::E, Tier::F] {
        assert_eq!(count_tier(&first, t), count_tier(&second, t));
    }
    for dist in [&first, &second] {
        let cents = sum_tier(dist, Tier::F) * u128::from(price) / ONE_BTC_SATS;
        assert!(cents <= u128::from(cap));
    }
}

#[test]
fn draws_spread_over_the_whole_range() {
    let dist = generate_distribution(96_496_00, 0).unwrap();
    let payouts: Vec<u32> = dist
        .iter()
        .filter(|b| b.tier == Tier::F)
        .map(|b| b.sats)
        .collect();
    assert!(payouts.iter().any(|&s| s > MIN_F));
    assert!(payouts.iter().any(|&s| s < MAX_F));
    assert!(payouts.iter().any(|&s| s > 260));
    assert!(payouts.iter().any(|&s| s < 260));
}

#[test]
fn output_order_is_shuffled() {
    // Before the shuffle the 3 111 fixed-tier bottles come first.
    let dist = generate_distribution(96_496_00, 0).unwrap();
    assert!(dist[..3_111].iter().any(|b| b.tier == Tier::F));
    assert!(dist[3_111..].iter().any(|b| b.tier != Tier::F));
}

#[test]
fn fixed_tiers_come_in_order_with_their_payouts() {
    let fixed = fixed_tiers();
    assert_eq!(fixed.len(), 3_111);
    let expect = [
        (Tier::A, 1usize, 1_000_000u32),
        (Tier::B, 10, 100_000),
        (Tier::C, 100, 10_000),
        (Tier::D, 1_000, 2_100),
        (Tier::E, 2_000, 1_000),
    ];
    let mut at = 0usize;
    for (tier, count, sats) in expect {
        for b in &fixed[at..at + count] {
            assert_eq!(b.tier, tier);
            assert_eq!(b.sats, sats);
            assert!(!b.claimed);
        }
        at += count;
    }
    assert_eq!(at, fixed.len());
}

#[test]
fn variable_tier_on_the_minimum_budget_has_no_slack() {
    let mut rng = rand::rng();
    let bottles = draw_variable_tier(596_169, &mut rng);
    assert_eq!(bottles.len(), F_COUNT);
    assert!(bottles
        .iter()
        .all(|b| b.tier == Tier::F && b.sats == MIN_F && !b.claimed));
}

#[test]
fn variable_tier_spends_no_more_than_its_budget() {
    let mut rng = rand::rng();
    for budget in [596_170u128, 600_000, 1_000_000, 14_194_500, u128::MAX] {
        let bottles = draw_variable_tier(budget, &mut rng);
        assert_eq!(bottles.len(), F_COUNT);
        assert!(bottles
            .iter()
            .all(|b| b.tier == Tier::F && (MIN_F..=MAX_F).contains(&b.sats)));
        assert!(sum_tier(&bottles, Tier::F) <= budget);
    }
}

#[test]
fn generation_on_a_given_generator() {
    let mut rng = rand::rng();
    let first = generate_distribution_with(96_496_00, 10_000_00, &mut rng).unwrap();
    let second = generate_distribution_with(96_496_00, 10_000_00, &mut rng).unwrap();
    assert!(validate(&first, 96_496_00, 10_000_00));
    assert!(validate(&second, 96_496_00, 10_000_00));
    assert_eq!(
        generate_distribution_with(0, 10_000_00, &mut rng).unwrap_err(),
        GenError::InvalidPrice
    );
    assert_eq!(
        generate_distribution_with(96_496_00, 57_527, &mut rng).unwrap_err(),
        GenError::CapTooLow
    );
}

#[test]
fn generated_distributions_validate() {
    for (price, cap) in [
        (96_496_00u64, 0u64),
        (96_496_00, 57_528),
        (96_496_00, 10_000_00),
        (100_000_000, 596_169),
        (1, 1),
        (1, u64::MAX),
        (u64::MAX, 0),
        (u64::MAX, u64::MAX),
    ] {
        let dist = generate_distribution(price, cap).unwrap();
        assert!(validate(&dist, price, cap), "price {price}, cap {cap}");
    }
}

#[test]
fn validation_is_about_the_inputs_too() {
    let dist = generate_distribution(96_496_00, 57_528).unwrap();
    assert!(validate(&dist, 96_496_00, 57_528));
    // Every payout is the minimum, so any sufficient cap will do.
    assert!(validate(&dist, 96_496_00, 0));
    assert!(validate(&dist, 96_496_00, 10_000_00));
    assert!(!validate(&dist, 0, 57_528));
    assert!(!validate(&dist, 96_496_00, 57_527));
}

#[test]
fn validation_rejects_a_variable_tier_over_budget() {
    let dist = generate_distribution(96_496_00, 0).unwrap();
    // On average a free draw pays some 260 satoshis, far above the 21
    // that this cap can fund.
    assert!(tier_f_sats(&dist) > 596_169);
    assert!(!validate(&dist, 96_496_00, 57_528));
}

#[test]
fn validation_rejects_tampered_distributions() {
    let price = 96_496_00;
    let good = generate_distribution(price, 0).unwrap();
    assert!(validate(&good, price, 0));
    let f = good.iter().position(|b| b.tier == Tier::F).unwrap();
    let e = good.iter().position(|b| b.tier == Tier::E).unwrap();

    let mut claimed = good.clone();
    claimed[f].claimed = true;
    assert!(!validate(&claimed, price, 0));

    let mut too_little = good.clone();
    too_little[f].sats = 20;
    assert!(!validate(&too_little, price, 0));

    let mut too_much = good.clone();
    too_much[f].sats = 501;
    assert!(!validate(&too_much, price, 0));

    let mut repriced = good.clone();
    repriced[e].sats = 999;
    assert!(!validate(&repriced, price, 0));

    let mut moved = good.clone();
    moved[e] = Bottle::new(Tier::F, 100);
    assert!(!validate(&moved, price, 0));

    let mut short = good.clone();
    short.pop();
    assert!(!validate(&short, price, 0));

    let mut long = good.clone();
    long.push(Bottle::new(Tier::F, 21));
    assert!(!validate(&long, price, 0));

    assert!(!validate(&[], price, 0));
}

#[test]
fn order_does_not_matter_to_validation() {
    let mut dist = generate_distribution(96_496_00, 10_000_00).unwrap();
    dist.reverse();
    assert!(validate(&dist, 96_496_00, 10_000_00));
    dist.sort_by_key(|b| b.sats);
    assert!(validate(&dist, 96_496_00, 10_000_00));
}
