use bos_algo::budget::{tier_f_budget, Allocation};
use bos_algo::{GenError, Tier};

#[test]
fn budget_without_cap_is_the_maximum_for_every_bottle() {
    assert_eq!(tier_f_budget(96_496_00, 0), Ok(14_194_500));
    assert_eq!(tier_f_budget(1, 0), Ok(14_194_500));
    assert_eq!(tier_f_budget(u64::MAX, 0), Ok(14_194_500));
}

#[test]
fn budget_is_the_floor_of_the_conversion() {
    // 1 000 000 * 100 000 000 / 9 649 600 = 10 363 123.86...
    assert_eq!(tier_f_budget(96_496_00, 10_000_00), Ok(10_363_123));
    // 57 528 * 100 000 000 / 9 649 600 = 596 169.78...
    assert_eq!(tier_f_budget(96_496_00, 57_528), Ok(596_169));
    assert_eq!(tier_f_budget(100_000_000, 596_169), Ok(596_169));
    assert_eq!(tier_f_budget(3, 1_000_000), Ok(33_333_333_333_333));
}

#[test]
fn budget_needs_wide_arithmetic() {
    // The product exceeds 64 bits.
    assert_eq!(
        tier_f_budget(1, u64::MAX),
        Ok(1_844_674_407_370_955_161_500_000_000)
    );
    assert_eq!(tier_f_budget(u64::MAX, u64::MAX), Ok(100_000_000));
}

#[test]
fn budget_rejects_zero_price_first() {
    assert_eq!(tier_f_budget(0, 0), Err(GenError::InvalidPrice));
    assert_eq!(tier_f_budget(0, 1), Err(GenError::InvalidPrice));
    assert_eq!(tier_f_budget(0, u64::MAX), Err(GenError::InvalidPrice));
}

#[test]
fn budget_rejects_a_cap_below_the_minimum() {
    assert_eq!(tier_f_budget(96_496_00, 57_527), Err(GenError::CapTooLow));
    assert_eq!(tier_f_budget(96_496_00, 57_526), Err(GenError::CapTooLow));
    assert_eq!(tier_f_budget(96_496_00, 1), Err(GenError::CapTooLow));
    assert_eq!(tier_f_budget(100_000_000, 596_168), Err(GenError::CapTooLow));
    assert_eq!(tier_f_budget(u64::MAX, 1), Err(GenError::CapTooLow));
}

#[test]
fn allocation_starts_with_every_bottle_open() {
    let state = Allocation::start(1_000_000);
    assert_eq!(state.remaining, 28_389);
    assert_eq!(state.budget, 1_000_000);
}

#[test]
fn reserve_sets_the_minimum_aside_for_the_rest() {
    assert_eq!(Allocation { remaining: 28_389, budget: 596_169 }.reserve(), 596_148);
    assert_eq!(Allocation { remaining: 2, budget: 100 }.reserve(), 21);
    assert_eq!(Allocation { remaining: 1, budget: 100 }.reserve(), 0);
    assert_eq!(
        Allocation { remaining: u32::MAX, budget: 0 }.reserve(),
        21 * (u128::from(u32::MAX) - 1)
    );
}

#[test]
fn feasible_max_is_capped_by_the_maximum_and_by_the_spare_budget() {
    // Plenty of budget: the maximum.
    assert_eq!(Allocation { remaining: 28_389, budget: 14_194_500 }.feasible_max(), 500);
    assert_eq!(Allocation { remaining: 1, budget: u128::MAX }.feasible_max(), 500);
    // No slack at all: the minimum.
    assert_eq!(Allocation { remaining: 28_389, budget: 596_169 }.feasible_max(), 21);
    // 100 satoshis of slack above the minimum.
    assert_eq!(Allocation { remaining: 28_389, budget: 596_269 }.feasible_max(), 121);
    // The spare budget lands exactly on the maximum, and one below it.
    assert_eq!(Allocation { remaining: 3, budget: 542 }.feasible_max(), 500);
    assert_eq!(Allocation { remaining: 3, budget: 541 }.feasible_max(), 499);
    // Last bottle: whatever is left, up to the maximum.
    assert_eq!(Allocation { remaining: 1, budget: 37 }.feasible_max(), 37);
    // An underfunded state saturates at zero.
    assert_eq!(Allocation { remaining: 10, budget: 5 }.feasible_max(), 0);
}

#[test]
fn assign_spends_the_payout_and_moves_on() {
    let mut state = Allocation { remaining: 3, budget: 200 };
    assert_eq!(state.feasible_max(), 158);
    let bottle = state.assign(158);
    assert_eq!(bottle.tier, Tier::F);
    assert_eq!(bottle.sats, 158);
    assert!(!bottle.claimed);
    assert_eq!(state.remaining, 2);
    assert_eq!(state.budget, 42);
    // Nothing to spare now: both bottles left get the minimum.
    assert_eq!(state.feasible_max(), 21);
    state.assign(21);
    assert_eq!(state.feasible_max(), 21);
    state.assign(21);
    assert_eq!(state.remaining, 0);
    assert_eq!(state.budget, 0);
}
