//! The prize records and the fixed shape of a distribution.

use vstd::prelude::*;

verus! {

/// Number of bottles in every distribution.
pub const TOTAL_BOTTLES: usize = 31_500;

/// Number of bottles in the variable tier.
pub const TIER_F_BOTTLES: u32 = 28_389;

/// Smallest payout of a variable-tier bottle, in satoshis.
pub const MIN_F: u32 = 21;

/// Largest payout of a variable-tier bottle, in satoshis.
pub const MAX_F: u32 = 500;

/// Satoshis in one bitcoin.
pub const ONE_BTC_SATS: u128 = 100_000_000;

/// The six prize tiers. `A` to `E` pay a fixed amount, `F` a drawn one.
#[derive(Copy, Clone, Debug, PartialEq, Eq, Hash, Structural)]
pub enum Tier {
    A,
    B,
    C,
    D,
    E,
    F,
}

/// One allocable prize.
#[derive(Copy, Clone, Debug)]
pub struct Bottle {
    pub tier: Tier,
    pub sats: u32,
    pub claimed: bool,
}

/// Why no distribution could be produced.
#[derive(Debug, PartialEq, Eq, Structural)]
pub enum GenError {
    /// The exchange rate was zero.
    InvalidPrice,
    /// The cap cannot fund the minimum payout of every variable-tier bottle.
    CapTooLow,
}

impl Tier {
    /// How many bottles of this tier a distribution holds.
    pub open spec fn quota(self) -> nat {
        match self {
            Tier::A => 1,
            Tier::B => 10,
            Tier::C => 100,
            Tier::D => 1_000,
            Tier::E => 2_000,
            Tier::F => 28_389,
        }
    }

    /// Smallest payout a bottle of this tier may carry.
    pub open spec fn min_payout(self) -> nat {
        match self {
            Tier::A => 1_000_000,
            Tier::B => 100_000,
            Tier::C => 10_000,
            Tier::D => 2_100,
            Tier::E => 1_000,
            Tier::F => 21,
        }
    }

    /// Largest payout a bottle of this tier may carry.
    pub open spec fn max_payout(self) -> nat {
        match self {
            Tier::F => 500,
            _ => self.min_payout(),
        }
    }

    /// Whether every bottle of this tier pays the same amount.
    pub open spec fn is_fixed(self) -> bool {
        self != Tier::F
    }

    /// Number of bottles of this tier in a distribution.
    pub fn bottle_count(self) -> (n: usize)
        ensures
            n == self.quota(),
    {
        match self {
            Tier::A => 1,
            Tier::B => 10,
            Tier::C => 100,
            Tier::D => 1_000,
            Tier::E => 2_000,
            Tier::F => 28_389,
        }
    }

    /// The inclusive payout range of this tier, in satoshis.
    pub fn payout_range(self) -> (r: (u32, u32))
        ensures
            r.0 == self.min_payout(),
            r.1 == self.max_payout(),
            r.0 <= r.1,
    {
        match self {
            Tier::A => (1_000_000, 1_000_000),
            Tier::B => (100_000, 100_000),
            Tier::C => (10_000, 10_000),
            Tier::D => (2_100, 2_100),
            Tier::E => (1_000, 1_000),
            Tier::F => (MIN_F, MAX_F),
        }
    }
}

impl Bottle {
    /// The payout lies in the range of the bottle's tier.
    pub open spec fn payout_in_range(self) -> bool {
        self.tier.min_payout() <= self.sats <= self.tier.max_payout()
    }

    /// What holds of a bottle as generation leaves it: unclaimed, with a
    /// payout its tier allows.
    pub open spec fn fresh(self) -> bool {
        !self.claimed && self.payout_in_range()
    }

    /// See [`Bottle::fresh`].
    pub fn is_fresh(&self) -> (ok: bool)
        ensures
            ok == self.fresh(),
    {
        let (low, high) = self.tier.payout_range();
        !self.claimed && low <= self.sats && self.sats <= high
    }

    /// An unclaimed bottle of the given tier and payout.
    pub fn new(tier: Tier, sats: u32) -> (b: Bottle)
        ensures
            b == (Bottle { tier, sats, claimed: false }),
    {
        Bottle { tier, sats, claimed: false }
    }
}

} // verus!
