//! Per-tier statistics of a claiming session.

use crate::bottle::{Bottle, Tier};
use crate::tally::{lemma_total_push, one_per_bottle, tier_count, tier_payout, total};
use vstd::prelude::*;

verus! {

/// How one tier stands: bottles in it, bottles claimed, satoshis claimed.
#[derive(Copy, Clone, Debug, PartialEq, Eq, Structural)]
pub struct TierStats {
    pub in_tier: usize,
    pub claimed: usize,
    pub sats_claimed: u128,
}

/// One row of statistics for each tier. A tier without bottles has a row
/// of zeros.
#[derive(Copy, Clone, Debug)]
pub struct TierTable {
    pub a: TierStats,
    pub b: TierStats,
    pub c: TierStats,
    pub d: TierStats,
    pub e: TierStats,
    pub f: TierStats,
}

/// Weighs a claimed bottle of tier `t` as one and any other as nothing.
pub open spec fn one_per_claim(t: Tier) -> spec_fn(Bottle) -> nat {
    |b: Bottle| if b.tier == t && b.claimed { 1nat } else { 0nat }
}

/// Weighs a claimed bottle of tier `t` by its payout and any other as
/// nothing.
pub open spec fn payout_per_claim(t: Tier) -> spec_fn(Bottle) -> nat {
    |b: Bottle| if b.tier == t && b.claimed { b.sats as nat } else { 0nat }
}

/// Weighs an unclaimed bottle of tier `t` as one and any other as
/// nothing.
pub open spec fn one_per_unclaimed(t: Tier) -> spec_fn(Bottle) -> nat {
    |b: Bottle| if b.tier == t && !b.claimed { 1nat } else { 0nat }
}

/// Weighs an unclaimed bottle of tier `t` by its payout and any other as
/// nothing.
pub open spec fn payout_per_unclaimed(t: Tier) -> spec_fn(Bottle) -> nat {
    |b: Bottle| if b.tier == t && !b.claimed { b.sats as nat } else { 0nat }
}

/// Weighs an unclaimed bottle as one and a claimed one as nothing.
pub open spec fn one_if_unclaimed() -> spec_fn(Bottle) -> nat {
    |b: Bottle| if b.claimed { 0nat } else { 1nat }
}

/// Number of claimed bottles of tier `t` in `s`.
pub open spec fn claimed_count(s: Seq<Bottle>, t: Tier) -> nat {
    total(s, one_per_claim(t))
}

/// Satoshis paid out by the claimed bottles of tier `t` in `s`.
pub open spec fn claimed_payout(s: Seq<Bottle>, t: Tier) -> nat {
    total(s, payout_per_claim(t))
}

/// Number of unclaimed bottles of tier `t` in `s`.
pub open spec fn unclaimed_in_tier(s: Seq<Bottle>, t: Tier) -> nat {
    total(s, one_per_unclaimed(t))
}

/// Satoshis that the unclaimed bottles of tier `t` in `s` would pay.
pub open spec fn unclaimed_payout(s: Seq<Bottle>, t: Tier) -> nat {
    total(s, payout_per_unclaimed(t))
}

/// A tier splits into its claimed and its unclaimed bottles.
pub proof fn lemma_tier_split(s: Seq<Bottle>, t: Tier)
    ensures
        claimed_count(s, t) + unclaimed_in_tier(s, t) == tier_count(s, t),
        claimed_payout(s, t) + unclaimed_payout(s, t) == tier_payout(s, t),
    decreases s.len(),
{
    if s.len() > 0 {
        lemma_tier_split(s.drop_last(), t);
    }
}

/// Number of bottles in `s` that nobody has claimed yet.
pub open spec fn unclaimed_count(s: Seq<Bottle>) -> nat {
    total(s, one_if_unclaimed())
}

impl TierStats {
    /// The row of a tier that holds `in_tier` bottles, none of them
    /// claimed.
    pub open spec fn untouched(self, in_tier: nat) -> bool {
        self.in_tier == in_tier && self.claimed == 0 && self.sats_claimed == 0
    }

    /// Bottles of the tier that nobody has claimed yet. `None` for a row
    /// that claims more bottles than it holds.
    pub fn unclaimed(&self) -> (n: Option<usize>)
        ensures
            n == if self.claimed <= self.in_tier {
                Some((self.in_tier - self.claimed) as usize)
            } else {
                None
            },
    {
        self.in_tier.checked_sub(self.claimed)
    }

    /// The row that describes tier `t` of `s`.
    pub open spec fn describes(self, s: Seq<Bottle>, t: Tier) -> bool {
        &&& self.in_tier == tier_count(s, t)
        &&& self.claimed == claimed_count(s, t)
        &&& self.sats_claimed == claimed_payout(s, t)
    }
}

impl TierTable {
    /// The row of tier `t`.
    pub open spec fn row(self, t: Tier) -> TierStats {
        match t {
            Tier::A => self.a,
            Tier::B => self.b,
            Tier::C => self.c,
            Tier::D => self.d,
            Tier::E => self.e,
            Tier::F => self.f,
        }
    }

    /// Whether tier `t` is on the table: a tier that counts no bottle has
    /// no row to book a claim in.
    pub open spec fn has_row(self, t: Tier) -> bool {
        self.row(t).in_tier > 0
    }

    /// The row of tier `t` as a list: one entry if the tier is on the
    /// table, none if it is not.
    pub open spec fn row_if_present(self, t: Tier) -> Seq<(Tier, TierStats)> {
        if self.has_row(t) {
            seq![(t, self.row(t))]
        } else {
            Seq::empty()
        }
    }

    /// The rows of the tiers that are on the table, from A to F.
    pub open spec fn present_rows(self) -> Seq<(Tier, TierStats)> {
        self.row_if_present(Tier::A) + self.row_if_present(Tier::B) + self.row_if_present(Tier::C)
            + self.row_if_present(Tier::D) + self.row_if_present(Tier::E) + self.row_if_present(
            Tier::F,
        )
    }

    /// Every row describes its tier of `s`.
    pub open spec fn describes(self, s: Seq<Bottle>) -> bool {
        forall|t: Tier| (#[trigger] self.row(t)).describes(s, t)
    }

    /// A table of zeros.
    pub fn new() -> (table: TierTable)
        ensures
            forall|t: Tier| (#[trigger] table.row(t)).untouched(0),
    {
        let zero = TierStats { in_tier: 0, claimed: 0, sats_claimed: 0 };
        TierTable { a: zero, b: zero, c: zero, d: zero, e: zero, f: zero }
    }

    /// The row of tier `t`.
    pub fn get(&self, t: Tier) -> (row: TierStats)
        ensures
            row == self.row(t),
    {
        match t {
            Tier::A => self.a,
            Tier::B => self.b,
            Tier::C => self.c,
            Tier::D => self.d,
            Tier::E => self.e,
            Tier::F => self.f,
        }
    }

    /// Appends the row of tier `t` if the tier is on the table.
    fn list_row(&self, t: Tier, rows: &mut Vec<(Tier, TierStats)>)
        ensures
            final(rows)@ == old(rows)@ + self.row_if_present(t),
    {
        let row: TierStats = self.get(t);
        if row.in_tier > 0 {
            rows.push((t, row));
            assert(rows@ =~= old(rows)@ + self.row_if_present(t));
        } else {
            assert(rows@ =~= old(rows)@ + self.row_if_present(t));
        }
    }

    /// See [`TierTable::present_rows`].
    pub fn list_rows(&self) -> (rows: Vec<(Tier, TierStats)>)
        ensures
            rows@ == self.present_rows(),
    {
        let mut rows: Vec<(Tier, TierStats)> = Vec::new();
        self.list_row(Tier::A, &mut rows);
        self.list_row(Tier::B, &mut rows);
        self.list_row(Tier::C, &mut rows);
        self.list_row(Tier::D, &mut rows);
        self.list_row(Tier::E, &mut rows);
        self.list_row(Tier::F, &mut rows);
        assert(rows@ =~= self.present_rows());
        rows
    }

    /// Replaces the row of tier `t`.
    pub fn put(&mut self, t: Tier, row: TierStats)
        ensures
            forall|u: Tier| #[trigger]
                final(self).row(u) == if u == t { row } else { old(self).row(u) },
    {
        match t {
            Tier::A => { self.a = row; },
            Tier::B => { self.b = row; },
            Tier::C => { self.c = row; },
            Tier::D => { self.d = row; },
            Tier::E => { self.e = row; },
            Tier::F => { self.f = row; },
        }
    }
}

/// Counts the bottles of every tier. The rows come back with nothing
/// claimed, whatever the bottles say.
pub fn count_tiers(bottles: &[Bottle]) -> (table: TierTable)
    ensures
        forall|t: Tier| (#[trigger] table.row(t)).untouched(tier_count(bottles@, t)),
{
    let mut table = TierTable::new();
    let mut i: usize = 0;
    while i < bottles.len()
        invariant
            i <= bottles.len(),
            forall|t: Tier|
                (#[trigger] table.row(t)).untouched(tier_count(bottles@.take(i as int), t)),
            forall|t: Tier| #[trigger] tier_count(bottles@.take(i as int), t) <= i,
        decreases bottles.len() - i,
    {
        let tier = bottles[i].tier;
        let row = table.get(tier);
        proof {
            assert(bottles@.take(i + 1) == bottles@.take(i as int).push(bottles@[i as int]));
            assert forall|t: Tier| #[trigger]
                tier_count(bottles@.take(i + 1), t) == tier_count(bottles@.take(i as int), t) + (
                if t == tier {
                    1nat
                } else {
                    0nat
                }) by {
                lemma_total_push(bottles@.take(i as int), bottles@[i as int], one_per_bottle(t));
            }
            assert(table.row(tier).untouched(tier_count(bottles@.take(i as int), tier)));
        }
        table.put(tier, TierStats { in_tier: row.in_tier + 1, ..row });
        i = i + 1;
    }
    assert(bottles@.take(i as int) == bottles@);
    table
}

} // verus!
