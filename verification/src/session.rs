//! Claiming bottles at random from a distribution while the per-tier
//! statistics keep step.

use crate::bottle::{Bottle, Tier};
use crate::random::shuffle;
use crate::stats::{
    claimed_count, claimed_payout, count_tiers, lemma_tier_split, one_if_unclaimed,
    one_per_claim, one_per_unclaimed, payout_per_claim, payout_per_unclaimed, unclaimed_count,
    unclaimed_in_tier, unclaimed_payout, TierStats, TierTable,
};
use crate::tally::{
    lemma_payouts_fit, lemma_total_bound, lemma_total_le, lemma_total_member, lemma_total_push,
    lemma_total_update, lemma_total_zero, one_per_bottle, payout_per_bottle, tier_count,
    tier_payout, total,
};
use rand::rngs::ThreadRng;
use vstd::prelude::*;

verus! {

/// `s` with every claim withdrawn.
pub open spec fn withdrawn(s: Seq<Bottle>) -> Seq<Bottle> {
    Seq::new(s.len(), |i: int| Bottle { claimed: false, ..s[i] })
}

/// `indices` lists, in rising order, the position of every unclaimed
/// bottle of `s` and nothing else.
pub open spec fn lists_unclaimed(indices: Seq<usize>, s: Seq<Bottle>) -> bool {
    &&& forall|j: int|
        0 <= j < indices.len() ==> (#[trigger] indices[j]) < s.len() && !s[indices[j] as int].claimed
    &&& forall|j: int, k: int| 0 <= j < k < indices.len() ==> indices[j] < indices[k]
    &&& forall|i: int| 0 <= i < s.len() && !(#[trigger] s[i]).claimed ==> indices.contains(i as usize)
}

/// `after` is `before` with `n` more bottles claimed: no bottle was
/// added, removed, moved or repriced, and no claim was taken back.
pub open spec fn claims_made(before: Seq<Bottle>, after: Seq<Bottle>, n: nat) -> bool {
    &&& after.len() == before.len()
    &&& forall|i: int|
        0 <= i < before.len() ==> {
            &&& (#[trigger] after[i]).tier == before[i].tier
            &&& after[i].sats == before[i].sats
            &&& before[i].claimed ==> after[i].claimed
        }
    &&& unclaimed_count(after) + n == unclaimed_count(before)
}

/// Withdraws every claim.
pub fn reset_claims(bottles: Vec<Bottle>) -> (fresh: Vec<Bottle>)
    ensures
        fresh@ == withdrawn(bottles@),
{
    let mut fresh = bottles;
    let mut i: usize = 0;
    while i < fresh.len()
        invariant
            i <= fresh.len(),
            fresh@.len() == bottles@.len(),
            forall|j: int| 0 <= j < i ==> fresh@[j] == withdrawn(bottles@)[j],
            forall|j: int| i <= j < fresh@.len() ==> fresh@[j] == bottles@[j],
        decreases fresh.len() - i,
    {
        fresh[i].claimed = false;
        i = i + 1;
    }
    fresh
}

/// The positions of the unclaimed bottles, in rising order.
pub fn unclaimed_indices(bottles: &[Bottle]) -> (indices: Vec<usize>)
    ensures
        lists_unclaimed(indices@, bottles@),
        indices@.len() == unclaimed_count(bottles@),
{
    let mut indices: Vec<usize> = Vec::new();
    let mut i: usize = 0;
    while i < bottles.len()
        invariant
            i <= bottles.len(),
            lists_unclaimed(indices@, bottles@.take(i as int)),
            indices@.len() == unclaimed_count(bottles@.take(i as int)),
        decreases bottles.len() - i,
    {
        let ghost before = indices@;
        proof {
            assert(bottles@.take(i + 1) == bottles@.take(i as int).push(bottles@[i as int]));
            lemma_total_push(bottles@.take(i as int), bottles@[i as int], one_if_unclaimed());
        }
        if !bottles[i].claimed {
            indices.push(i);
            proof {
                assert(indices@.last() == i);
                assert forall|p: int|
                    0 <= p < i + 1 && !(#[trigger] bottles@.take(i + 1)[p]).claimed implies indices@.contains(
                    p as usize,
                ) by {
                    if p < i {
                        assert(!bottles@.take(i as int)[p].claimed);
                        let j = choose|j: int| 0 <= j < before.len() && before[j] == p as usize;
                        assert(indices@[j] == p as usize);
                    } else {
                        assert(indices@[indices@.len() - 1] == p as usize);
                    }
                }
            }
        } else {
            proof {
                assert forall|p: int|
                    0 <= p < i + 1 && !(#[trigger] bottles@.take(i + 1)[p]).claimed implies indices@.contains(
                    p as usize,
                ) by {
                    assert(!bottles@.take(i as int)[p].claimed);
                }
            }
        }
        i = i + 1;
    }
    assert(bottles@.take(i as int) == bottles@);
    indices
}

/// How many bottles a call claims: as many as asked for, or all that
/// are available if those are fewer.
pub open spec fn claims_due(how_many: usize, available: nat) -> nat {
    if how_many <= available {
        how_many as nat
    } else {
        available
    }
}

/// Whether position `i` stands among the first `m` entries of `order`.
pub open spec fn picked(order: Seq<usize>, m: int, i: int) -> bool {
    exists|j: int| 0 <= j < m && j < order.len() && #[trigger] order[j] == i
}

/// `s` once the bottles at the first `m` entries of `order` have been
/// claimed. An entry that names a claimed bottle, or one named before,
/// changes nothing.
pub open spec fn claimed_along(s: Seq<Bottle>, order: Seq<usize>, m: int) -> Seq<Bottle> {
    Seq::new(s.len(), |i: int| Bottle { claimed: s[i].claimed || picked(order, m, i), ..s[i] })
}

/// The table `is` is the table `was` with every claim booked that
/// `after` holds beyond `before`: no row changed its bottle count, no
/// counter fell, and each row grew by the claims and the payouts of its
/// tier.
pub open spec fn claims_booked(
    before: Seq<Bottle>,
    after: Seq<Bottle>,
    was: TierTable,
    is: TierTable,
) -> bool {
    forall|t: Tier|
        {
            &&& (#[trigger] is.row(t)).in_tier == was.row(t).in_tier
            &&& is.row(t).claimed == was.row(t).claimed + claimed_count(after, t) - claimed_count(
                before,
                t,
            )
            &&& is.row(t).sats_claimed == was.row(t).sats_claimed + claimed_payout(after, t)
                - claimed_payout(before, t)
            &&& is.row(t).claimed >= was.row(t).claimed
            &&& is.row(t).sats_claimed >= was.row(t).sats_claimed
        }
}

/// `s` with every bottle claimed.
pub open spec fn fully_claimed(s: Seq<Bottle>) -> Seq<Bottle> {
    Seq::new(s.len(), |i: int| Bottle { claimed: true, ..s[i] })
}

/// What claiming along `order` needs of the table: the first `m`
/// entries are positions of `s`, the tier of every bottle they claim is
/// on the table, and the counters of no row outgrow their types.
pub open spec fn can_claim_along(
    table: TierTable,
    s: Seq<Bottle>,
    order: Seq<usize>,
    m: int,
) -> bool {
    let after = claimed_along(s, order, m);
    &&& forall|j: int| 0 <= j < m && j < order.len() ==> (#[trigger] order[j]) < s.len()
    &&& forall|j: int|
        0 <= j < m && j < order.len() && !s[(#[trigger] order[j]) as int].claimed
            ==> table.has_row(s[order[j] as int].tier)
    &&& forall|t: Tier|
        (#[trigger] table.row(t)).claimed + claimed_count(after, t) - claimed_count(s, t)
            <= usize::MAX
    &&& forall|t: Tier|
        (#[trigger] table.row(t)).sats_claimed + claimed_payout(after, t) - claimed_payout(s, t)
            <= u128::MAX
}

/// What claiming at random needs of the table, whichever bottles are
/// picked: the tier of every unclaimed bottle is on the table, and every
/// row has room for all unclaimed bottles of its tier.
pub open spec fn can_claim_any(table: TierTable, s: Seq<Bottle>) -> bool {
    &&& forall|i: int|
        0 <= i < s.len() && !(#[trigger] s[i]).claimed ==> table.has_row(s[i].tier)
    &&& forall|t: Tier| (#[trigger] table.row(t)).claimed + unclaimed_in_tier(s, t) <= usize::MAX
    &&& forall|t: Tier|
        (#[trigger] table.row(t)).sats_claimed + unclaimed_payout(s, t) <= u128::MAX
}

/// What a shuffle leaves of a list of unclaimed positions: the same
/// positions, each still once, each still that of an unclaimed bottle,
/// none missing.
proof fn lemma_shuffled_positions(listed: Seq<usize>, shuffled: Seq<usize>, s: Seq<Bottle>)
    requires
        lists_unclaimed(listed, s),
        shuffled.to_multiset() == listed.to_multiset(),
    ensures
        shuffled.len() == listed.len(),
        shuffled.no_duplicates(),
        forall|j: int|
            0 <= j < shuffled.len() ==> (#[trigger] shuffled[j]) < s.len() && !s[shuffled[j] as int].claimed,
        forall|i: int|
            0 <= i < s.len() && !(#[trigger] s[i]).claimed ==> shuffled.contains(i as usize),
{
    broadcast use vstd::seq_lib::group_to_multiset_ensures;

    vstd::seq_lib::to_multiset_len(listed);
    vstd::seq_lib::to_multiset_len(shuffled);
    assert(listed.no_duplicates()) by {
        assert forall|j: int, k: int|
            0 <= j < listed.len() && 0 <= k < listed.len() && j != k implies listed[j]
            != listed[k] by {
            if j < k {
                assert(listed[j] < listed[k]);
            } else {
                assert(listed[k] < listed[j]);
            }
        }
    }
    listed.lemma_multiset_has_no_duplicates();
    shuffled.lemma_multiset_has_no_duplicates_conv();
    assert forall|j: int| 0 <= j < shuffled.len() implies (#[trigger] shuffled[j]) < s.len()
        && !s[shuffled[j] as int].claimed by {
        assert(shuffled.contains(shuffled[j]));
        assert(shuffled.to_multiset().count(shuffled[j]) > 0);
        assert(listed.contains(shuffled[j]));
        let k = choose|k: int| 0 <= k < listed.len() && listed[k] == shuffled[j];
        assert(listed[k] < s.len());
    }
    assert forall|i: int| 0 <= i < s.len() && !(#[trigger] s[i]).claimed implies shuffled.contains(
        i as usize,
    ) by {
        assert(listed.contains(i as usize));
        assert(listed.to_multiset().count(i as usize) > 0);
    }
}

/// One more entry of `order` picks the position it names and no other.
proof fn lemma_picked_step(order: Seq<usize>, k: int, i: int)
    requires
        0 <= k < order.len(),
    ensures
        picked(order, k + 1, i) <==> picked(order, k, i) || order[k] == i,
{
    if picked(order, k + 1, i) {
        let j = choose|j: int| 0 <= j < k + 1 && j < order.len() && #[trigger] order[j] == i;
        if j < k {
            assert(picked(order, k, i));
        }
    }
    if picked(order, k, i) {
        let j = choose|j: int| 0 <= j < k && j < order.len() && #[trigger] order[j] == i;
        assert(0 <= j < k + 1 && order[j] == i);
    }
    if order[k] == i {
        assert(0 <= k < k + 1 && order[k] == i);
    }
}

/// What was picked among fewer entries stays picked among more.
proof fn lemma_picked_grows(order: Seq<usize>, k: int, m: int, i: int)
    requires
        k <= m,
        picked(order, k, i),
    ensures
        picked(order, m, i),
{
    let j = choose|j: int| 0 <= j < k && j < order.len() && #[trigger] order[j] == i;
    assert(0 <= j < m && order[j] == i);
}

/// Claiming along no entry at all changes nothing.
proof fn lemma_claimed_along_none(s: Seq<Bottle>, order: Seq<usize>)
    ensures
        claimed_along(s, order, 0) == s,
{
    assert(claimed_along(s, order, 0) =~= s);
}

/// Bottles that differ in nothing but their claims count and pay the
/// same, tier by tier.
proof fn lemma_same_tiers(before: Seq<Bottle>, after: Seq<Bottle>, t: Tier)
    requires
        after.len() == before.len(),
        forall|i: int|
            0 <= i < before.len() ==> (#[trigger] after[i]).tier == before[i].tier && after[i].sats
                == before[i].sats,
    ensures
        tier_count(after, t) == tier_count(before, t),
        tier_payout(after, t) == tier_payout(before, t),
{
    lemma_total_le(before, after, one_per_bottle(t));
    lemma_total_le(after, before, one_per_bottle(t));
    lemma_total_le(before, after, payout_per_bottle(t));
    lemma_total_le(after, before, payout_per_bottle(t));
}

/// Claiming along more entries claims no less.
proof fn lemma_claims_grow(s: Seq<Bottle>, order: Seq<usize>, k: int, m: int, t: Tier)
    requires
        k <= m,
    ensures
        claimed_count(claimed_along(s, order, k), t) <= claimed_count(claimed_along(s, order, m), t),
        claimed_payout(claimed_along(s, order, k), t) <= claimed_payout(
            claimed_along(s, order, m),
            t,
        ),
{
    let fewer = claimed_along(s, order, k);
    let more = claimed_along(s, order, m);
    assert forall|i: int| 0 <= i < fewer.len() implies one_per_claim(t)(#[trigger] fewer[i])
        <= one_per_claim(t)(more[i]) && payout_per_claim(t)(fewer[i]) <= payout_per_claim(t)(
        more[i],
    ) by {
        if picked(order, k, i) {
            lemma_picked_grows(order, k, m, i);
        }
    }
    lemma_total_le(fewer, more, one_per_claim(t));
    lemma_total_le(fewer, more, payout_per_claim(t));
}

/// How the tallies move when the unclaimed bottle at position `i` is
/// claimed.
proof fn lemma_claim_one(s: Seq<Bottle>, i: int)
    requires
        0 <= i < s.len(),
        !s[i].claimed,
    ensures
        ({
            let claimed = s.update(i, Bottle { claimed: true, ..s[i] });
            &&& unclaimed_count(claimed) + 1 == unclaimed_count(s)
            &&& forall|t: Tier| #[trigger]
                claimed_count(claimed, t) == claimed_count(s, t) + if t == s[i].tier {
                    1nat
                } else {
                    0nat
                }
            &&& forall|t: Tier| #[trigger]
                claimed_payout(claimed, t) == claimed_payout(s, t) + if t == s[i].tier {
                    s[i].sats as nat
                } else {
                    0nat
                }
        }),
{
    let b = Bottle { claimed: true, ..s[i] };
    let claimed = s.update(i, b);
    lemma_total_update(s, i, b, one_if_unclaimed());
    assert forall|t: Tier| #[trigger]
        claimed_count(claimed, t) == claimed_count(s, t) + if t == s[i].tier {
            1nat
        } else {
            0nat
        } by {
        lemma_total_update(s, i, b, one_per_claim(t));
    }
    assert forall|t: Tier| #[trigger]
        claimed_payout(claimed, t) == claimed_payout(s, t) + if t == s[i].tier {
            s[i].sats as nat
        } else {
            0nat
        } by {
        lemma_total_update(s, i, b, payout_per_claim(t));
    }
}

/// One more entry of `order`, seen on the bottles: it claims the bottle
/// it names if that one is still unclaimed, and changes nothing
/// otherwise.
proof fn lemma_claimed_along_step(s: Seq<Bottle>, order: Seq<usize>, k: int)
    requires
        0 <= k < order.len(),
        order[k] < s.len(),
    ensures
        ({
            let now = claimed_along(s, order, k);
            let at = order[k] as int;
            claimed_along(s, order, k + 1) == if now[at].claimed {
                now
            } else {
                now.update(at, Bottle { claimed: true, ..now[at] })
            }
        }),
{
    let now = claimed_along(s, order, k);
    let at = order[k] as int;
    let next = claimed_along(s, order, k + 1);
    let expect = if now[at].claimed {
        now
    } else {
        now.update(at, Bottle { claimed: true, ..now[at] })
    };
    assert forall|i: int| 0 <= i < s.len() implies next[i] == expect[i] by {
        lemma_picked_step(order, k, i);
    }
    assert(next =~= expect);
}

/// Entries that name unclaimed bottles, each once, claim one bottle
/// each.
proof fn lemma_claims_counted(s: Seq<Bottle>, order: Seq<usize>, m: int)
    requires
        0 <= m <= order.len(),
        order.no_duplicates(),
        forall|j: int|
            0 <= j < order.len() ==> (#[trigger] order[j]) < s.len() && !s[order[j] as int].claimed,
    ensures
        unclaimed_count(claimed_along(s, order, m)) + m == unclaimed_count(s),
    decreases m,
{
    if m == 0 {
        lemma_claimed_along_none(s, order);
    } else {
        let k = m - 1;
        let now = claimed_along(s, order, k);
        let at = order[k] as int;
        lemma_claims_counted(s, order, k);
        lemma_claimed_along_step(s, order, k);
        if picked(order, k, at) {
            let j = choose|j: int| 0 <= j < k && j < order.len() && #[trigger] order[j] == at;
            assert(order[j] == order[k]);
        }
        assert(!now[at].claimed);
        lemma_claim_one(now, at);
    }
}

/// Claims the bottles at the first `how_many` entries of `order`, or at
/// all entries if those are fewer, and books each claim in the row of
/// its tier. An entry that names a bottle already claimed is passed
/// over.
///
/// The entries that are due have to be positions of `dist`, the tier of
/// each bottle they claim has to be on the table, and the rows need room
/// for these claims; see [`can_claim_along`]. Entries beyond those that
/// are due are not looked at.
pub fn claim_in_order(
    dist: &mut [Bottle],
    stats: &mut TierTable,
    order: &[usize],
    how_many: usize,
)
    requires
        claims_due(how_many, order@.len()) > 0 ==> can_claim_along(
            *old(stats),
            old(dist)@,
            order@,
            claims_due(how_many, order@.len()) as int,
        ),
    ensures
        final(dist)@ == claimed_along(
            old(dist)@,
            order@,
            claims_due(how_many, order@.len()) as int,
        ),
        claims_booked(old(dist)@, final(dist)@, *old(stats), *final(stats)),
{
    let wanted: usize = if how_many < order.len() {
        how_many
    } else {
        order.len()
    };
    proof {
        lemma_claimed_along_none(old(dist)@, order@);
    }
    let mut k: usize = 0;
    while k < wanted
        invariant
            k <= wanted <= order@.len(),
            wanted == claims_due(how_many, order@.len()),
            wanted > 0 ==> can_claim_along(*old(stats), old(dist)@, order@, wanted as int),
            dist@ == claimed_along(old(dist)@, order@, k as int),
            claims_booked(old(dist)@, dist@, *old(stats), *stats),
        decreases wanted - k,
    {
        let idx: usize = order[k];
        proof {
            lemma_claimed_along_step(old(dist)@, order@, k as int);
        }
        if !dist[idx].claimed {
            let ghost before = dist@;
            let tier: Tier = dist[idx].tier;
            let sats: u32 = dist[idx].sats;
            dist[idx].claimed = true;
            let row: TierStats = stats.get(tier);
            proof {
                lemma_claim_one(before, idx as int);
                assert(dist@ == before.update(
                    idx as int,
                    Bottle { claimed: true, ..before[idx as int] },
                ));
                lemma_claims_grow(old(dist)@, order@, k + 1, wanted as int, tier);
            }
            stats.put(
                tier,
                TierStats {
                    claimed: row.claimed + 1,
                    sats_claimed: row.sats_claimed + sats as u128,
                    ..row
                },
            );
        }
        k = k + 1;
    }
}

/// Claims up to `how_many` unclaimed bottles, picked at random, and
/// books each claim in the row of its tier. When fewer bottles are left
/// unclaimed, all of them are claimed. Which bottles are picked is up to
/// the random source; how many, and by how much each row grows for the
/// bottles that were picked, is not.
///
/// Unless `how_many` is zero, the tier of every unclaimed bottle has to
/// be on the table and every row needs room for the claims that may
/// come. A table that describes the bottles on entry describes them
/// again on return.
pub fn claim_bottles(dist: &mut [Bottle], stats: &mut TierTable, how_many: usize)
    requires
        claims_due(how_many, unclaimed_count(old(dist)@)) > 0 ==> can_claim_any(
            *old(stats),
            old(dist)@,
        ),
    ensures
        claims_made(
            old(dist)@,
            final(dist)@,
            claims_due(how_many, unclaimed_count(old(dist)@)),
        ),
        claims_booked(old(dist)@, final(dist)@, *old(stats), *final(stats)),
        old(stats).describes(old(dist)@) ==> final(stats).describes(final(dist)@),
        claims_due(how_many, unclaimed_count(old(dist)@)) == 0 ==> final(dist)@ == old(dist)@
            && *final(stats) == *old(stats),
        how_many >= unclaimed_count(old(dist)@) ==> final(dist)@ == fully_claimed(old(dist)@),
        how_many >= unclaimed_count(old(dist)@) ==> forall|t: Tier|
            (#[trigger] final(stats).row(t)).claimed == old(stats).row(t).claimed
                + unclaimed_in_tier(old(dist)@, t) && final(stats).row(t).sats_claimed == old(
                stats,
            ).row(t).sats_claimed + unclaimed_payout(old(dist)@, t),
{
    let mut indices: Vec<usize> = unclaimed_indices(dist);
    let ghost listed = indices@;
    let mut rng: ThreadRng = rand::rng();
    shuffle(&mut indices, &mut rng);
    let ghost due = claims_due(how_many, indices@.len()) as int;
    proof {
        lemma_shuffled_positions(listed, indices@, dist@);
        if due > 0 {
            lemma_any_covers_along(*stats, dist@, indices@, due);
        }
    }
    claim_in_order(dist, stats, indices.as_slice(), how_many);
    let len: usize = dist.len();
    proof {
        let before = old(dist)@;
        let after = dist@;
        assert(after.len() == len && indices@.len() == unclaimed_count(before));
        lemma_claims_counted(before, indices@, due);
        assert forall|t: Tier| tier_count(after, t) == tier_count(before, t) by {
            lemma_same_tiers(before, after, t);
        }
        if old(stats).describes(before) {
            assert forall|t: Tier| (#[trigger] stats.row(t)).describes(after, t) by {
                assert(old(stats).row(t).describes(before, t));
                assert(tier_count(after, t) == tier_count(before, t));
            }
        }
        if how_many >= unclaimed_count(before) {
            assert forall|i: int| 0 <= i < after.len() implies (#[trigger] after[i]).claimed by {
                if !before[i].claimed {
                    let at = i as usize;
                    assert(indices@.contains(at));
                    let j = choose|j: int| 0 <= j < indices@.len() && indices@[j] == at;
                    assert(0 <= j < due && indices@[j] == i);
                    assert(picked(indices@, due, i));
                }
            }
            assert(after =~= fully_claimed(before));
            assert forall|t: Tier|
                (#[trigger] stats.row(t)).claimed == old(stats).row(t).claimed
                    + unclaimed_in_tier(before, t) && stats.row(t).sats_claimed == old(
                    stats,
                ).row(t).sats_claimed + unclaimed_payout(before, t) by {
                lemma_tier_split(before, t);
                lemma_tier_split(after, t);
                lemma_same_tiers(before, after, t);
                lemma_total_zero(after, one_per_unclaimed(t));
                lemma_total_zero(after, payout_per_unclaimed(t));
            }
        }
        if due == 0 {
            lemma_claimed_along_none(before, indices@);
            assert(stats.row(Tier::A) == old(stats).row(Tier::A));
            assert(stats.row(Tier::B) == old(stats).row(Tier::B));
            assert(stats.row(Tier::C) == old(stats).row(Tier::C));
            assert(stats.row(Tier::D) == old(stats).row(Tier::D));
            assert(stats.row(Tier::E) == old(stats).row(Tier::E));
            assert(stats.row(Tier::F) == old(stats).row(Tier::F));
        }
    }
}

/// A table with room for every unclaimed bottle has room for the ones
/// that the first `m` entries of any order of positions pick.
pub proof fn lemma_any_covers_along(table: TierTable, s: Seq<Bottle>, order: Seq<usize>, m: int)
    requires
        can_claim_any(table, s),
        forall|j: int| 0 <= j < m && j < order.len() ==> (#[trigger] order[j]) < s.len(),
    ensures
        can_claim_along(table, s, order, m),
{
    let after = claimed_along(s, order, m);
    assert forall|t: Tier|
        (#[trigger] table.row(t)).claimed + claimed_count(after, t) - claimed_count(s, t)
            <= usize::MAX && table.row(t).sats_claimed + claimed_payout(after, t)
            - claimed_payout(s, t) <= u128::MAX by {
        lemma_same_tiers(s, after, t);
        lemma_tier_split(s, t);
        lemma_tier_split(after, t);
        assert(table.row(t).claimed + unclaimed_in_tier(s, t) <= usize::MAX);
        assert(table.row(t).sats_claimed + unclaimed_payout(s, t) <= u128::MAX);
    }
}

/// Weighs a claimed bottle by its payout and an unclaimed one as nothing.
pub open spec fn payout_if_claimed() -> spec_fn(Bottle) -> nat {
    |b: Bottle| if b.claimed { b.sats as nat } else { 0nat }
}

/// Satoshis paid out by the claimed bottles of `s`, all tiers together.
pub open spec fn claimed_sats(s: Seq<Bottle>) -> nat {
    total(s, payout_if_claimed())
}

/// The six rows of a table that describes `s` add up to what holds of
/// `s` as a whole.
pub proof fn lemma_rows_add_up(s: Seq<Bottle>)
    ensures
        tier_count(s, Tier::A) + tier_count(s, Tier::B) + tier_count(s, Tier::C) + tier_count(
            s,
            Tier::D,
        ) + tier_count(s, Tier::E) + tier_count(s, Tier::F) == s.len(),
        claimed_count(s, Tier::A) + claimed_count(s, Tier::B) + claimed_count(s, Tier::C)
            + claimed_count(s, Tier::D) + claimed_count(s, Tier::E) + claimed_count(s, Tier::F)
            + unclaimed_count(s) == s.len(),
        claimed_payout(s, Tier::A) + claimed_payout(s, Tier::B) + claimed_payout(s, Tier::C)
            + claimed_payout(s, Tier::D) + claimed_payout(s, Tier::E) + claimed_payout(
            s,
            Tier::F,
        ) == claimed_sats(s),
    decreases s.len(),
{
    if s.len() > 0 {
        lemma_rows_add_up(s.drop_last());
    }
}

/// The sums that close the statistics table.
#[derive(Copy, Clone, Debug, PartialEq, Eq, Structural)]
pub struct Totals {
    pub bottles: usize,
    pub claimed: usize,
    pub remaining: usize,
    pub sats_claimed: u128,
}

/// A distribution that is being claimed, together with statistics that
/// always describe it.
pub struct Session {
    bottles: Vec<Bottle>,
    stats: TierTable,
}

impl View for Session {
    type V = Seq<Bottle>;

    closed spec fn view(&self) -> Seq<Bottle> {
        self.bottles@
    }
}

impl Session {
    #[verifier::type_invariant]
    spec fn in_step(self) -> bool {
        self.stats.describes(self.bottles@)
    }

    /// The statistics table of the session.
    pub closed spec fn table(self) -> TierTable {
        self.stats
    }

    /// Starts a session on `dist`, with every claim withdrawn.
    pub fn open(dist: Vec<Bottle>) -> (session: Session)
        ensures
            session@ == withdrawn(dist@),
            session.table().describes(session@),
    {
        let bottles: Vec<Bottle> = reset_claims(dist);
        let stats: TierTable = count_tiers(bottles.as_slice());
        proof {
            assert forall|t: Tier| (#[trigger] stats.row(t)).describes(bottles@, t) by {
                assert(stats.row(t).untouched(tier_count(bottles@, t)));
                assert forall|i: int| 0 <= i < bottles@.len() implies one_per_claim(t)(
                    #[trigger] bottles@[i],
                ) == 0 && payout_per_claim(t)(bottles@[i]) == 0 by {
                    assert(!withdrawn(dist@)[i].claimed);
                }
                lemma_total_zero(bottles@, one_per_claim(t));
                lemma_total_zero(bottles@, payout_per_claim(t));
            }
        }
        Session { bottles, stats }
    }

    /// The bottles, in the order of the distribution the session was
    /// opened on.
    pub fn bottles(&self) -> (bottles: &Vec<Bottle>)
        ensures
            bottles@ == self@,
    {
        &self.bottles
    }

    /// The statistics of tier `t`, or `None` when the session holds no
    /// bottle of that tier.
    pub fn row(&self, t: Tier) -> (row: Option<TierStats>)
        ensures
            match row {
                Some(stats) => {
                    &&& stats == self.table().row(t)
                    &&& stats.describes(self@, t)
                    &&& stats.claimed <= stats.in_tier
                    &&& stats.in_tier > 0
                },
                None => tier_count(self@, t) == 0,
            },
    {
        proof {
            use_type_invariant(self);
            lemma_tier_split(self.bottles@, t);
        }
        let stats: TierStats = self.stats.get(t);
        if stats.in_tier > 0 {
            Some(stats)
        } else {
            None
        }
    }

    /// The rows to show, from tier A to tier F: one for each tier that
    /// the session holds a bottle of.
    pub fn rows(&self) -> (rows: Vec<(Tier, TierStats)>)
        ensures
            rows@ == self.table().present_rows(),
            self.table().describes(self@),
    {
        proof {
            use_type_invariant(self);
        }
        self.stats.list_rows()
    }

    /// Claims up to `how_many` unclaimed bottles at random and hands the
    /// session back; see [`claim_bottles`].
    pub fn claim(self, how_many: usize) -> (after: Session)
        ensures
            after.table().describes(after@),
            claims_made(self@, after@, claims_due(how_many, unclaimed_count(self@))),
            claims_booked(self@, after@, self.table(), after.table()),
    {
        proof {
            use_type_invariant(&self);
        }
        let mut bottles: Vec<Bottle> = self.bottles;
        let mut stats: TierTable = self.stats;
        let len: usize = bottles.len();
        proof {
            lemma_payouts_fit(len as nat);
            assert forall|i: int|
                0 <= i < bottles@.len() && !(#[trigger] bottles@[i]).claimed implies stats.has_row(
                bottles@[i].tier,
            ) by {
                lemma_total_member(bottles@, i, one_per_bottle(bottles@[i].tier));
                assert(stats.row(bottles@[i].tier).describes(bottles@, bottles@[i].tier));
            }
            assert forall|t: Tier|
                (#[trigger] stats.row(t)).claimed + unclaimed_in_tier(bottles@, t) <= usize::MAX
                    && stats.row(t).sats_claimed + unclaimed_payout(bottles@, t)
                    <= u128::MAX by {
                assert(stats.row(t).describes(bottles@, t));
                lemma_tier_split(bottles@, t);
                lemma_total_bound(bottles@, one_per_bottle(t), 1);
                lemma_total_bound(bottles@, payout_per_bottle(t), u32::MAX as nat);
                assert(bottles@.len() * 1 == bottles@.len()) by (nonlinear_arith);
            }
        }
        claim_bottles(bottles.as_mut_slice(), &mut stats, how_many);
        Session { bottles, stats }
    }

    /// Adds up the rows of the table.
    pub fn totals(&self) -> (totals: Totals)
        ensures
            totals.bottles == self@.len(),
            totals.remaining == unclaimed_count(self@),
            totals.claimed + totals.remaining == totals.bottles,
            totals.sats_claimed == claimed_sats(self@),
    {
        let len: usize = self.bottles.len();
        proof {
            use_type_invariant(self);
            lemma_rows_add_up(self.bottles@);
            assert(self.stats.row(Tier::A).describes(self.bottles@, Tier::A));
            assert(self.stats.row(Tier::B).describes(self.bottles@, Tier::B));
            assert(self.stats.row(Tier::C).describes(self.bottles@, Tier::C));
            assert(self.stats.row(Tier::D).describes(self.bottles@, Tier::D));
            assert(self.stats.row(Tier::E).describes(self.bottles@, Tier::E));
            assert(self.stats.row(Tier::F).describes(self.bottles@, Tier::F));
            lemma_total_bound(self.bottles@, payout_if_claimed(), u32::MAX as nat);
            lemma_payouts_fit(len as nat);
        }
        let t = &self.stats;
        let bottles: usize = t.a.in_tier + t.b.in_tier + t.c.in_tier + t.d.in_tier + t.e.in_tier
            + t.f.in_tier;
        let claimed: usize = t.a.claimed + t.b.claimed + t.c.claimed + t.d.claimed + t.e.claimed
            + t.f.claimed;
        let sats_claimed: u128 = t.a.sats_claimed + t.b.sats_claimed + t.c.sats_claimed
            + t.d.sats_claimed + t.e.sats_claimed + t.f.sats_claimed;
        Totals { bottles, claimed, remaining: bottles - claimed, sats_claimed }
    }
}

} // verus!
