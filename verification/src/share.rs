//! Percentage shares of a pool, rounded down.

use vstd::prelude::*;

verus! {

/// The whole of a pool, in percent. No recipient holds more.
pub const FULL_SHARE: u32 = 100;

/// `percentage` percent of `pool`, rounded down.
pub open spec fn share_of(pool: nat, percentage: nat) -> nat {
    (pool * percentage) / 100
}

/// The sum of the percentages in `percentages`.
pub open spec fn total_percentage(percentages: Seq<nat>) -> nat
    decreases percentages.len(),
{
    if percentages.len() == 0 {
        0
    } else {
        total_percentage(percentages.drop_last()) + percentages.last()
    }
}

/// The sum of the shares that `percentages` take out of one and the same `pool`.
pub open spec fn total_shares(pool: nat, percentages: Seq<nat>) -> nat
    decreases percentages.len(),
{
    if percentages.len() == 0 {
        0
    } else {
        total_shares(pool, percentages.drop_last()) + share_of(pool, percentages.last())
    }
}

proof fn lemma_split_by_hundred(whole: nat, rest: nat, percentage: nat)
    ensures
        share_of(100 * whole + rest, percentage) == whole * percentage + (rest * percentage) / 100,
{
    assert((100 * whole + rest) * percentage == 100 * (whole * percentage) + rest * percentage)
        by (nonlinear_arith);
}

/// A share of at most one hundred percent is at most the pool.
pub proof fn lemma_share_at_most_pool(pool: nat, percentage: nat)
    requires
        percentage <= 100,
    ensures
        share_of(pool, percentage) <= pool,
{
    assert(pool * percentage <= pool * 100) by (nonlinear_arith)
        requires
            percentage <= 100,
    ;
}

/// Computes `percentage` percent of `pool`, rounded down. The product
/// `pool * percentage` is never formed, so no pool is too large.
pub fn share(pool: u128, percentage: u32) -> (amount: u128)
    requires
        percentage <= FULL_SHARE,
    ensures
        amount == share_of(pool as nat, percentage as nat),
        amount <= pool,
{
    let whole: u128 = pool / 100;
    let rest: u128 = pool % 100;
    let rate: u128 = percentage as u128;
    proof {
        lemma_split_by_hundred(whole as nat, rest as nat, rate as nat);
        lemma_share_at_most_pool(pool as nat, rate as nat);
        assert(whole * rate <= whole * 100) by (nonlinear_arith)
            requires
                rate <= 100,
        ;
        assert(rest * rate <= 99 * 100) by (nonlinear_arith)
            requires
                rate <= 100,
                rest <= 99,
        ;
    }
    whole * rate + (rest * rate) / 100
}

/// Two shares of one pool never add up to more than the share of the two
/// percentages together: rounding down only ever loses.
pub proof fn lemma_shares_add(pool: nat, first: nat, second: nat)
    ensures
        share_of(pool, first) + share_of(pool, second) <= share_of(pool, first + second),
{
    assert(pool * (first + second) == pool * first + pool * second) by (nonlinear_arith);
}

/// The shares of a list of percentages add up to no more than the share of
/// their total.
pub proof fn lemma_total_shares_bounded(pool: nat, percentages: Seq<nat>)
    ensures
        total_shares(pool, percentages) <= share_of(pool, total_percentage(percentages)),
    decreases percentages.len(),
{
    if percentages.len() == 0 {
        assert(pool * 0 == 0) by (nonlinear_arith);
    } else {
        lemma_total_shares_bounded(pool, percentages.drop_last());
        lemma_shares_add(pool, total_percentage(percentages.drop_last()), percentages.last());
    }
}

/// The shares of the first `count` percentages of a list add up to no more
/// than the shares of them all.
pub proof fn lemma_total_shares_grow(pool: nat, percentages: Seq<nat>, count: int)
    requires
        0 <= count <= percentages.len(),
    ensures
        total_shares(pool, percentages.take(count)) <= total_shares(pool, percentages),
    decreases percentages.len(),
{
    if count == percentages.len() {
        assert(percentages.take(count) == percentages);
    } else {
        assert(percentages.drop_last().take(count) == percentages.take(count));
        lemma_total_shares_grow(pool, percentages.drop_last(), count);
    }
}

/// Where the percentages of a list add up to at most one hundred, the shares
/// that they take out of a pool add up to at most the pool, whatever the pool.
pub proof fn lemma_shares_within_pool(pool: nat, percentages: Seq<nat>)
    requires
        total_percentage(percentages) <= 100,
    ensures
        total_shares(pool, percentages) <= pool,
{
    lemma_total_shares_bounded(pool, percentages);
    lemma_share_at_most_pool(pool, total_percentage(percentages));
}

/// Out of a pool of one hundred every share is its percentage, so a list whose
/// percentages add up to more than one hundred overdraws that pool.
pub proof fn lemma_shares_overdraw_pool(percentages: Seq<nat>)
    ensures
        total_shares(100, percentages) == total_percentage(percentages),
        total_percentage(percentages) > 100 ==> total_shares(100, percentages) > 100,
    decreases percentages.len(),
{
    if percentages.len() > 0 {
        lemma_shares_overdraw_pool(percentages.drop_last());
        assert(share_of(100, percentages.last()) == percentages.last()) by (nonlinear_arith);
    }
}

} // verus!
