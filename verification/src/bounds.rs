//! Ranges: what every offer and every size of the distribution lies between.

use crate::flex::{
    any_clamps, available, clamps, fixed_flags, last_pending, lemma_round_makes_progress,
    main_size, next_pool, next_resolved, pending, pending_count, pending_weight, resolved_size,
    round_ready, share, shares, taken, tentative, ends_clamped, Sizing,
};
use vstd::arithmetic::div_mod::{lemma_fundamental_div_mod, lemma_mod_bound};
use vstd::prelude::*;

verus! {

/// A proportional share is no more than its exact proportion, and no more
/// than the pool where the weight is part of the total.
pub proof fn lemma_share_bounds(pool: int, weight: int, total: int)
    requires
        0 <= pool,
        0 <= weight,
        0 < total,
    ensures
        0 <= share(pool, weight, total),
        share(pool, weight, total) * total <= pool * weight,
        weight <= total ==> share(pool, weight, total) <= pool,
{
    let a = pool * weight;
    let q = a / total;
    assert(0 <= a) by (nonlinear_arith)
        requires
            0 <= pool,
            0 <= weight,
            a == pool * weight,
    ;
    lemma_fundamental_div_mod(a, total);
    lemma_mod_bound(a, total);
    assert(0 <= q && q * total <= a) by (nonlinear_arith)
        requires
            a == total * q + a % total,
            0 <= a % total < total,
            0 <= a,
            0 < total,
    ;
    if weight <= total {
        assert(q <= pool) by (nonlinear_arith)
            requires
                q * total <= pool * weight,
                weight <= total,
                0 <= pool,
                0 < total,
        ;
    }
}

/// Where the last pending item stands among the first `k`.
pub proof fn lemma_last_pending(resolved: Seq<bool>, k: int)
    requires
        0 <= k <= resolved.len(),
    ensures
        -1 <= last_pending(resolved, k) < k,
        last_pending(resolved, k) >= 0 ==> pending(resolved, last_pending(resolved, k)),
        forall|j: int| last_pending(resolved, k) < j < k ==> !pending(resolved, j),
        (last_pending(resolved, k) == -1) <==> pending_count(resolved, k) == 0,
    decreases k,
{
    if k > 0 {
        lemma_last_pending(resolved, k - 1);
    }
}

/// The pending weight grows with the prefix and covers each pending item in it.
pub proof fn lemma_pending_weight_covers(items: Seq<Sizing>, resolved: Seq<bool>, j: int, k: int)
    requires
        0 <= j <= k,
    ensures
        pending_weight(items, resolved, j) <= pending_weight(items, resolved, k),
        j < k && pending(resolved, j) ==> pending_weight(items, resolved, j) + items[j].weight
            <= pending_weight(items, resolved, k),
    decreases k,
{
    if j < k {
        lemma_pending_weight_covers(items, resolved, j, k - 1);
    }
}

/// Without pending items there is no pending weight.
pub proof fn lemma_no_pending_no_weight(items: Seq<Sizing>, flags: Seq<bool>, k: int)
    requires
        pending_count(flags, k) == 0,
    ensures
        pending_weight(items, flags, k) == 0,
    decreases k,
{
    if k > 0 {
        lemma_no_pending_no_weight(items, flags, k - 1);
    }
}

/// The shares handed out over a prefix never exceed the prefix's proportion of the pool.
pub proof fn lemma_shares_bounds(items: Seq<Sizing>, resolved: Seq<bool>, pool: int, total: int, k: int)
    requires
        0 <= pool,
        0 < total,
    ensures
        0 <= shares(items, resolved, pool, total, k),
        shares(items, resolved, pool, total, k) * total <= pool * pending_weight(items, resolved, k),
    decreases k,
{
    if k > 0 {
        lemma_shares_bounds(items, resolved, pool, total, k - 1);
        let before = shares(items, resolved, pool, total, k - 1);
        let weight_before = pending_weight(items, resolved, k - 1) as int;
        if pending(resolved, k - 1) {
            let w = items[k - 1].weight as int;
            let s = share(pool, w, total);
            lemma_share_bounds(pool, w, total);
            assert((before + s) * total <= pool * (weight_before + w)) by (nonlinear_arith)
                requires
                    before * total <= pool * weight_before,
                    s * total <= pool * w,
            ;
        }
    }
}

/// Every offer lies between nothing and the whole pool.
pub proof fn lemma_tentative_range(items: Seq<Sizing>, resolved: Seq<bool>, pool: int, i: int)
    requires
        round_ready(items, resolved, pool),
        pending(resolved, i),
    ensures
        0 < pending_weight(items, resolved, items.len() as int),
        0 <= tentative(items, resolved, pool, i) <= pool,
{
    let n = items.len() as int;
    let total = pending_weight(items, resolved, n) as int;
    lemma_pending_weight_covers(items, resolved, i, n);
    if i == last_pending(resolved, n) {
        let given = shares(items, resolved, pool, total, i);
        lemma_shares_bounds(items, resolved, pool, total, i);
        assert(given <= pool) by (nonlinear_arith)
            requires
                given * total <= pool * pending_weight(items, resolved, i),
                pending_weight(items, resolved, i) <= total,
                0 <= pool,
                0 < total,
        ;
    } else {
        lemma_share_bounds(pool, items[i].weight as int, total);
    }
}

/// What the clamped items take is never negative.
pub proof fn lemma_taken_range(items: Seq<Sizing>, resolved: Seq<bool>, pool: int, k: int)
    ensures
        0 <= taken(items, resolved, pool, k),
    decreases k,
{
    if k > 0 {
        lemma_taken_range(items, resolved, pool, k - 1);
    }
}

/// The state a round leaves behind is one the next round can start from.
pub proof fn lemma_next_round_ready(items: Seq<Sizing>, resolved: Seq<bool>, pool: int)
    requires
        round_ready(items, resolved, pool),
    ensures
        round_ready(items, next_resolved(items, resolved, pool), next_pool(items, resolved, pool)),
        next_pool(items, resolved, pool) <= pool,
{
    lemma_taken_range(items, resolved, pool, items.len() as int);
    let after = next_resolved(items, resolved, pool);
    assert forall|i: int| pending(after, i) implies items[i].weight > 0 by {
        assert(pending(resolved, i));
    }
}

/// No size is negative, and none exceeds a limit that the item's bounds stay within.
pub proof fn lemma_resolved_size_range(
    items: Seq<Sizing>,
    resolved: Seq<bool>,
    pool: int,
    i: int,
    limit: int,
)
    requires
        pending(resolved, i),
        items[i].min <= limit,
        items[i].max <= limit,
    ensures
        0 <= resolved_size(items, resolved, pool, i) <= limit,
    decreases pending_count(resolved, resolved.len() as int),
{
    if !clamps(items, resolved, pool, i) && any_clamps(items, resolved, pool) {
        lemma_round_makes_progress(items, resolved, pool);
        lemma_resolved_size_range(
            items,
            next_resolved(items, resolved, pool),
            next_pool(items, resolved, pool),
            i,
            limit,
        );
    }
}

/// No pending item ends with a negative size.
pub proof fn lemma_resolved_size_nonnegative(items: Seq<Sizing>, resolved: Seq<bool>, pool: int, i: int)
    requires
        pending(resolved, i),
    ensures
        0 <= resolved_size(items, resolved, pool, i),
{
    lemma_resolved_size_range(items, resolved, pool, i, (items[i].min + items[i].max) as int);
}

/// Every size is within a limit that the item's bounds and fixed extent stay within.
pub proof fn lemma_main_size_range(items: Seq<Sizing>, main: int, i: int, limit: int)
    requires
        0 <= i < items.len(),
        items[i].min <= limit,
        items[i].max <= limit,
        items[i].fixed <= limit,
    ensures
        0 <= main_size(items, main, i) <= limit,
{
    if items[i].weight > 0 {
        lemma_resolved_size_range(items, fixed_flags(items), available(items, main), i, limit);
    }
}

/// A flexible item whose bounds are in order ends within them.
pub proof fn lemma_resolved_size_within_bounds(
    items: Seq<Sizing>,
    resolved: Seq<bool>,
    pool: int,
    i: int,
)
    requires
        pending(resolved, i),
        items[i].min <= items[i].max,
    ensures
        items[i].min <= resolved_size(items, resolved, pool, i) <= items[i].max,
    decreases pending_count(resolved, resolved.len() as int),
{
    if !clamps(items, resolved, pool, i) && any_clamps(items, resolved, pool) {
        lemma_round_makes_progress(items, resolved, pool);
        lemma_resolved_size_within_bounds(
            items,
            next_resolved(items, resolved, pool),
            next_pool(items, resolved, pool),
            i,
        );
    }
}

/// Only a pending item can end clamped.
pub proof fn lemma_ends_clamped_is_pending(items: Seq<Sizing>, resolved: Seq<bool>, pool: int, i: int)
    requires
        ends_clamped(items, resolved, pool, i),
    ensures
        pending(resolved, i),
    decreases pending_count(resolved, resolved.len() as int),
{
    if !clamps(items, resolved, pool, i) && any_clamps(items, resolved, pool) {
        lemma_round_makes_progress(items, resolved, pool);
        lemma_ends_clamped_is_pending(
            items,
            next_resolved(items, resolved, pool),
            next_pool(items, resolved, pool),
            i,
        );
    }
}

} // verus!
