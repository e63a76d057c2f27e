//! Accounting: where the space of a distribution goes. The sums of what is
//! offered, taken and handed out, and the conditions under which the flexible
//! items end with all the space there is.

use crate::bounds::{
    lemma_ends_clamped_is_pending, lemma_last_pending, lemma_next_round_ready,
    lemma_resolved_size_nonnegative, lemma_tentative_range,
};
use crate::flex::{
    any_clamps, available, clamps, ends_clamped, fixed_flags, fixed_total, is_clamped,
    last_pending, lemma_round_makes_progress, main_sizes, next_pool, next_resolved, pending,
    pending_count, pending_weight, resolved_size, round_ready, shares, sum_before, taken,
    tentative, Sizing,
};
use vstd::prelude::*;

verus! {

/// The offers of one round to the pending items among the first `k`, summed.
pub open spec fn offered(items: Seq<Sizing>, resolved: Seq<bool>, pool: int, k: int) -> int
    decreases k,
{
    if k <= 0 {
        0
    } else {
        offered(items, resolved, pool, k - 1) + if pending(resolved, k - 1) {
            tentative(items, resolved, pool, k - 1)
        } else {
            0
        }
    }
}

/// What one round offers to the items among the first `k` that it clamps.
pub open spec fn clamped_offers(items: Seq<Sizing>, resolved: Seq<bool>, pool: int, k: int) -> int
    decreases k,
{
    if k <= 0 {
        0
    } else {
        clamped_offers(items, resolved, pool, k - 1) + if clamps(items, resolved, pool, k - 1) {
            tentative(items, resolved, pool, k - 1)
        } else {
            0
        }
    }
}

/// Sum of the sizes that the pending items among the first `k` end with.
pub open spec fn pending_sizes(items: Seq<Sizing>, resolved: Seq<bool>, pool: int, k: int) -> int
    decreases k,
{
    if k <= 0 {
        0
    } else {
        pending_sizes(items, resolved, pool, k - 1) + if pending(resolved, k - 1) {
            resolved_size(items, resolved, pool, k - 1)
        } else {
            0
        }
    }
}

/// Sum of the sizes of the pending items among the first `k` that end clamped.
pub open spec fn clamped_sizes(items: Seq<Sizing>, resolved: Seq<bool>, pool: int, k: int) -> int
    decreases k,
{
    if k <= 0 {
        0
    } else {
        clamped_sizes(items, resolved, pool, k - 1) + if ends_clamped(
            items,
            resolved,
            pool,
            k - 1,
        ) {
            resolved_size(items, resolved, pool, k - 1)
        } else {
            0
        }
    }
}

/// Sum of the maximums of the pending items among the first `k`.
pub open spec fn pending_max(items: Seq<Sizing>, resolved: Seq<bool>, k: int) -> int
    decreases k,
{
    if k <= 0 {
        0
    } else {
        pending_max(items, resolved, k - 1) + if pending(resolved, k - 1) {
            items[k - 1].max as int
        } else {
            0
        }
    }
}

/// Sum of the minimums of the pending items among the first `k`.
pub open spec fn pending_min(items: Seq<Sizing>, resolved: Seq<bool>, k: int) -> int
    decreases k,
{
    if k <= 0 {
        0
    } else {
        pending_min(items, resolved, k - 1) + if pending(resolved, k - 1) {
            items[k - 1].min as int
        } else {
            0
        }
    }
}

/// Sum of the sizes that the flexible items end with.
pub open spec fn flexible_total(items: Seq<Sizing>, main: int) -> int {
    pending_sizes(items, fixed_flags(items), available(items, main), items.len() as int)
}

/// Sum of the sizes of the flexible items that end at one of their bounds.
pub open spec fn clamped_total(items: Seq<Sizing>, main: int) -> int {
    clamped_sizes(items, fixed_flags(items), available(items, main), items.len() as int)
}

/// Up to the last pending item the offers are the proportional shares; from
/// it on they add up to the pool.
pub proof fn lemma_offered(items: Seq<Sizing>, resolved: Seq<bool>, pool: int, k: int)
    requires
        resolved.len() == items.len(),
        0 <= k <= items.len(),
    ensures
        k <= last_pending(resolved, items.len() as int) ==> offered(items, resolved, pool, k)
            == shares(
            items,
            resolved,
            pool,
            pending_weight(items, resolved, items.len() as int) as int,
            k,
        ),
        last_pending(resolved, items.len() as int) < k ==> offered(items, resolved, pool, k) == (
        if last_pending(resolved, items.len() as int) < 0 {
            0
        } else {
            pool
        }),
    decreases k,
{
    lemma_last_pending(resolved, items.len() as int);
    if k > 0 {
        lemma_offered(items, resolved, pool, k - 1);
    }
}

/// The offers of a round with a pending item add up to the pool exactly.
pub proof fn lemma_offers_fill_pool(items: Seq<Sizing>, resolved: Seq<bool>, pool: int)
    requires
        resolved.len() == items.len(),
        exists|i: int| pending(resolved, i),
    ensures
        offered(items, resolved, pool, items.len() as int) == pool,
{
    let n = items.len() as int;
    let i = choose|i: int| pending(resolved, i);
    lemma_last_pending(resolved, n);
    lemma_offered(items, resolved, pool, n);
}

/// Without pending items there are no bounds to add up.
proof fn lemma_no_pending_no_bounds(items: Seq<Sizing>, resolved: Seq<bool>, k: int)
    requires
        pending_count(resolved, k) == 0,
    ensures
        pending_max(items, resolved, k) == 0,
        pending_min(items, resolved, k) == 0,
    decreases k,
{
    if k > 0 {
        lemma_no_pending_no_bounds(items, resolved, k - 1);
    }
}

/// Without pending items no sizes are handed out.
proof fn lemma_no_pending_no_sizes(items: Seq<Sizing>, resolved: Seq<bool>, pool: int, k: int)
    requires
        pending_count(resolved, k) == 0,
    ensures
        pending_sizes(items, resolved, pool, k) == 0,
    decreases k,
{
    if k > 0 {
        lemma_no_pending_no_sizes(items, resolved, pool, k - 1);
    }
}

/// The sizes of the items that end clamped never add up to less than nothing.
pub proof fn lemma_clamped_sizes_nonnegative(items: Seq<Sizing>, resolved: Seq<bool>, pool: int, k: int)
    requires
        round_ready(items, resolved, pool),
        0 <= k <= items.len(),
    ensures
        0 <= clamped_sizes(items, resolved, pool, k),
    decreases k,
{
    if k > 0 {
        lemma_clamped_sizes_nonnegative(items, resolved, pool, k - 1);
        if ends_clamped(items, resolved, pool, k - 1) {
            lemma_ends_clamped_is_pending(items, resolved, pool, k - 1);
            lemma_resolved_size_nonnegative(items, resolved, pool, k - 1);
        }
    }
}

/// In a round that clamps, the final sizes are what the clamped items take
/// now and what the next round's state gives the others.
proof fn lemma_round_splits_sizes(items: Seq<Sizing>, resolved: Seq<bool>, pool: int, k: int)
    requires
        resolved.len() == items.len(),
        any_clamps(items, resolved, pool),
        0 <= k <= items.len(),
    ensures
        pending_sizes(items, resolved, pool, k) == taken(items, resolved, pool, k) + pending_sizes(
            items,
            next_resolved(items, resolved, pool),
            next_pool(items, resolved, pool),
            k,
        ),
        clamped_sizes(items, resolved, pool, k) == taken(items, resolved, pool, k) + clamped_sizes(
            items,
            next_resolved(items, resolved, pool),
            next_pool(items, resolved, pool),
            k,
        ),
    decreases k,
{
    if k > 0 {
        lemma_round_splits_sizes(items, resolved, pool, k - 1);
        let after = next_resolved(items, resolved, pool);
        let rest = next_pool(items, resolved, pool);
        let i = k - 1;
        if ends_clamped(items, after, rest, i) {
            lemma_ends_clamped_is_pending(items, after, rest, i);
        }
    }
}

/// In a round that clamps nothing, the final sizes are the offers, and no
/// item ends clamped.
proof fn lemma_quiet_round_sizes(items: Seq<Sizing>, resolved: Seq<bool>, pool: int, k: int)
    requires
        resolved.len() == items.len(),
        !any_clamps(items, resolved, pool),
        0 <= k <= items.len(),
    ensures
        pending_sizes(items, resolved, pool, k) == offered(items, resolved, pool, k),
        clamped_sizes(items, resolved, pool, k) == 0,
    decreases k,
{
    if k > 0 {
        lemma_quiet_round_sizes(items, resolved, pool, k - 1);
    }
}

/// All sizes together are what the fixed items keep and what the flexible ones end with.
pub proof fn lemma_sizes_split(items: Seq<Sizing>, main: int, k: int)
    requires
        0 <= k <= items.len(),
    ensures
        sum_before(main_sizes(items, main), k) == fixed_total(items, k) + pending_sizes(
            items,
            fixed_flags(items),
            available(items, main),
            k,
        ),
    decreases k,
{
    if k > 0 {
        lemma_sizes_split(items, main, k - 1);
    }
}

/// Where no flexible item is clamped, the sizes add up to what the fixed
/// items keep and all that is available beside them.
pub proof fn lemma_sizes_conserve_space(items: Seq<Sizing>, main: int)
    requires
        exists|i: int| 0 <= i < items.len() && items[i].weight > 0,
        !any_clamps(items, fixed_flags(items), available(items, main)),
    ensures
        sum_before(main_sizes(items, main), items.len() as int) == fixed_total(
            items,
            items.len() as int,
        ) + available(items, main),
{
    let n = items.len() as int;
    let flags = fixed_flags(items);
    let pool = available(items, main);
    let i = choose|i: int| 0 <= i < items.len() && items[i].weight > 0;
    assert(pending(flags, i));
    lemma_sizes_split(items, main, n);
    lemma_quiet_round_sizes(items, flags, pool, n);
    lemma_offers_fill_pool(items, flags, pool);
}

/// Space is never lost while an item is left to take it: where some pending
/// item ends unclamped, the pending items together end with the whole pool,
/// or with what the clamped ones take where that alone is more.
pub proof fn lemma_pool_is_absorbed(items: Seq<Sizing>, resolved: Seq<bool>, pool: int)
    requires
        round_ready(items, resolved, pool),
        exists|i: int| pending(resolved, i) && !ends_clamped(items, resolved, pool, i),
    ensures
        pending_sizes(items, resolved, pool, items.len() as int) == if pool >= clamped_sizes(
            items,
            resolved,
            pool,
            items.len() as int,
        ) {
            pool
        } else {
            clamped_sizes(items, resolved, pool, items.len() as int)
        },
    decreases pending_count(resolved, resolved.len() as int),
{
    let n = items.len() as int;
    let i = choose|i: int| pending(resolved, i) && !ends_clamped(items, resolved, pool, i);
    if any_clamps(items, resolved, pool) {
        let after = next_resolved(items, resolved, pool);
        let rest = next_pool(items, resolved, pool);
        lemma_round_makes_progress(items, resolved, pool);
        lemma_round_splits_sizes(items, resolved, pool, n);
        assert(pending(after, i) && !ends_clamped(items, after, rest, i));
        lemma_pool_is_absorbed(items, after, rest);
        lemma_clamped_sizes_nonnegative(items, after, rest, n);
    } else {
        lemma_quiet_round_sizes(items, resolved, pool, n);
        lemma_offers_fill_pool(items, resolved, pool);
    }
}

/// What a clamped item frees or borrows goes to the others: where some
/// flexible item ends unclamped, the flexible items together take exactly
/// what is available, or what the clamped ones take where that alone is more.
pub proof fn lemma_clamped_space_is_redistributed(items: Seq<Sizing>, main: int)
    requires
        exists|i: int| 0 <= i < items.len() && items[i].weight > 0 && !is_clamped(items, main, i),
    ensures
        flexible_total(items, main) == if available(items, main) >= clamped_total(items, main) {
            available(items, main)
        } else {
            clamped_total(items, main)
        },
        sum_before(main_sizes(items, main), items.len() as int) == fixed_total(
            items,
            items.len() as int,
        ) + flexible_total(items, main),
{
    let n = items.len() as int;
    let flags = fixed_flags(items);
    let pool = available(items, main);
    let i = choose|i: int| 0 <= i < items.len() && items[i].weight > 0 && !is_clamped(items, main, i);
    assert(pending(flags, i) && !ends_clamped(items, flags, pool, i));
    lemma_pool_is_absorbed(items, flags, pool);
    lemma_sizes_split(items, main, n);
}

/// How many of the first `k` items this round clamps.
pub open spec fn clamped_count(items: Seq<Sizing>, resolved: Seq<bool>, pool: int, k: int) -> nat
    decreases k,
{
    if k <= 0 {
        0
    } else {
        clamped_count(items, resolved, pool, k - 1) + if clamps(items, resolved, pool, k - 1) {
            1nat
        } else {
            0nat
        }
    }
}

/// Whether this round raises pending item `i` to its minimum.
pub open spec fn raises(items: Seq<Sizing>, resolved: Seq<bool>, pool: int, i: int) -> bool {
    pending(resolved, i) && tentative(items, resolved, pool, i) < items[i].min
}

/// Whether this round caps pending item `i` at its maximum.
pub open spec fn caps(items: Seq<Sizing>, resolved: Seq<bool>, pool: int, i: int) -> bool {
    pending(resolved, i) && tentative(items, resolved, pool, i) > items[i].max
}

/// Whether this round raises no item.
pub open spec fn raises_none(items: Seq<Sizing>, resolved: Seq<bool>, pool: int) -> bool {
    forall|i: int| !raises(items, resolved, pool, i)
}

/// Whether this round caps no item.
pub open spec fn caps_none(items: Seq<Sizing>, resolved: Seq<bool>, pool: int) -> bool {
    forall|i: int| !caps(items, resolved, pool, i)
}

/// Whether no round from this one on both raises an item and caps another.
pub open spec fn clamps_one_way(items: Seq<Sizing>, resolved: Seq<bool>, pool: int) -> bool
    decreases pending_count(resolved, resolved.len() as int),
    via clamps_one_way_terminates
{
    &&& raises_none(items, resolved, pool) || caps_none(items, resolved, pool)
    &&& any_clamps(items, resolved, pool) ==> clamps_one_way(
        items,
        next_resolved(items, resolved, pool),
        next_pool(items, resolved, pool),
    )
}

#[via_fn]
proof fn clamps_one_way_terminates(items: Seq<Sizing>, resolved: Seq<bool>, pool: int) {
    if any_clamps(items, resolved, pool) {
        lemma_round_makes_progress(items, resolved, pool);
    }
}

/// Whether no pending item has a minimum, so that no offer can be raised.
pub open spec fn without_minimums(items: Seq<Sizing>, resolved: Seq<bool>) -> bool {
    forall|i: int| pending(resolved, i) ==> items[i].min == 0
}

/// Whether every pending item has a maximum of at least `pool`, so that no
/// offer can be capped.
pub open spec fn without_binding_maximums(items: Seq<Sizing>, resolved: Seq<bool>, pool: int) -> bool {
    forall|i: int| pending(resolved, i) ==> items[i].max >= pool
}

/// Whether the minimum of every pending item is at most its maximum.
pub open spec fn bounds_ordered(items: Seq<Sizing>, resolved: Seq<bool>) -> bool {
    forall|i: int| pending(resolved, i) ==> items[i].min <= items[i].max
}

/// Sum of the maximums of the flexible items.
pub open spec fn maximum_total(items: Seq<Sizing>) -> int {
    pending_max(items, fixed_flags(items), items.len() as int)
}

/// Sum of the minimums of the flexible items.
pub open spec fn minimum_total(items: Seq<Sizing>) -> int {
    pending_min(items, fixed_flags(items), items.len() as int)
}

/// A round clamps one of the first `k` items exactly if it counts a clamped one among them.
proof fn lemma_clamped_count(items: Seq<Sizing>, resolved: Seq<bool>, pool: int, k: int)
    requires
        0 <= k,
    ensures
        clamped_count(items, resolved, pool, k) > 0 <==> exists|i: int|
            0 <= i < k && clamps(items, resolved, pool, i),
    decreases k,
{
    if k > 0 {
        lemma_clamped_count(items, resolved, pool, k - 1);
        if clamped_count(items, resolved, pool, k - 1) > 0 {
            let i = choose|i: int| 0 <= i < k - 1 && clamps(items, resolved, pool, i);
            assert(0 <= i < k && clamps(items, resolved, pool, i));
        } else if clamps(items, resolved, pool, k - 1) {
            assert(0 <= k - 1 < k && clamps(items, resolved, pool, k - 1));
        }
    }
}

/// Over all items, the count of clamped items tells whether the round clamps.
proof fn lemma_any_clamps_counted(items: Seq<Sizing>, resolved: Seq<bool>, pool: int)
    requires
        resolved.len() == items.len(),
    ensures
        any_clamps(items, resolved, pool) <==> clamped_count(
            items,
            resolved,
            pool,
            items.len() as int,
        ) > 0,
{
    let n = items.len() as int;
    lemma_clamped_count(items, resolved, pool, n);
    if any_clamps(items, resolved, pool) {
        let i = choose|i: int| clamps(items, resolved, pool, i);
        assert(0 <= i < n && clamps(items, resolved, pool, i));
    }
}

/// One round's offers over the first `k` items: the items that stay pending
/// are offered no less than their minimums and no more than their maximums.
proof fn lemma_round_offers(items: Seq<Sizing>, resolved: Seq<bool>, pool: int, k: int)
    requires
        round_ready(items, resolved, pool),
        0 <= k <= items.len(),
    ensures
        0 <= clamped_offers(items, resolved, pool, k),
        0 <= pending_min(items, next_resolved(items, resolved, pool), k),
        pending_min(items, next_resolved(items, resolved, pool), k) + clamped_offers(
            items,
            resolved,
            pool,
            k,
        ) <= offered(items, resolved, pool, k),
        offered(items, resolved, pool, k) <= pending_max(
            items,
            next_resolved(items, resolved, pool),
            k,
        ) + clamped_offers(items, resolved, pool, k),
        clamped_count(items, resolved, pool, k) == 0 ==> taken(items, resolved, pool, k) == 0
            && clamped_offers(items, resolved, pool, k) == 0,
        pending_count(next_resolved(items, resolved, pool), k) == 0 ==> offered(
            items,
            resolved,
            pool,
            k,
        ) == clamped_offers(items, resolved, pool, k),
    decreases k,
{
    if k > 0 {
        lemma_round_offers(items, resolved, pool, k - 1);
        if pending(resolved, k - 1) {
            lemma_tentative_range(items, resolved, pool, k - 1);
        }
    }
}

/// One round's sums over the first `k` items, where the round raises none:
/// the clamped items take their maximums, which is less than they were offered.
proof fn lemma_capping_round(items: Seq<Sizing>, resolved: Seq<bool>, pool: int, k: int)
    requires
        raises_none(items, resolved, pool),
        0 <= k,
    ensures
        pending_max(items, resolved, k) == taken(items, resolved, pool, k) + pending_max(
            items,
            next_resolved(items, resolved, pool),
            k,
        ),
        taken(items, resolved, pool, k) <= clamped_offers(items, resolved, pool, k),
        clamped_count(items, resolved, pool, k) > 0 ==> taken(items, resolved, pool, k)
            < clamped_offers(items, resolved, pool, k),
    decreases k,
{
    if k > 0 {
        lemma_capping_round(items, resolved, pool, k - 1);
        assert(!raises(items, resolved, pool, k - 1));
    }
}

/// One round's sums over the first `k` items, where the round caps none:
/// the clamped items take their minimums, which is more than they were offered.
proof fn lemma_raising_round(items: Seq<Sizing>, resolved: Seq<bool>, pool: int, k: int)
    requires
        caps_none(items, resolved, pool),
        0 <= k,
    ensures
        pending_min(items, resolved, k) == taken(items, resolved, pool, k) + pending_min(
            items,
            next_resolved(items, resolved, pool),
            k,
        ),
        clamped_offers(items, resolved, pool, k) <= taken(items, resolved, pool, k),
        clamped_count(items, resolved, pool, k) > 0 ==> clamped_offers(items, resolved, pool, k)
            < taken(items, resolved, pool, k),
    decreases k,
{
    if k > 0 {
        lemma_raising_round(items, resolved, pool, k - 1);
        assert(!caps(items, resolved, pool, k - 1));
    }
}

/// A round without minimums raises none, and the next round is without minimums too.
proof fn lemma_without_minimums(items: Seq<Sizing>, resolved: Seq<bool>, pool: int)
    requires
        round_ready(items, resolved, pool),
        without_minimums(items, resolved),
    ensures
        raises_none(items, resolved, pool),
        without_minimums(items, next_resolved(items, resolved, pool)),
{
    assert forall|i: int| !raises(items, resolved, pool, i) by {
        if pending(resolved, i) {
            lemma_tentative_range(items, resolved, pool, i);
        }
    }
    assert forall|i: int| pending(next_resolved(items, resolved, pool), i) implies items[i].min
        == 0 by {
        assert(pending(resolved, i));
    }
}

/// A round without binding maximums caps none, and the next round is
/// without binding maximums too.
proof fn lemma_without_binding_maximums(items: Seq<Sizing>, resolved: Seq<bool>, pool: int)
    requires
        round_ready(items, resolved, pool),
        without_binding_maximums(items, resolved, pool),
    ensures
        caps_none(items, resolved, pool),
        without_binding_maximums(
            items,
            next_resolved(items, resolved, pool),
            next_pool(items, resolved, pool),
        ),
{
    lemma_next_round_ready(items, resolved, pool);
    assert forall|i: int| !caps(items, resolved, pool, i) by {
        if pending(resolved, i) {
            lemma_tentative_range(items, resolved, pool, i);
        }
    }
    assert forall|i: int| pending(next_resolved(items, resolved, pool), i) implies items[i].max
        >= next_pool(items, resolved, pool) by {
        assert(pending(resolved, i));
    }
}

/// Where no offer can be raised, the space that a capped item frees is
/// taken up by the others as far as their maximums allow: the pending items
/// end with the whole pool, or with all their maximums where these are less.
pub proof fn lemma_freed_space_is_absorbed(items: Seq<Sizing>, resolved: Seq<bool>, pool: int)
    requires
        round_ready(items, resolved, pool),
        without_minimums(items, resolved),
    ensures
        pending_sizes(items, resolved, pool, items.len() as int) == if pool <= pending_max(
            items,
            resolved,
            items.len() as int,
        ) {
            pool
        } else {
            pending_max(items, resolved, items.len() as int)
        },
    decreases pending_count(resolved, resolved.len() as int),
{
    let n = items.len() as int;
    lemma_without_minimums(items, resolved, pool);
    lemma_round_offers(items, resolved, pool, n);
    lemma_capping_round(items, resolved, pool, n);
    lemma_any_clamps_counted(items, resolved, pool);
    lemma_last_pending(resolved, n);
    lemma_offered(items, resolved, pool, n);
    if any_clamps(items, resolved, pool) {
        lemma_round_makes_progress(items, resolved, pool);
        lemma_next_round_ready(items, resolved, pool);
        lemma_round_splits_sizes(items, resolved, pool, n);
        lemma_freed_space_is_absorbed(
            items,
            next_resolved(items, resolved, pool),
            next_pool(items, resolved, pool),
        );
    } else {
        lemma_quiet_round_sizes(items, resolved, pool, n);
        if last_pending(resolved, n) < 0 {
            lemma_no_pending_no_bounds(items, resolved, n);
        }
    }
}

/// Where no offer can be capped, the space that a raised item borrows is
/// withdrawn from the others as far as their minimums allow: the pending
/// items end with the whole pool, or with all their minimums where these
/// are more.
pub proof fn lemma_borrowed_space_is_withdrawn(items: Seq<Sizing>, resolved: Seq<bool>, pool: int)
    requires
        round_ready(items, resolved, pool),
        without_binding_maximums(items, resolved, pool),
        exists|i: int| pending(resolved, i),
    ensures
        pending_sizes(items, resolved, pool, items.len() as int) == if pool >= pending_min(
            items,
            resolved,
            items.len() as int,
        ) {
            pool
        } else {
            pending_min(items, resolved, items.len() as int)
        },
    decreases pending_count(resolved, resolved.len() as int),
{
    let n = items.len() as int;
    lemma_without_binding_maximums(items, resolved, pool);
    lemma_round_offers(items, resolved, pool, n);
    lemma_raising_round(items, resolved, pool, n);
    lemma_any_clamps_counted(items, resolved, pool);
    lemma_offers_fill_pool(items, resolved, pool);
    if any_clamps(items, resolved, pool) {
        let after = next_resolved(items, resolved, pool);
        let rest = next_pool(items, resolved, pool);
        lemma_round_makes_progress(items, resolved, pool);
        lemma_next_round_ready(items, resolved, pool);
        lemma_round_splits_sizes(items, resolved, pool, n);
        lemma_last_pending(after, n);
        if last_pending(after, n) < 0 {
            lemma_no_pending_no_sizes(items, after, rest, n);
        } else {
            lemma_borrowed_space_is_withdrawn(items, after, rest);
        }
    } else {
        lemma_quiet_round_sizes(items, resolved, pool, n);
    }
}

/// Where the pool lies within the combined range of the pending items,
/// their bounds are in order, and no round clamps both ways, what one item
/// frees or borrows is made up by the others: the pending items end with
/// exactly the pool.
pub proof fn lemma_range_is_met(items: Seq<Sizing>, resolved: Seq<bool>, pool: int)
    requires
        round_ready(items, resolved, pool),
        bounds_ordered(items, resolved),
        clamps_one_way(items, resolved, pool),
        pending_min(items, resolved, items.len() as int) <= pool <= pending_max(
            items,
            resolved,
            items.len() as int,
        ),
    ensures
        pending_sizes(items, resolved, pool, items.len() as int) == pool,
    decreases pending_count(resolved, resolved.len() as int),
{
    let n = items.len() as int;
    lemma_round_offers(items, resolved, pool, n);
    lemma_any_clamps_counted(items, resolved, pool);
    lemma_last_pending(resolved, n);
    lemma_offered(items, resolved, pool, n);
    if any_clamps(items, resolved, pool) {
        let after = next_resolved(items, resolved, pool);
        lemma_round_makes_progress(items, resolved, pool);
        lemma_next_round_ready(items, resolved, pool);
        lemma_round_splits_sizes(items, resolved, pool, n);
        lemma_bounds_stay_ordered(items, resolved, pool, n);
        if raises_none(items, resolved, pool) {
            lemma_capping_round(items, resolved, pool, n);
        } else {
            lemma_raising_round(items, resolved, pool, n);
        }
        assert forall|i: int| pending(after, i) implies items[i].min <= items[i].max by {
            assert(pending(resolved, i));
        }
        lemma_range_is_met(items, after, next_pool(items, resolved, pool));
    } else {
        lemma_quiet_round_sizes(items, resolved, pool, n);
        if last_pending(resolved, n) < 0 {
            lemma_no_pending_no_bounds(items, resolved, n);
        }
    }
}

/// One round's bounds over the first `k` items, where the bounds are in
/// order: the clamped items take no less than their minimums and no more
/// than their maximums.
proof fn lemma_bounds_stay_ordered(items: Seq<Sizing>, resolved: Seq<bool>, pool: int, k: int)
    requires
        bounds_ordered(items, resolved),
        0 <= k,
    ensures
        pending_min(items, resolved, k) <= taken(items, resolved, pool, k) + pending_min(
            items,
            next_resolved(items, resolved, pool),
            k,
        ),
        pending_max(items, resolved, k) >= taken(items, resolved, pool, k) + pending_max(
            items,
            next_resolved(items, resolved, pool),
            k,
        ),
    decreases k,
{
    if k > 0 {
        lemma_bounds_stay_ordered(items, resolved, pool, k - 1);
        if pending(resolved, k - 1) {
            assert(items[k - 1].min <= items[k - 1].max);
        }
    }
}

/// Where every pending item ends clamped, the clamped sizes are all the sizes.
pub proof fn lemma_all_clamped(items: Seq<Sizing>, resolved: Seq<bool>, pool: int, k: int)
    requires
        forall|i: int| pending(resolved, i) ==> ends_clamped(items, resolved, pool, i),
    ensures
        pending_sizes(items, resolved, pool, k) == clamped_sizes(items, resolved, pool, k),
    decreases k,
{
    if k > 0 {
        lemma_all_clamped(items, resolved, pool, k - 1);
        if ends_clamped(items, resolved, pool, k - 1) {
            lemma_ends_clamped_is_pending(items, resolved, pool, k - 1);
        }
    }
}

} // verus!
