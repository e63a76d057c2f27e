//! The model of main-axis distribution: how a pool of space is shared among
//! weighted items, each bounded by a minimum and a maximum.
//!
//! Distribution runs in rounds. In a round every pending item is offered its
//! proportional share of the pool, the last pending item taking what integer
//! division left over. An item whose bounds reject the offer is settled at the
//! nearest bound and leaves; what it took is withdrawn from the pool, and the
//! others are offered again. The rounds end when every offer is accepted or
//! nobody is pending.

use vstd::prelude::*;

verus! {

/// What the distribution reads of one child.
pub struct Sizing {
    /// Flex weight; `0` marks a fixed item.
    pub weight: nat,
    /// Least extent a flexible item accepts.
    pub min: nat,
    /// Greatest extent a flexible item accepts.
    pub max: nat,
    /// Extent a fixed item keeps; `0` for a flexible one.
    pub fixed: nat,
}

/// `v` moved to the nearest point of `[lo, hi]`. Where the bounds cross, a
/// value under `lo` goes to `lo` and every other to `hi`.
pub open spec fn clamp(v: int, lo: int, hi: int) -> int {
    if v < lo {
        lo
    } else if v > hi {
        hi
    } else {
        v
    }
}

/// Whether item `i` still awaits its size.
pub open spec fn pending(resolved: Seq<bool>, i: int) -> bool {
    0 <= i < resolved.len() && !resolved[i]
}

/// How many of the first `k` items are pending.
pub open spec fn pending_count(resolved: Seq<bool>, k: int) -> nat
    decreases k,
{
    if k <= 0 {
        0
    } else {
        pending_count(resolved, k - 1) + if pending(resolved, k - 1) {
            1nat
        } else {
            0nat
        }
    }
}

/// Sum of the weights of the pending items among the first `k`.
pub open spec fn pending_weight(items: Seq<Sizing>, resolved: Seq<bool>, k: int) -> nat
    decreases k,
{
    if k <= 0 {
        0
    } else {
        pending_weight(items, resolved, k - 1) + if pending(resolved, k - 1) {
            items[k - 1].weight
        } else {
            0nat
        }
    }
}

/// Index of the last pending item among the first `k`, or `-1`.
pub open spec fn last_pending(resolved: Seq<bool>, k: int) -> int
    decreases k,
{
    if k <= 0 {
        -1
    } else if pending(resolved, k - 1) {
        k - 1
    } else {
        last_pending(resolved, k - 1)
    }
}

/// The proportional share of `pool` for one weight out of `total`, rounded down.
pub open spec fn share(pool: int, weight: int, total: int) -> int {
    (pool * weight) / total
}

/// Sum of the proportional shares of the pending items among the first `k`.
pub open spec fn shares(items: Seq<Sizing>, resolved: Seq<bool>, pool: int, total: int, k: int) -> int
    decreases k,
{
    if k <= 0 {
        0
    } else {
        shares(items, resolved, pool, total, k - 1) + if pending(resolved, k - 1) {
            share(pool, items[k - 1].weight as int, total)
        } else {
            0
        }
    }
}

/// What item `i` is offered in a round: its proportional share, or, for the
/// last pending item, whatever the shares of the others leave of the pool.
pub open spec fn tentative(items: Seq<Sizing>, resolved: Seq<bool>, pool: int, i: int) -> int {
    let n = items.len() as int;
    let total = pending_weight(items, resolved, n) as int;
    if i == last_pending(resolved, n) {
        pool - shares(items, resolved, pool, total, i)
    } else {
        share(pool, items[i].weight as int, total)
    }
}

/// The offer to item `i`, held to the item's bounds.
pub open spec fn settled(items: Seq<Sizing>, resolved: Seq<bool>, pool: int, i: int) -> int {
    clamp(tentative(items, resolved, pool, i), items[i].min as int, items[i].max as int)
}

/// Whether item `i` is pending and its bounds reject this round's offer.
pub open spec fn clamps(items: Seq<Sizing>, resolved: Seq<bool>, pool: int, i: int) -> bool {
    pending(resolved, i) && settled(items, resolved, pool, i) != tentative(items, resolved, pool, i)
}

/// Whether any item is clamped in this round.
pub open spec fn any_clamps(items: Seq<Sizing>, resolved: Seq<bool>, pool: int) -> bool {
    exists|i: int| clamps(items, resolved, pool, i)
}

/// Space taken by the items among the first `k` that are clamped in this round.
pub open spec fn taken(items: Seq<Sizing>, resolved: Seq<bool>, pool: int, k: int) -> int
    decreases k,
{
    if k <= 0 {
        0
    } else {
        taken(items, resolved, pool, k - 1) + if clamps(items, resolved, pool, k - 1) {
            settled(items, resolved, pool, k - 1)
        } else {
            0
        }
    }
}

/// The resolved flags after a round: the clamped items have left.
pub open spec fn next_resolved(items: Seq<Sizing>, resolved: Seq<bool>, pool: int) -> Seq<bool> {
    Seq::new(resolved.len(), |i: int| resolved[i] || clamps(items, resolved, pool, i))
}

/// The pool after a round: what the clamped items did not take, never below zero.
pub open spec fn next_pool(items: Seq<Sizing>, resolved: Seq<bool>, pool: int) -> int {
    let rest = pool - taken(items, resolved, pool, items.len() as int);
    if rest < 0 {
        0
    } else {
        rest
    }
}

/// Clearing flags never adds pending items, and clearing a pending one below
/// `k` removes one.
proof fn lemma_pending_count_shrinks(before: Seq<bool>, after: Seq<bool>, k: int, j: int)
    requires
        before.len() == after.len(),
        forall|i: int| 0 <= i < before.len() && before[i] ==> after[i],
        0 <= k <= before.len(),
    ensures
        pending_count(after, k) <= pending_count(before, k),
        0 <= j < k && !before[j] && after[j] ==> pending_count(after, k) < pending_count(before, k),
    decreases k,
{
    if k > 0 {
        lemma_pending_count_shrinks(before, after, k - 1, j);
    }
}

/// A round in which an item is clamped leaves fewer items pending.
pub proof fn lemma_round_makes_progress(items: Seq<Sizing>, resolved: Seq<bool>, pool: int)
    requires
        any_clamps(items, resolved, pool),
    ensures
        pending_count(next_resolved(items, resolved, pool), resolved.len() as int) < pending_count(
            resolved,
            resolved.len() as int,
        ),
{
    let j = choose|j: int| clamps(items, resolved, pool, j);
    let after = next_resolved(items, resolved, pool);
    lemma_pending_count_shrinks(resolved, after, resolved.len() as int, j);
}

/// The size that pending item `i` ends with, from the state of one round on.
pub open spec fn resolved_size(items: Seq<Sizing>, resolved: Seq<bool>, pool: int, i: int) -> int
    decreases pending_count(resolved, resolved.len() as int),
    via resolved_size_terminates
{
    if clamps(items, resolved, pool, i) {
        settled(items, resolved, pool, i)
    } else if any_clamps(items, resolved, pool) {
        resolved_size(
            items,
            next_resolved(items, resolved, pool),
            next_pool(items, resolved, pool),
            i,
        )
    } else {
        tentative(items, resolved, pool, i)
    }
}

#[via_fn]
proof fn resolved_size_terminates(items: Seq<Sizing>, resolved: Seq<bool>, pool: int, i: int) {
    if any_clamps(items, resolved, pool) {
        lemma_round_makes_progress(items, resolved, pool);
    }
}

/// Whether pending item `i` ends at one of its bounds instead of at an offer.
pub open spec fn ends_clamped(items: Seq<Sizing>, resolved: Seq<bool>, pool: int, i: int) -> bool
    decreases pending_count(resolved, resolved.len() as int),
    via ends_clamped_terminates
{
    if clamps(items, resolved, pool, i) {
        true
    } else if any_clamps(items, resolved, pool) {
        ends_clamped(
            items,
            next_resolved(items, resolved, pool),
            next_pool(items, resolved, pool),
            i,
        )
    } else {
        false
    }
}

#[via_fn]
proof fn ends_clamped_terminates(items: Seq<Sizing>, resolved: Seq<bool>, pool: int, i: int) {
    if any_clamps(items, resolved, pool) {
        lemma_round_makes_progress(items, resolved, pool);
    }
}

/// A state that a round can start from: one flag per item, a pool that is not
/// negative, and a positive weight on every pending item.
pub open spec fn round_ready(items: Seq<Sizing>, resolved: Seq<bool>, pool: int) -> bool {
    &&& resolved.len() == items.len()
    &&& 0 <= pool
    &&& forall|i: int| pending(resolved, i) ==> items[i].weight > 0
}

/// Sum of the extents that the fixed items among the first `k` keep.
pub open spec fn fixed_total(items: Seq<Sizing>, k: int) -> int
    decreases k,
{
    if k <= 0 {
        0
    } else {
        fixed_total(items, k - 1) + if items[k - 1].weight == 0 {
            items[k - 1].fixed as int
        } else {
            0
        }
    }
}

/// What a main-axis extent of `main` leaves for the flexible items, never below zero.
pub open spec fn available(items: Seq<Sizing>, main: int) -> int {
    let rest = main - fixed_total(items, items.len() as int);
    if rest < 0 {
        0
    } else {
        rest
    }
}

/// The flags before the first round: exactly the fixed items are resolved.
pub open spec fn fixed_flags(items: Seq<Sizing>) -> Seq<bool> {
    Seq::new(items.len(), |i: int| items[i].weight == 0)
}

/// The main-axis size of item `i` within an extent of `main`: a fixed item
/// keeps its own, a flexible one gets what the rounds give it.
pub open spec fn main_size(items: Seq<Sizing>, main: int, i: int) -> int {
    if items[i].weight == 0 {
        items[i].fixed as int
    } else {
        resolved_size(items, fixed_flags(items), available(items, main), i)
    }
}

/// The main-axis sizes of all items, in order.
pub open spec fn main_sizes(items: Seq<Sizing>, main: int) -> Seq<int> {
    Seq::new(items.len(), |i: int| main_size(items, main, i))
}

/// Whether flexible item `i` ends at one of its bounds.
pub open spec fn is_clamped(items: Seq<Sizing>, main: int, i: int) -> bool {
    ends_clamped(items, fixed_flags(items), available(items, main), i)
}

/// Sum of the first `k` sizes.
pub open spec fn sum_before(sizes: Seq<int>, k: int) -> int
    decreases k,
{
    if k <= 0 {
        0
    } else {
        sum_before(sizes, k - 1) + sizes[k - 1]
    }
}

} // verus!
