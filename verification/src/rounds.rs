//! The rounds of main-axis distribution, carried out on the children of a layout.

use crate::bounds::{
    lemma_last_pending, lemma_next_round_ready, lemma_no_pending_no_weight,
    lemma_pending_weight_covers, lemma_share_bounds, lemma_shares_bounds, lemma_tentative_range,
};
use crate::flex::{
    any_clamps, clamp, clamps, fixed_flags, fixed_total, last_pending, lemma_round_makes_progress,
    main_size, next_pool, next_resolved, pending, pending_count, pending_weight, resolved_size,
    round_ready, settled, share, shares, taken,
};
use crate::layout::{main_extent, main_extent_of, sizings, Direction, LayoutChild, CAPACITY};
use vstd::prelude::*;

verus! {

/// `v` held to `[lo, hi]`.
fn clamp_to(v: u32, lo: u16, hi: u16) -> (held: u16)
    requires
        v <= u16::MAX,
    ensures
        held == clamp(v as int, lo as int, hi as int),
{
    if v < lo as u32 {
        lo
    } else if v > hi as u32 {
        hi
    } else {
        v as u16
    }
}

/// The proportional share of `pool` for `weight` out of `total`.
fn share_of(pool: u32, weight: u8, total: u32) -> (part: u32)
    requires
        pool <= u16::MAX,
        0 < total,
        weight <= total,
    ensures
        part == share(pool as int, weight as int, total as int),
        part <= pool,
{
    proof {
        lemma_share_bounds(pool as int, weight as int, total as int);
        assert(pool * weight <= 0xffff * 0xff) by (nonlinear_arith)
            requires
                pool <= 0xffff,
                weight <= 0xff,
        ;
    }
    (pool * weight as u32) / total
}

/// Whether the flags in `resolved` are those of `flags`, one per child.
pub open spec fn flags_held(resolved: [bool; 8], flags: Seq<bool>) -> bool {
    &&& flags.len() <= CAPACITY
    &&& forall|i: int| 0 <= i < flags.len() ==> resolved[i] == flags[i]
}

/// Gives every fixed child the extent it has, marks exactly the fixed
/// children as resolved, and returns the sum of their extents.
fn settle_fixed(
    children: &[LayoutChild],
    direction: Direction,
    sizes: &mut [u16; 8],
    resolved: &mut [bool; 8],
) -> (fixed: u32)
    requires
        children@.len() <= CAPACITY,
    ensures
        fixed == fixed_total(sizings(direction, children@), children@.len() as int),
        fixed <= children@.len() * u16::MAX,
        flags_held(*final(resolved), fixed_flags(sizings(direction, children@))),
        forall|i: int|
            0 <= i < children@.len() && children@[i].flex == 0 ==> final(sizes)[i] == main_extent(
                direction,
                children@[i].rect,
            ),
{
    let n = children.len();
    let ghost items = sizings(direction, children@);
    let mut fixed: u32 = 0;
    let mut i: usize = 0;
    while i < n
        invariant
            n == children@.len(),
            n <= CAPACITY,
            i <= n,
            items == sizings(direction, children@),
            fixed == fixed_total(items, i as int),
            fixed <= i * u16::MAX,
            forall|j: int| 0 <= j < i ==> resolved[j] == (children@[j].flex == 0),
            forall|j: int|
                0 <= j < i && children@[j].flex == 0 ==> sizes[j] == main_extent(
                    direction,
                    children@[j].rect,
                ),
        decreases n - i,
    {
        if children[i].flex == 0 {
            let extent = main_extent_of(direction, &children[i].rect);
            sizes[i] = extent;
            resolved[i] = true;
            fixed = fixed + extent as u32;
        } else {
            resolved[i] = false;
        }
        i += 1;
    }
    fixed
}

/// Adds up the weights of the pending children and finds the last of them.
fn weigh(
    children: &[LayoutChild],
    direction: Direction,
    resolved: &[bool; 8],
    Ghost(flags): Ghost<Seq<bool>>,
) -> (found: (u32, usize))
    requires
        flags.len() == children@.len(),
        flags_held(*resolved, flags),
    ensures
        found.0 == pending_weight(sizings(direction, children@), flags, children@.len() as int),
        found.0 <= children@.len() * u8::MAX,
        pending_count(flags, children@.len() as int) > 0 ==> found.1 == last_pending(
            flags,
            children@.len() as int,
        ),
{
    let n = children.len();
    let ghost items = sizings(direction, children@);
    let mut total: u32 = 0;
    let mut last: usize = 0;
    let mut i: usize = 0;
    while i < n
        invariant
            n == children@.len(),
            flags.len() == n,
            flags_held(*resolved, flags),
            i <= n,
            items == sizings(direction, children@),
            total == pending_weight(items, flags, i as int),
            total <= i * u8::MAX,
            pending_count(flags, i as int) > 0 ==> last == last_pending(flags, i as int),
        decreases n - i,
    {
        if !resolved[i] {
            total = total + children[i].flex as u32;
            last = i;
        }
        i += 1;
    }
    (total, last)
}

/// One round: offers every pending child its part of `pool`, holds the offer
/// to the child's bounds, and resolves the children whose bounds changed it.
/// Returns what those children took and whether there were any.
fn offer(
    children: &[LayoutChild],
    direction: Direction,
    pool: u32,
    total: u32,
    last: usize,
    sizes: &mut [u16; 8],
    resolved: &mut [bool; 8],
    Ghost(flags): Ghost<Seq<bool>>,
) -> (round: (u32, bool))
    requires
        round_ready(sizings(direction, children@), flags, pool as int),
        flags_held(*old(resolved), flags),
        pool <= u16::MAX,
        0 < total,
        total == pending_weight(sizings(direction, children@), flags, children@.len() as int),
        last == last_pending(flags, children@.len() as int),
    ensures
        round.0 == taken(sizings(direction, children@), flags, pool as int, children@.len() as int),
        round.1 == any_clamps(sizings(direction, children@), flags, pool as int),
        flags_held(*final(resolved), next_resolved(sizings(direction, children@), flags, pool as int)),
        forall|i: int|
            pending(flags, i) ==> final(sizes)[i] == settled(
                sizings(direction, children@),
                flags,
                pool as int,
                i,
            ),
        forall|i: int| 0 <= i < CAPACITY && !pending(flags, i) ==> final(sizes)[i] == old(sizes)[i],
{
    let n = children.len();
    let ghost items = sizings(direction, children@);
    let ghost p = pool as int;
    let mut given: u32 = 0;
    let mut used: u32 = 0;
    let mut any = false;
    let ghost mut seen: int = 0;
    let mut i: usize = 0;
    proof {
        lemma_last_pending(flags, n as int);
    }
    while i < n
        invariant
            n == children@.len(),
            n <= CAPACITY,
            i <= n,
            items == sizings(direction, children@),
            p == pool,
            round_ready(items, flags, p),
            pool <= u16::MAX,
            0 < total,
            total == pending_weight(items, flags, n as int),
            last == last_pending(flags, n as int),
            forall|j: int| last < j < n ==> !pending(flags, j),
            i <= last ==> given == shares(items, flags, p, total as int, i as int),
            given <= pool,
            used == taken(items, flags, p, i as int),
            used <= i * u16::MAX,
            any ==> 0 <= seen < i && clamps(items, flags, p, seen),
            !any ==> forall|j: int| 0 <= j < i ==> !clamps(items, flags, p, j),
            forall|j: int| 0 <= j < i ==> resolved[j] == (flags[j] || clamps(items, flags, p, j)),
            forall|j: int| i <= j < n ==> resolved[j] == flags[j],
            forall|j: int| 0 <= j < i && pending(flags, j) ==> sizes[j] == settled(items, flags, p, j),
            forall|j: int|
                0 <= j < CAPACITY && !(j < i && pending(flags, j)) ==> #[trigger] sizes@[j] == old(
                    sizes,
                )@[j],
        decreases n - i,
    {
        if !resolved[i] {
            proof {
                lemma_pending_weight_covers(items, flags, i as int, n as int);
                lemma_shares_bounds(items, flags, p, total as int, i as int + 1);
                assert(shares(items, flags, p, total as int, i as int + 1) <= p) by (nonlinear_arith)
                    requires
                        shares(items, flags, p, total as int, i as int + 1) * total <= p
                            * pending_weight(items, flags, i as int + 1),
                        pending_weight(items, flags, i as int + 1) <= total,
                        0 <= p,
                        0 < total,
                ;
            }
            let offered: u32 = if i == last {
                pool - given
            } else {
                let part = share_of(pool, children[i].flex, total);
                given = given + part;
                part
            };
            let held = clamp_to(offered, children[i].min_size, children[i].max_size);
            sizes[i] = held;
            if held as u32 != offered {
                resolved[i] = true;
                used = used + held as u32;
                any = true;
                proof {
                    seen = i as int;
                }
            }
        }
        i += 1;
    }
    (used, any)
}

/// The main-axis size of every child within an extent of `main`.
pub(crate) fn distribute(children: &[LayoutChild], direction: Direction, main: u16) -> (sizes: [u16; 8])
    requires
        children@.len() <= CAPACITY,
    ensures
        forall|i: int|
            0 <= i < children@.len() ==> sizes[i] == main_size(
                sizings(direction, children@),
                main as int,
                i,
            ),
{
    let n = children.len();
    let ghost items = sizings(direction, children@);
    let mut sizes: [u16; 8] = [0;8];
    let mut resolved: [bool; 8] = [true;8];
    let fixed = settle_fixed(children, direction, &mut sizes, &mut resolved);
    let mut pool: u32 = if main as u32 > fixed {
        main as u32 - fixed
    } else {
        0
    };
    let ghost mut flags = fixed_flags(items);
    let mut open = true;
    while open
        invariant
            n == children@.len(),
            n <= CAPACITY,
            items == sizings(direction, children@),
            flags.len() == n,
            flags_held(resolved, flags),
            pool <= u16::MAX,
            open ==> round_ready(items, flags, pool as int),
            open ==> forall|i: int|
                0 <= i < n ==> (if flags[i] {
                    sizes[i] == main_size(items, main as int, i)
                } else {
                    resolved_size(items, flags, pool as int, i) == main_size(items, main as int, i)
                }),
            !open ==> forall|i: int| 0 <= i < n ==> sizes[i] == main_size(items, main as int, i),
        decreases
            pending_count(flags, n as int) + if open {
                1nat
            } else {
                0nat
            },
    {
        let (total, last) = weigh(children, direction, &resolved, Ghost(flags));
        if total == 0 {
            proof {
                assert forall|i: int| 0 <= i < n implies flags[i] by {
                    if pending(flags, i) {
                        lemma_tentative_range(items, flags, pool as int, i);
                    }
                }
            }
            open = false;
        } else {
            proof {
                if pending_count(flags, n as int) == 0 {
                    lemma_no_pending_no_weight(items, flags, n as int);
                }
            }
            let (used, any) = offer(
                children,
                direction,
                pool,
                total,
                last,
                &mut sizes,
                &mut resolved,
                Ghost(flags),
            );
            if any {
                proof {
                    lemma_round_makes_progress(items, flags, pool as int);
                    lemma_next_round_ready(items, flags, pool as int);
                    let after = next_resolved(items, flags, pool as int);
                    let rest = next_pool(items, flags, pool as int);
                    assert forall|i: int| 0 <= i < n implies (if after[i] {
                        sizes[i] == main_size(items, main as int, i)
                    } else {
                        resolved_size(items, after, rest, i) == main_size(items, main as int, i)
                    }) by {
                        if flags[i] {
                            assert(!pending(flags, i));
                        } else {
                            assert(pending(flags, i));
                        }
                    }
                    flags = after;
                }
                pool = if used >= pool {
                    0
                } else {
                    pool - used
                };
            } else {
                proof {
                    assert forall|i: int| 0 <= i < n implies sizes[i] == main_size(
                        items,
                        main as int,
                        i,
                    ) by {
                        if flags[i] {
                            assert(!pending(flags, i));
                        } else {
                            assert(pending(flags, i));
                            assert(!clamps(items, flags, pool as int, i));
                        }
                    }
                    let after = next_resolved(items, flags, pool as int);
                    assert forall|i: int| 0 <= i < n implies resolved[i] == flags[i] by {
                        assert(!clamps(items, flags, pool as int, i));
                        assert(resolved[i] == after[i]);
                    }
                }
                open = false;
            }
        }
    }
    sizes
}

} // verus!
