//! What holds of every layout: the laws of `Layout::compute`, stated over the
//! model of a layout and proved from it.

use crate::accounting::{
    clamped_total, clamps_one_way, flexible_total, lemma_all_clamped,
    lemma_borrowed_space_is_withdrawn, lemma_clamped_space_is_redistributed,
    lemma_freed_space_is_absorbed, lemma_range_is_met, lemma_sizes_conserve_space,
    lemma_sizes_split, maximum_total, minimum_total,
};
use crate::bounds::{lemma_main_size_range, lemma_resolved_size_within_bounds};
use crate::flex::{
    any_clamps, available, fixed_flags, fixed_total, is_clamped, main_size, main_sizes, pending,
    sum_before,
};
use crate::layout::{
    computed, coordinate_limit, laid_out, main_extent, main_origin, saturate, sizing, sizings,
    Align, Direction, LayoutChild, LayoutView, Rect,
};
use vstd::prelude::*;

verus! {

/// Sum of the main-axis extents of the first `k` children.
pub open spec fn main_total(direction: Direction, children: Seq<LayoutChild>, k: int) -> int
    decreases k,
{
    if k <= 0 {
        0
    } else {
        main_total(direction, children, k - 1) + main_extent(direction, children[k - 1].rect)
    }
}

/// Sum of the main-axis extents of the fixed children.
pub open spec fn fixed_space(direction: Direction, children: Seq<LayoutChild>) -> int {
    fixed_total(sizings(direction, children), children.len() as int)
}

/// What `parent` leaves for the flexible children along the main axis.
pub open spec fn free_space(direction: Direction, parent: Rect, children: Seq<LayoutChild>) -> int {
    available(sizings(direction, children), main_extent(direction, parent))
}

/// Sum of the main-axis sizes that layout gives the flexible children.
pub open spec fn flexible_space(direction: Direction, parent: Rect, children: Seq<LayoutChild>) -> int {
    flexible_total(sizings(direction, children), main_extent(direction, parent))
}

/// Sum of the main-axis sizes of the flexible children that layout clamps.
pub open spec fn clamped_space(direction: Direction, parent: Rect, children: Seq<LayoutChild>) -> int {
    clamped_total(sizings(direction, children), main_extent(direction, parent))
}

/// Sum of the maximums of the flexible children.
pub open spec fn maximum_space(direction: Direction, children: Seq<LayoutChild>) -> int {
    maximum_total(sizings(direction, children))
}

/// Sum of the minimums of the flexible children.
pub open spec fn minimum_space(direction: Direction, children: Seq<LayoutChild>) -> int {
    minimum_total(sizings(direction, children))
}

/// Whether layout gives flexible child `i` one of its bounds instead of a share.
pub open spec fn child_is_clamped(
    direction: Direction,
    parent: Rect,
    children: Seq<LayoutChild>,
    i: int,
) -> bool {
    is_clamped(sizings(direction, children), main_extent(direction, parent), i)
}

/// Whether some child is flexible.
pub open spec fn has_flexible(children: Seq<LayoutChild>) -> bool {
    exists|i: int| 0 <= i < children.len() && (#[trigger] children[i]).flex > 0
}

/// Whether the first shares all lie within the bounds of the children they
/// go to, so that no clamping occurs.
pub open spec fn shares_fit(direction: Direction, parent: Rect, children: Seq<LayoutChild>) -> bool {
    !any_clamps(
        sizings(direction, children),
        fixed_flags(sizings(direction, children)),
        free_space(direction, parent, children),
    )
}

/// Whether layout leaves some flexible child unclamped.
pub open spec fn leaves_unclamped(direction: Direction, parent: Rect, children: Seq<LayoutChild>) -> bool {
    exists|i: int|
        0 <= i < children.len() && (#[trigger] children[i]).flex > 0 && !child_is_clamped(
            direction,
            parent,
            children,
            i,
        )
}

/// Whether no flexible child has a minimum, so that a bound can only free space.
pub open spec fn no_minimums(children: Seq<LayoutChild>) -> bool {
    forall|i: int|
        0 <= i < children.len() && (#[trigger] children[i]).flex > 0 ==> children[i].min_size == 0
}

/// Whether no flexible child has a maximum below the free space, so that a
/// bound can only borrow space.
pub open spec fn no_binding_maximums(direction: Direction, parent: Rect, children: Seq<LayoutChild>) -> bool {
    forall|i: int|
        0 <= i < children.len() && (#[trigger] children[i]).flex > 0 ==> children[i].max_size
            >= free_space(direction, parent, children)
}

/// Whether the bounds of every flexible child are in order.
pub open spec fn flexible_bounds_in_order(children: Seq<LayoutChild>) -> bool {
    forall|i: int|
        0 <= i < children.len() && (#[trigger] children[i]).flex > 0
            ==> children[i].bounds_in_order()
}

/// Whether no round of the distribution both raises a child to its minimum
/// and caps another at its maximum.
pub open spec fn clamps_one_way_only(direction: Direction, parent: Rect, children: Seq<LayoutChild>) -> bool {
    clamps_one_way(
        sizings(direction, children),
        fixed_flags(sizings(direction, children)),
        free_space(direction, parent, children),
    )
}

/// Whether the free space lies within the combined range of the flexible
/// children: between the sum of their minimums and the sum of their maximums.
pub open spec fn range_permits(direction: Direction, parent: Rect, children: Seq<LayoutChild>) -> bool {
    minimum_space(direction, children) <= free_space(direction, parent, children)
        <= maximum_space(direction, children)
}

/// The larger of two extents.
pub open spec fn larger(a: int, b: int) -> int {
    if a >= b {
        a
    } else {
        b
    }
}

/// The smaller of two extents.
pub open spec fn smaller(a: int, b: int) -> int {
    if a <= b {
        a
    } else {
        b
    }
}

/// Whether `after` holds the children of `before` in the same order, each
/// with the sizing rules it had.
pub open spec fn same_children(before: Seq<LayoutChild>, after: Seq<LayoutChild>) -> bool {
    &&& after.len() == before.len()
    &&& forall|i: int|
        0 <= i < before.len() ==> (#[trigger] after[i]).flex == before[i].flex && after[i].min_size
            == before[i].min_size && after[i].max_size == before[i].max_size
}

/// Whether every fixed child of `before` has the main-axis extent in `after`
/// that it had.
pub open spec fn fixed_sizes_kept(
    direction: Direction,
    before: Seq<LayoutChild>,
    after: Seq<LayoutChild>,
) -> bool {
    forall|i: int|
        0 <= i < before.len() && before[i].flex == 0 ==> main_extent(
            direction,
            (#[trigger] after[i]).rect,
        ) == main_extent(direction, before[i].rect)
}

/// Whether every flexible child whose bounds are in order has a main-axis
/// size within them.
pub open spec fn sizes_within_bounds(direction: Direction, children: Seq<LayoutChild>) -> bool {
    forall|i: int|
        0 <= i < children.len() && (#[trigger] children[i]).flex > 0
            && children[i].bounds_in_order() ==> children[i].min_size <= main_extent(
            direction,
            children[i].rect,
        ) <= children[i].max_size
}

/// Whether the children follow one another along the main axis: the first
/// starts at the parent's origin, and each next one where the one before it
/// ends, or at the coordinate limit where that end lies beyond it.
pub open spec fn placed_in_order(direction: Direction, parent: Rect, children: Seq<LayoutChild>) -> bool {
    &&& children.len() > 0 ==> main_origin(direction, children[0].rect) == main_origin(
        direction,
        parent,
    )
    &&& forall|i: int|
        0 <= i && i + 1 < children.len() ==> main_origin(direction, children[i + 1].rect)
            == saturate(
            main_origin(direction, (#[trigger] children[i]).rect) + main_extent(
                direction,
                children[i].rect,
            ),
        )
}

/// Whether the main-axis extents in `after` account for the space that
/// `parent` offers the children in `before`: the fixed children keep theirs,
/// and the flexible ones take the free space whole wherever their bounds
/// leave a child to take it.
pub open spec fn space_is_accounted(
    direction: Direction,
    parent: Rect,
    before: Seq<LayoutChild>,
    after: Seq<LayoutChild>,
) -> bool {
    let free = free_space(direction, parent, before);
    let flexible = flexible_space(direction, parent, before);
    &&& main_total(direction, after, before.len() as int) == fixed_space(direction, before)
        + flexible
    &&& has_flexible(before) && shares_fit(direction, parent, before) ==> flexible == free
    &&& leaves_unclamped(direction, parent, before) ==> flexible == larger(
        free,
        clamped_space(direction, parent, before),
    )
    &&& !leaves_unclamped(direction, parent, before) ==> flexible == clamped_space(
        direction,
        parent,
        before,
    )
    &&& flexible_bounds_in_order(before) && clamps_one_way_only(direction, parent, before)
        && range_permits(direction, parent, before) ==> flexible == free
    &&& no_minimums(before) ==> flexible == smaller(free, maximum_space(direction, before))
    &&& has_flexible(before) && no_binding_maximums(direction, parent, before) ==> flexible
        == larger(free, minimum_space(direction, before))
}

/// The main-axis interval of a placed child: it has the size that the
/// distribution gives it, and starts where the sizes before it end, or at the
/// coordinate limit.
pub proof fn lemma_placed_main_interval(
    direction: Direction,
    align: Align,
    parent: Rect,
    children: Seq<LayoutChild>,
    i: int,
)
    requires
        0 <= i < children.len(),
    ensures
        main_extent(direction, laid_out(direction, align, parent, children)[i].rect) == main_size(
            sizings(direction, children),
            main_extent(direction, parent),
            i,
        ),
        main_origin(direction, laid_out(direction, align, parent, children)[i].rect) == saturate(
            main_origin(direction, parent) + sum_before(
                main_sizes(sizings(direction, children), main_extent(direction, parent)),
                i,
            ),
        ),
        0 <= sum_before(
            main_sizes(sizings(direction, children), main_extent(direction, parent)),
            i,
        ),
{
    let items = sizings(direction, children);
    let main = main_extent(direction, parent);
    lemma_main_size_range(items, main, i, coordinate_limit());
    lemma_sizes_nonnegative(direction, parent, children, i);
}

/// The sizes before any child add up to nothing negative.
proof fn lemma_sizes_nonnegative(direction: Direction, parent: Rect, children: Seq<LayoutChild>, k: int)
    requires
        0 <= k <= children.len(),
    ensures
        0 <= sum_before(
            main_sizes(sizings(direction, children), main_extent(direction, parent)),
            k,
        ),
    decreases k,
{
    if k > 0 {
        lemma_sizes_nonnegative(direction, parent, children, k - 1);
        lemma_main_size_range(
            sizings(direction, children),
            main_extent(direction, parent),
            k - 1,
            coordinate_limit(),
        );
    }
}

/// The children's main-axis extents after layout add up to the sizes that the
/// distribution gives them.
proof fn lemma_main_total_of_laid_out(
    direction: Direction,
    align: Align,
    parent: Rect,
    children: Seq<LayoutChild>,
    k: int,
)
    requires
        0 <= k <= children.len(),
    ensures
        main_total(direction, laid_out(direction, align, parent, children), k) == sum_before(
            main_sizes(sizings(direction, children), main_extent(direction, parent)),
            k,
        ),
    decreases k,
{
    if k > 0 {
        lemma_main_total_of_laid_out(direction, align, parent, children, k - 1);
        lemma_placed_main_interval(direction, align, parent, children, k - 1);
    }
}

/// Order preservation. Layout keeps the children in the order they were
/// added, each with its sizing rules. The first starts at the parent's
/// main-axis origin and each next one where the one before it ends, so the
/// origins never decrease along the order and neighbours neither overlap nor
/// leave a gap. The one exception is a child that reaches past the coordinate
/// limit: the next one starts at the limit.
pub proof fn lemma_children_follow_in_order(
    direction: Direction,
    align: Align,
    parent: Rect,
    children: Seq<LayoutChild>,
    i: int,
)
    requires
        0 <= i,
        i + 1 < children.len(),
    ensures
        same_children(children, laid_out(direction, align, parent, children)),
        main_origin(direction, laid_out(direction, align, parent, children)[0].rect) == main_origin(
            direction,
            parent,
        ),
        main_origin(direction, laid_out(direction, align, parent, children)[i].rect)
            <= main_origin(direction, laid_out(direction, align, parent, children)[i + 1].rect),
        main_origin(direction, laid_out(direction, align, parent, children)[i + 1].rect)
            == saturate(
            main_origin(direction, laid_out(direction, align, parent, children)[i].rect)
                + main_extent(direction, laid_out(direction, align, parent, children)[i].rect),
        ),
        main_origin(direction, laid_out(direction, align, parent, children)[i].rect) + main_extent(
            direction,
            laid_out(direction, align, parent, children)[i].rect,
        ) <= coordinate_limit() ==> main_origin(
            direction,
            laid_out(direction, align, parent, children)[i + 1].rect,
        ) == main_origin(direction, laid_out(direction, align, parent, children)[i].rect)
            + main_extent(direction, laid_out(direction, align, parent, children)[i].rect),
{
    lemma_placed_main_interval(direction, align, parent, children, i);
}

/// Clamp respect. Layout gives every flexible child whose bounds are in
/// order a main-axis size within them.
pub proof fn lemma_flexible_child_within_bounds(
    direction: Direction,
    align: Align,
    parent: Rect,
    children: Seq<LayoutChild>,
    i: int,
)
    requires
        0 <= i < children.len(),
        children[i].flex > 0,
        children[i].bounds_in_order(),
    ensures
        children[i].min_size <= main_extent(
            direction,
            laid_out(direction, align, parent, children)[i].rect,
        ) <= children[i].max_size,
{
    let items = sizings(direction, children);
    lemma_resolved_size_within_bounds(
        items,
        fixed_flags(items),
        free_space(direction, parent, children),
        i,
    );
}

/// The main-axis extents after layout are what the fixed children keep and
/// what the flexible children are given.
pub proof fn lemma_space_taken(
    direction: Direction,
    align: Align,
    parent: Rect,
    children: Seq<LayoutChild>,
)
    ensures
        main_total(
            direction,
            laid_out(direction, align, parent, children),
            children.len() as int,
        ) == fixed_space(direction, children) + flexible_space(direction, parent, children),
{
    let n = children.len() as int;
    lemma_sizes_split(sizings(direction, children), main_extent(direction, parent), n);
    lemma_main_total_of_laid_out(direction, align, parent, children, n);
}

/// Main-axis conservation. Where there is a flexible child and no clamping
/// occurs, the children's main-axis sizes add up to what the fixed children
/// keep and all that the parent leaves beside them.
pub proof fn lemma_main_axis_conservation(
    direction: Direction,
    align: Align,
    parent: Rect,
    children: Seq<LayoutChild>,
)
    requires
        has_flexible(children),
        shares_fit(direction, parent, children),
    ensures
        flexible_space(direction, parent, children) == free_space(direction, parent, children),
        main_total(
            direction,
            laid_out(direction, align, parent, children),
            children.len() as int,
        ) == fixed_space(direction, children) + free_space(direction, parent, children),
{
    let items = sizings(direction, children);
    let i = choose|i: int| 0 <= i < children.len() && (#[trigger] children[i]).flex > 0;
    assert(0 <= i < items.len() && items[i].weight > 0);
    lemma_sizes_conserve_space(items, main_extent(direction, parent));
    lemma_main_total_of_laid_out(direction, align, parent, children, children.len() as int);
    lemma_space_taken(direction, align, parent, children);
}

/// Redistribution. What a clamped child frees or borrows goes to the other
/// flexible children: where layout leaves some flexible child unclamped, the
/// flexible children together take exactly what the parent leaves beside the
/// fixed ones, or what the clamped children take where that alone is more.
/// Where it leaves none, they take what they are clamped to.
pub proof fn lemma_redistribution(direction: Direction, parent: Rect, children: Seq<LayoutChild>)
    ensures
        leaves_unclamped(direction, parent, children) ==> flexible_space(
            direction,
            parent,
            children,
        ) == larger(
            free_space(direction, parent, children),
            clamped_space(direction, parent, children),
        ),
        !leaves_unclamped(direction, parent, children) ==> flexible_space(
            direction,
            parent,
            children,
        ) == clamped_space(direction, parent, children),
{
    let items = sizings(direction, children);
    let main = main_extent(direction, parent);
    if leaves_unclamped(direction, parent, children) {
        lemma_clamped_space_is_redistributed(items, main);
    } else {
        lemma_all_clamped(items, fixed_flags(items), available(items, main), items.len() as int);
    }
}

/// Redistribution within range. Where the bounds of the flexible children
/// are in order, the free space lies within their combined range, and no
/// round both raises a child and caps another, what one child frees or
/// borrows is made up by the others: the flexible children together take
/// exactly what the parent leaves beside the fixed ones.
pub proof fn lemma_redistribution_within_range(
    direction: Direction,
    parent: Rect,
    children: Seq<LayoutChild>,
)
    requires
        flexible_bounds_in_order(children),
        clamps_one_way_only(direction, parent, children),
        range_permits(direction, parent, children),
    ensures
        flexible_space(direction, parent, children) == free_space(direction, parent, children),
{
    let items = sizings(direction, children);
    let flags = fixed_flags(items);
    assert forall|i: int| pending(flags, i) implies items[i].min <= items[i].max by {
        assert(children[i].flex > 0);
    }
    lemma_range_is_met(items, flags, free_space(direction, parent, children));
}

/// Redistribution of freed space. Where no flexible child has a minimum,
/// what a child frees at its maximum is taken up by the others as far as
/// their maximums allow: the flexible children together take all that the
/// parent leaves beside the fixed ones, or all their maximums where these
/// are less.
pub proof fn lemma_freed_space_goes_to_the_others(
    direction: Direction,
    parent: Rect,
    children: Seq<LayoutChild>,
)
    requires
        no_minimums(children),
    ensures
        flexible_space(direction, parent, children) == smaller(
            free_space(direction, parent, children),
            maximum_space(direction, children),
        ),
{
    let items = sizings(direction, children);
    lemma_freed_space_is_absorbed(
        items,
        fixed_flags(items),
        free_space(direction, parent, children),
    );
}

/// Redistribution of borrowed space. Where no flexible child has a maximum
/// below the free space, what a child borrows at its minimum is withdrawn
/// from the others as far as their minimums allow: the flexible children
/// together take all that the parent leaves beside the fixed ones, or all
/// their minimums where these are more.
pub proof fn lemma_borrowed_space_comes_from_the_others(
    direction: Direction,
    parent: Rect,
    children: Seq<LayoutChild>,
)
    requires
        has_flexible(children),
        no_binding_maximums(direction, parent, children),
    ensures
        flexible_space(direction, parent, children) == larger(
            free_space(direction, parent, children),
            minimum_space(direction, children),
        ),
{
    let items = sizings(direction, children);
    let flags = fixed_flags(items);
    let free = free_space(direction, parent, children);
    let w = choose|i: int| 0 <= i < children.len() && (#[trigger] children[i]).flex > 0;
    assert(pending(flags, w));
    lemma_borrowed_space_is_withdrawn(items, flags, free);
}

/// Laying out children that are already laid out changes nothing.
pub proof fn lemma_layout_is_idempotent(
    direction: Direction,
    align: Align,
    parent: Rect,
    children: Seq<LayoutChild>,
)
    ensures
        laid_out(direction, align, parent, laid_out(direction, align, parent, children))
            == laid_out(direction, align, parent, children),
{
    let once = laid_out(direction, align, parent, children);
    assert(sizings(direction, once) =~= sizings(direction, children));
}

/// Idempotence. Calling `compute` twice in a row gives what calling it once gives.
pub proof fn lemma_compute_is_idempotent(layout: LayoutView)
    ensures
        computed(computed(layout)) == computed(layout),
{
    lemma_layout_is_idempotent(layout.direction, layout.align, layout.rect, layout.children);
}

/// Layout keeps, bounds and orders the children, and accounts for the space.
pub proof fn lemma_laid_out_is_orderly(
    direction: Direction,
    align: Align,
    parent: Rect,
    children: Seq<LayoutChild>,
)
    ensures
        same_children(children, laid_out(direction, align, parent, children)),
        fixed_sizes_kept(direction, children, laid_out(direction, align, parent, children)),
        sizes_within_bounds(direction, laid_out(direction, align, parent, children)),
        placed_in_order(direction, parent, laid_out(direction, align, parent, children)),
        space_is_accounted(
            direction,
            parent,
            children,
            laid_out(direction, align, parent, children),
        ),
{
    let after = laid_out(direction, align, parent, children);
    assert forall|i: int|
        0 <= i < after.len() && (#[trigger] after[i]).flex > 0
            && after[i].bounds_in_order() implies after[i].min_size <= main_extent(
        direction,
        after[i].rect,
    ) <= after[i].max_size by {
        lemma_flexible_child_within_bounds(direction, align, parent, children, i);
    }
    assert forall|i: int| 0 <= i && i + 1 < after.len() implies main_origin(
        direction,
        after[i + 1].rect,
    ) == saturate(
        main_origin(direction, (#[trigger] after[i]).rect) + main_extent(direction, after[i].rect),
    ) by {
        lemma_children_follow_in_order(direction, align, parent, children, i);
    }
    lemma_space_taken(direction, align, parent, children);
    lemma_redistribution(direction, parent, children);
    if has_flexible(children) && shares_fit(direction, parent, children) {
        lemma_main_axis_conservation(direction, align, parent, children);
    }
    if flexible_bounds_in_order(children) && clamps_one_way_only(direction, parent, children)
        && range_permits(direction, parent, children) {
        lemma_redistribution_within_range(direction, parent, children);
    }
    if no_minimums(children) {
        lemma_freed_space_goes_to_the_others(direction, parent, children);
    }
    if has_flexible(children) && no_binding_maximums(direction, parent, children) {
        lemma_borrowed_space_comes_from_the_others(direction, parent, children);
    }
}

} // verus!
