//! Layout engine: Flexbox-inspired, optimized for embedded CPUs

use crate::flex::{main_sizes, sum_before, Sizing};
use crate::laws::{
    fixed_sizes_kept, lemma_laid_out_is_orderly, placed_in_order, same_children,
    sizes_within_bounds, space_is_accounted,
};
use crate::rounds::distribute;
use vstd::prelude::*;

verus! {

/// The axis along which children are placed one after another.
#[derive(Clone, Copy, Debug, PartialEq, Eq)]
pub enum Direction {
    Row,
    Column,
}

/// Placement of children across the main axis.
#[derive(Clone, Copy, Debug, PartialEq, Eq)]
pub enum Align {
    Start,
    Center,
    End,
    Stretch,
}

/// An axis-aligned region in pixels.
#[derive(Clone, Copy, Debug, PartialEq, Eq)]
pub struct Rect {
    pub x: u16,
    pub y: u16,
    pub width: u16,
    pub height: u16,
}

/// Sizing rules of one child, and the rectangle that `Layout::compute` gives it.
#[derive(Clone, Copy, Debug, PartialEq, Eq)]
pub struct LayoutChild {
    /// 0 = fixed, >0 = flexible
    pub flex: u8,
    pub min_size: u16,
    pub max_size: u16,
    pub rect: Rect,
}

impl LayoutChild {
    /// Whether the minimum is not above the maximum, as the bounds of a
    /// flexible child should be.
    pub open spec fn bounds_in_order(&self) -> bool {
        self.min_size <= self.max_size
    }
}

/// Why a layout refused an operation.
#[derive(Clone, Copy, Debug, PartialEq, Eq)]
pub enum LayoutError {
    /// The layout already holds as many children as it can.
    CapacityExceeded,
}

/// Most children a `Layout` holds.
pub const CAPACITY: usize = 8;

/// Largest coordinate a `Rect` can express.
pub open spec fn coordinate_limit() -> int {
    u16::MAX as int
}

/// Extent of `r` along the main axis.
pub open spec fn main_extent(direction: Direction, r: Rect) -> int {
    match direction {
        Direction::Row => r.width as int,
        Direction::Column => r.height as int,
    }
}

/// Extent of `r` across the main axis.
pub open spec fn cross_extent(direction: Direction, r: Rect) -> int {
    match direction {
        Direction::Row => r.height as int,
        Direction::Column => r.width as int,
    }
}

/// Origin of `r` along the main axis.
pub open spec fn main_origin(direction: Direction, r: Rect) -> int {
    match direction {
        Direction::Row => r.x as int,
        Direction::Column => r.y as int,
    }
}

/// Origin of `r` across the main axis.
pub open spec fn cross_origin(direction: Direction, r: Rect) -> int {
    match direction {
        Direction::Row => r.y as int,
        Direction::Column => r.x as int,
    }
}

/// What the distribution reads of a child: its weight and bounds, and for a
/// fixed child the main-axis extent it already has.
pub open spec fn sizing(direction: Direction, child: LayoutChild) -> Sizing {
    Sizing {
        weight: child.flex as nat,
        min: child.min_size as nat,
        max: child.max_size as nat,
        fixed: if child.flex == 0 {
            main_extent(direction, child.rect) as nat
        } else {
            0
        },
    }
}

/// The sizing of every child, in order.
pub open spec fn sizings(direction: Direction, children: Seq<LayoutChild>) -> Seq<Sizing> {
    Seq::new(children.len(), |i: int| sizing(direction, children[i]))
}

/// A coordinate held to what a `Rect` can express.
pub open spec fn saturate(v: int) -> int {
    if v > coordinate_limit() {
        coordinate_limit()
    } else {
        v
    }
}

/// How far a child of extent `own` starts from the cross-axis origin of a
/// parent of extent `outer`. A child larger than its parent starts at the origin.
pub open spec fn cross_shift(align: Align, outer: int, own: int) -> int {
    let slack = if outer > own {
        outer - own
    } else {
        0
    };
    match align {
        Align::Start => 0,
        Align::Center => slack / 2,
        Align::End => slack,
        Align::Stretch => 0,
    }
}

/// Cross-axis extent of a child of extent `own` in a parent of extent `outer`.
pub open spec fn cross_size(align: Align, outer: int, own: int) -> int {
    match align {
        Align::Stretch => outer,
        _ => own,
    }
}

/// The rectangle with the given main-axis and cross-axis interval.
pub open spec fn oriented(direction: Direction, main_at: int, main_len: int, cross_at: int, cross_len: int) -> Rect {
    match direction {
        Direction::Row => Rect {
            x: main_at as u16,
            y: cross_at as u16,
            width: main_len as u16,
            height: cross_len as u16,
        },
        Direction::Column => Rect {
            x: cross_at as u16,
            y: main_at as u16,
            width: cross_len as u16,
            height: main_len as u16,
        },
    }
}

/// The rectangle that child `i` occupies once `parent` is divided among `children`.
pub open spec fn placed_rect(
    direction: Direction,
    align: Align,
    parent: Rect,
    children: Seq<LayoutChild>,
    i: int,
) -> Rect {
    let sizes = main_sizes(sizings(direction, children), main_extent(direction, parent));
    let outer = cross_extent(direction, parent);
    let own = cross_extent(direction, children[i].rect);
    oriented(
        direction,
        saturate(main_origin(direction, parent) + sum_before(sizes, i)),
        sizes[i],
        saturate(cross_origin(direction, parent) + cross_shift(align, outer, own)),
        cross_size(align, outer, own),
    )
}

/// The children after layout: each keeps its sizing rules and takes its placed rectangle.
pub open spec fn laid_out(direction: Direction, align: Align, parent: Rect, children: Seq<LayoutChild>) -> Seq<
    LayoutChild,
> {
    Seq::new(
        children.len(),
        |i: int|
            LayoutChild {
                flex: children[i].flex,
                min_size: children[i].min_size,
                max_size: children[i].max_size,
                rect: placed_rect(direction, align, parent, children, i),
            },
    )
}

/// `heapless::Vec`, a vector of at most `N` items that lives without a
/// heap. Nothing is known of what a value of it holds but through `stored`.
#[verifier::external_type_specification]
#[verifier::external_body]
#[verifier::reject_recursive_types(T)]
pub struct ExBoundedVec<T, const N: usize>(heapless::Vec<T, N>);

/// The children that a child list holds, first added first.
pub uninterp spec fn stored(list: heapless::Vec<LayoutChild, 8>) -> Seq<LayoutChild>;

/// The layout after `compute`: the same region and policy, the children laid out.
pub open spec fn computed(layout: LayoutView) -> LayoutView {
    LayoutView {
        children: laid_out(layout.direction, layout.align, layout.rect, layout.children),
        ..layout
    }
}

/// One level of the layout tree: a region and the children it is divided among.
pub struct Layout {
    pub direction: Direction,
    pub align: Align,
    pub children: heapless::Vec<LayoutChild, 8>,
    pub rect: Rect,
}

/// A `Layout` as plain values.
pub struct LayoutView {
    pub direction: Direction,
    pub align: Align,
    pub children: Seq<LayoutChild>,
    pub rect: Rect,
}

impl View for Layout {
    type V = LayoutView;

    open spec fn view(&self) -> LayoutView {
        LayoutView {
            direction: self.direction,
            align: self.align,
            children: stored(self.children),
            rect: self.rect,
        }
    }
}

/// `heapless::Vec::new`: the list it returns holds nothing.
#[verifier::external_body]
fn empty_list() -> (list: heapless::Vec<LayoutChild, 8>)
    ensures
        stored(list) == Seq::<LayoutChild>::empty(),
{
    heapless::Vec::new()
}

/// `heapless::Vec::push`: below capacity the item is appended; at capacity
/// the list is left as it was and the item is handed back.
#[verifier::external_body]
fn push_to_list(list: &mut heapless::Vec<LayoutChild, 8>, child: LayoutChild) -> (r: Result<
    (),
    LayoutChild,
>)
    ensures
        r is Ok <==> stored(*old(list)).len() < CAPACITY,
        r is Ok ==> stored(*final(list)) == stored(*old(list)).push(child),
        r is Err ==> r->Err_0 == child && stored(*final(list)) == stored(*old(list)),
{
    list.push(child)
}

/// `heapless::Vec::as_slice`: the slice holds the items of the list, which
/// are never more than its capacity.
#[verifier::external_body]
fn list_items(list: &heapless::Vec<LayoutChild, 8>) -> (items: &[LayoutChild])
    ensures
        items@ == stored(*list),
        items@.len() <= CAPACITY,
{
    list.as_slice()
}

/// `heapless::Vec::as_mut_slice`: the slice holds the items of the list, and
/// what is written through it is what the list holds afterwards.
#[verifier::external_body]
fn list_items_mut(list: &mut heapless::Vec<LayoutChild, 8>) -> (items: &mut [LayoutChild])
    ensures
        items@ == stored(*old(list)),
        items@.len() <= CAPACITY,
        stored(*final(list)) == final(items)@,
{
    list.as_mut_slice()
}

/// Extent of `r` along the main axis.
pub(crate) fn main_extent_of(direction: Direction, r: &Rect) -> (extent: u16)
    ensures
        extent == main_extent(direction, *r),
{
    match direction {
        Direction::Row => r.width,
        Direction::Column => r.height,
    }
}

/// Extent of `r` across the main axis.
pub(crate) fn cross_extent_of(direction: Direction, r: &Rect) -> (extent: u16)
    ensures
        extent == cross_extent(direction, *r),
{
    match direction {
        Direction::Row => r.height,
        Direction::Column => r.width,
    }
}

/// Origin of `r` along the main axis.
fn main_origin_of(direction: Direction, r: &Rect) -> (origin: u16)
    ensures
        origin == main_origin(direction, *r),
{
    match direction {
        Direction::Row => r.x,
        Direction::Column => r.y,
    }
}

/// Origin of `r` across the main axis.
fn cross_origin_of(direction: Direction, r: &Rect) -> (origin: u16)
    ensures
        origin == cross_origin(direction, *r),
{
    match direction {
        Direction::Row => r.y,
        Direction::Column => r.x,
    }
}

/// The coordinate `shift` past `origin`, held to the coordinate limit.
fn saturating_at(origin: u16, shift: u32) -> (at: u16)
    requires
        shift <= CAPACITY * u16::MAX,
    ensures
        at == saturate(origin + shift),
{
    let sum: u32 = origin as u32 + shift;
    if sum > u16::MAX as u32 {
        u16::MAX
    } else {
        sum as u16
    }
}

/// How far a child of extent `own` starts from the cross-axis origin of a
/// parent of extent `outer`.
fn cross_shift_of(align: Align, outer: u16, own: u16) -> (shift: u16)
    ensures
        shift == cross_shift(align, outer as int, own as int),
{
    let slack: u16 = if outer > own {
        outer - own
    } else {
        0
    };
    match align {
        Align::Start => 0,
        Align::Center => slack / 2,
        Align::End => slack,
        Align::Stretch => 0,
    }
}

/// Cross-axis extent of a child of extent `own` in a parent of extent `outer`.
fn cross_size_of(align: Align, outer: u16, own: u16) -> (size: u16)
    ensures
        size == cross_size(align, outer as int, own as int),
{
    match align {
        Align::Stretch => outer,
        _ => own,
    }
}

/// The rectangle with the given main-axis and cross-axis interval.
fn oriented_rect(direction: Direction, main_at: u16, main_len: u16, cross_at: u16, cross_len: u16) -> (r:
    Rect)
    ensures
        r == oriented(direction, main_at as int, main_len as int, cross_at as int, cross_len as int),
{
    match direction {
        Direction::Row => Rect { x: main_at, y: cross_at, width: main_len, height: cross_len },
        Direction::Column => Rect { x: cross_at, y: main_at, width: cross_len, height: main_len },
    }
}

impl Layout {
    /// A layout of `rect` with no children yet.
    pub fn new(direction: Direction, align: Align, rect: Rect) -> (layout: Self)
        ensures
            layout@ == (LayoutView { direction, align, children: Seq::empty(), rect }),
    {
        Self { direction, align, children: empty_list(), rect }
    }

    /// Appends `child` behind the children added before. A layout that
    /// already holds `CAPACITY` children refuses it and stays as it was.
    pub fn add_child(&mut self, child: LayoutChild) -> (r: Result<(), LayoutError>)
        ensures
            r is Ok <==> old(self)@.children.len() < CAPACITY,
            r is Ok ==> final(self)@ == (LayoutView {
                children: old(self)@.children.push(child),
                ..old(self)@
            }),
            r is Err ==> r->Err_0 == LayoutError::CapacityExceeded && final(self)@ == old(self)@,
    {
        match push_to_list(&mut self.children, child) {
            Ok(()) => Ok(()),
            Err(_) => Err(LayoutError::CapacityExceeded),
        }
    }

    /// Compute layout for all children, updating their rects.
    ///
    /// The main-axis extent of `rect` that the fixed children leave is shared
    /// among the flexible ones by weight, within each child's bounds; the
    /// children are then placed one after another from the main-axis origin
    /// and aligned across it. Coordinates stop at the coordinate limit.
    pub fn compute(&mut self)
        ensures
            final(self)@ == computed(old(self)@),
            same_children(old(self)@.children, final(self)@.children),
            fixed_sizes_kept(old(self)@.direction, old(self)@.children, final(self)@.children),
            sizes_within_bounds(old(self)@.direction, final(self)@.children),
            placed_in_order(old(self)@.direction, old(self)@.rect, final(self)@.children),
            space_is_accounted(
                old(self)@.direction,
                old(self)@.rect,
                old(self)@.children,
                final(self)@.children,
            ),
    {
        let direction = self.direction;
        let align = self.align;
        let parent = self.rect;
        let main = main_extent_of(direction, &parent);
        let outer = cross_extent_of(direction, &parent);
        let sizes = distribute(list_items(&self.children), direction, main);
        let ghost before = stored(self.children);
        let ghost goal = main_sizes(sizings(direction, before), main as int);
        let items = list_items_mut(&mut self.children);
        let n = items.len();
        let mut offset: u32 = 0;
        let mut i: usize = 0;
        while i < n
            invariant
                n == before.len(),
                n <= CAPACITY,
                items@.len() == n,
                i <= n,
                goal == main_sizes(sizings(direction, before), main as int),
                main == main_extent(direction, parent),
                outer == cross_extent(direction, parent),
                forall|j: int| 0 <= j < n ==> sizes[j] == goal[j],
                offset == sum_before(goal, i as int),
                offset <= i * u16::MAX,
                forall|j: int|
                    0 <= j < i ==> items@[j] == laid_out(direction, align, parent, before)[j],
                forall|j: int| i <= j < n ==> items@[j] == before[j],
            decreases n - i,
        {
            let own = cross_extent_of(direction, &items[i].rect);
            items[i].rect = oriented_rect(
                direction,
                saturating_at(main_origin_of(direction, &parent), offset),
                sizes[i],
                saturating_at(
                    cross_origin_of(direction, &parent),
                    cross_shift_of(align, outer, own) as u32,
                ),
                cross_size_of(align, outer, own),
            );
            offset = offset + sizes[i] as u32;
            i += 1;
        }
        assert(items@ =~= laid_out(direction, align, parent, before));
        proof {
            lemma_laid_out_is_orderly(direction, align, parent, before);
        }
    }
}

} // verus!
