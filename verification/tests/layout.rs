use ferrogl::layout::{Align, Direction, Layout, LayoutChild, LayoutError, Rect, CAPACITY};

fn parent() -> Rect {
    Rect { x: 0, y: 0, width: 320, height: 240 }
}

fn flexible(flex: u8, min_size: u16, max_size: u16) -> LayoutChild {
    LayoutChild { flex, min_size, max_size, rect: Rect { x: 0, y: 0, width: 0, height: 0 } }
}

fn fixed(width: u16, height: u16) -> LayoutChild {
    LayoutChild { flex: 0, min_size: 0, max_size: u16::MAX, rect: Rect { x: 0, y: 0, width, height } }
}

fn row(align: Align, rect: Rect, children: &[LayoutChild]) -> Layout {
    let mut layout = Layout::new(Direction::Row, align, rect);
    for child in children {
        assert_eq!(layout.add_child(*child), Ok(()));
    }
    layout.compute();
    layout
}

fn widths(layout: &Layout) -> Vec<u16> {
    layout.children.iter().map(|c| c.rect.width).collect()
}

fn xs(layout: &Layout) -> Vec<u16> {
    layout.children.iter().map(|c| c.rect.x).collect()
}

#[test]
fn new_layout_has_no_children() {
    let layout = Layout::new(Direction::Column, Align::Center, parent());
    assert_eq!(layout.children.len(), 0);
    assert_eq!(layout.direction, Direction::Column);
    assert_eq!(layout.align, Align::Center);
    assert_eq!(layout.rect, parent());
}

#[test]
fn two_equal_flexible_children_split_the_row() {
    let layout = row(Align::Stretch, parent(), &[flexible(1, 0, 320), flexible(1, 0, 320)]);
    assert_eq!(layout.children[0].rect, Rect { x: 0, y: 0, width: 160, height: 240 });
    assert_eq!(layout.children[1].rect, Rect { x: 160, y: 0, width: 160, height: 240 });
}

#[test]
fn fixed_child_keeps_its_width_and_flexible_takes_the_rest() {
    let layout = row(Align::Stretch, parent(), &[fixed(50, 0), flexible(1, 0, 320)]);
    assert_eq!(layout.children[0].rect.x, 0);
    assert_eq!(layout.children[0].rect.width, 50);
    assert_eq!(layout.children[1].rect.x, 50);
    assert_eq!(layout.children[1].rect.width, 270);
}

#[test]
fn single_flexible_child_stops_at_its_maximum() {
    let rect = Rect { x: 0, y: 0, width: 100, height: 10 };
    let layout = row(Align::Stretch, rect, &[flexible(1, 0, 30)]);
    assert_eq!(widths(&layout), vec![30]);
    assert_eq!(xs(&layout), vec![0]);
}

#[test]
fn add_child_appends_in_call_order() {
    let mut layout = Layout::new(Direction::Row, Align::Start, parent());
    assert_eq!(layout.add_child(flexible(1, 2, 3)), Ok(()));
    assert_eq!(layout.add_child(fixed(7, 9)), Ok(()));
    assert_eq!(layout.children.len(), 2);
    assert_eq!(layout.children[0], flexible(1, 2, 3));
    assert_eq!(layout.children[1], fixed(7, 9));
}

#[test]
fn add_child_fails_beyond_capacity_and_changes_nothing() {
    let mut layout = Layout::new(Direction::Row, Align::Start, parent());
    for i in 0..CAPACITY {
        assert_eq!(layout.add_child(fixed(i as u16, 1)), Ok(()));
    }
    assert_eq!(CAPACITY, 8);
    assert_eq!(layout.children.len(), 8);
    assert_eq!(layout.add_child(fixed(99, 99)), Err(LayoutError::CapacityExceeded));
    assert_eq!(layout.children.len(), 8);
    for i in 0..CAPACITY {
        assert_eq!(layout.children[i], fixed(i as u16, 1));
    }
    assert_eq!(layout.add_child(flexible(1, 0, 10)), Err(LayoutError::CapacityExceeded));
    assert_eq!(layout.children.len(), 8);
}

#[test]
fn compute_on_an_empty_layout_does_nothing() {
    let mut layout = Layout::new(Direction::Row, Align::Start, parent());
    layout.compute();
    assert_eq!(layout.children.len(), 0);
    assert_eq!(layout.rect, parent());
}

#[test]
fn truncation_remainder_goes_to_the_last_flexible_child() {
    let rect = Rect { x: 0, y: 0, width: 100, height: 10 };
    let layout = row(Align::Stretch, rect, &[flexible(1, 0, 100), flexible(1, 0, 100), flexible(1, 0, 100)]);
    assert_eq!(widths(&layout), vec![33, 33, 34]);
    assert_eq!(xs(&layout), vec![0, 33, 66]);
}

#[test]
fn remainder_skips_a_trailing_fixed_child() {
    let rect = Rect { x: 0, y: 0, width: 110, height: 10 };
    let layout = row(
        Align::Stretch,
        rect,
        &[flexible(1, 0, 100), flexible(1, 0, 100), flexible(1, 0, 100), fixed(10, 0)],
    );
    assert_eq!(widths(&layout), vec![33, 33, 34, 10]);
    assert_eq!(xs(&layout), vec![0, 33, 66, 100]);
}

#[test]
fn space_is_shared_in_proportion_to_flex() {
    let rect = Rect { x: 10, y: 0, width: 400, height: 10 };
    let layout = row(Align::Stretch, rect, &[flexible(1, 0, 400), flexible(3, 0, 400)]);
    assert_eq!(widths(&layout), vec![100, 300]);
    assert_eq!(xs(&layout), vec![10, 110]);
}

#[test]
fn largest_weights_and_extent_do_not_overflow() {
    let rect = Rect { x: 0, y: 0, width: u16::MAX, height: 1 };
    let layout = row(Align::Stretch, rect, &[flexible(255, 0, u16::MAX), flexible(255, 0, u16::MAX)]);
    assert_eq!(widths(&layout), vec![32767, 32768]);
    assert_eq!(xs(&layout), vec![0, 32767]);
}

#[test]
fn space_freed_by_a_maximum_goes_to_the_others() {
    let rect = Rect { x: 0, y: 0, width: 100, height: 10 };
    let layout = row(Align::Stretch, rect, &[flexible(1, 0, 10), flexible(1, 0, 100), flexible(1, 0, 100)]);
    assert_eq!(widths(&layout), vec![10, 45, 45]);
    assert_eq!(widths(&layout).iter().map(|w| *w as u32).sum::<u32>(), 100);
}

#[test]
fn space_borrowed_by_a_minimum_is_taken_from_the_others() {
    let rect = Rect { x: 0, y: 0, width: 100, height: 10 };
    let layout = row(Align::Stretch, rect, &[flexible(1, 60, 100), flexible(1, 0, 100)]);
    assert_eq!(widths(&layout), vec![60, 40]);
    assert_eq!(xs(&layout), vec![0, 60]);
}

#[test]
fn clamping_repeats_until_every_share_fits() {
    let rect = Rect { x: 0, y: 0, width: 100, height: 10 };
    let layout = row(
        Align::Stretch,
        rect,
        &[flexible(1, 0, 10), flexible(1, 0, 40), flexible(1, 0, 100)],
    );
    // 33, 33, 34: the first stops at 10; then 45, 45: the second stops at 40; the last takes 50.
    assert_eq!(widths(&layout), vec![10, 40, 50]);
}

#[test]
fn children_clamped_in_one_round_all_leave_it() {
    let rect = Rect { x: 0, y: 0, width: 100, height: 10 };
    let layout = row(Align::Stretch, rect, &[flexible(1, 0, 10), flexible(1, 60, 100)]);
    assert_eq!(widths(&layout), vec![10, 60]);
}

#[test]
fn minimums_beyond_the_pool_leave_nothing_for_the_rest() {
    let rect = Rect { x: 0, y: 0, width: 100, height: 10 };
    let layout = row(Align::Stretch, rect, &[flexible(1, 70, 100), flexible(1, 70, 100), flexible(1, 0, 100)]);
    // 33, 33, 34: the first two are raised to 70 each, which is more than the pool.
    assert_eq!(widths(&layout), vec![70, 70, 0]);
    assert_eq!(xs(&layout), vec![0, 70, 140]);
}

#[test]
fn fixed_children_beyond_the_parent_leave_flexible_ones_empty() {
    let layout = row(Align::Stretch, parent(), &[fixed(400, 0), flexible(1, 0, 320), fixed(20, 0)]);
    assert_eq!(widths(&layout), vec![400, 0, 20]);
    assert_eq!(xs(&layout), vec![0, 400, 400]);
}

#[test]
fn flexible_child_without_space_still_gets_its_minimum() {
    let layout = row(Align::Stretch, parent(), &[fixed(400, 0), flexible(1, 15, 320)]);
    assert_eq!(widths(&layout), vec![400, 15]);
}

#[test]
fn crossed_bounds_settle_at_the_nearest_one() {
    let rect = Rect { x: 0, y: 0, width: 100, height: 10 };
    let low = row(Align::Stretch, rect, &[flexible(1, 50, 10), flexible(1, 0, 100)]);
    // offered 50 and 50: 50 is not under the minimum but over the maximum.
    assert_eq!(widths(&low), vec![10, 90]);
    let high = row(Align::Stretch, rect, &[flexible(1, 80, 10), flexible(1, 0, 100)]);
    // offered 50 and 50: 50 is under the minimum.
    assert_eq!(widths(&high), vec![80, 20]);
}

#[test]
fn only_fixed_children_keep_their_sizes() {
    let layout = row(Align::Stretch, parent(), &[fixed(10, 0), fixed(20, 0), fixed(30, 0)]);
    assert_eq!(widths(&layout), vec![10, 20, 30]);
    assert_eq!(xs(&layout), vec![0, 10, 30]);
}

#[test]
fn column_layout_divides_the_height() {
    let mut layout = Layout::new(Direction::Column, Align::Stretch, Rect { x: 5, y: 7, width: 320, height: 240 });
    layout.add_child(fixed(0, 40)).unwrap();
    layout.add_child(flexible(1, 0, 240)).unwrap();
    layout.add_child(flexible(3, 0, 240)).unwrap();
    layout.compute();
    assert_eq!(layout.children[0].rect, Rect { x: 5, y: 7, width: 320, height: 40 });
    assert_eq!(layout.children[1].rect, Rect { x: 5, y: 47, width: 320, height: 50 });
    assert_eq!(layout.children[2].rect, Rect { x: 5, y: 97, width: 320, height: 150 });
}

#[test]
fn stretch_fills_the_cross_axis() {
    let rect = Rect { x: 3, y: 9, width: 100, height: 241 };
    let layout = row(Align::Stretch, rect, &[fixed(10, 100)]);
    assert_eq!(layout.children[0].rect, Rect { x: 3, y: 9, width: 10, height: 241 });
}

#[test]
fn start_keeps_the_cross_size_at_the_origin() {
    let rect = Rect { x: 3, y: 9, width: 100, height: 241 };
    let layout = row(Align::Start, rect, &[fixed(10, 100)]);
    assert_eq!(layout.children[0].rect, Rect { x: 3, y: 9, width: 10, height: 100 });
}

#[test]
fn center_rounds_the_midpoint_down() {
    let rect = Rect { x: 3, y: 9, width: 100, height: 241 };
    let layout = row(Align::Center, rect, &[fixed(10, 100)]);
    assert_eq!(layout.children[0].rect, Rect { x: 3, y: 79, width: 10, height: 100 });
}

#[test]
fn end_meets_the_far_edge() {
    let rect = Rect { x: 3, y: 9, width: 100, height: 241 };
    let layout = row(Align::End, rect, &[fixed(10, 100)]);
    assert_eq!(layout.children[0].rect, Rect { x: 3, y: 150, width: 10, height: 100 });
    assert_eq!(layout.children[0].rect.y + layout.children[0].rect.height, rect.y + rect.height);
}

#[test]
fn child_larger_than_its_parent_starts_at_the_cross_origin() {
    let rect = Rect { x: 3, y: 9, width: 100, height: 50 };
    for align in [Align::Start, Align::Center, Align::End] {
        let layout = row(align, rect, &[fixed(10, 80)]);
        assert_eq!(layout.children[0].rect, Rect { x: 3, y: 9, width: 10, height: 80 });
    }
}

#[test]
fn column_alignment_moves_children_along_x() {
    let mut layout = Layout::new(Direction::Column, Align::End, Rect { x: 10, y: 20, width: 100, height: 60 });
    layout.add_child(fixed(30, 25)).unwrap();
    layout.compute();
    assert_eq!(layout.children[0].rect, Rect { x: 80, y: 20, width: 30, height: 25 });
}

#[test]
fn positions_stop_at_the_coordinate_limit() {
    let rect = Rect { x: 65530, y: 65535, width: 100, height: 10 };
    let layout = row(Align::End, rect, &[fixed(3, 4), fixed(10, 4), fixed(10, 4)]);
    assert_eq!(xs(&layout), vec![65530, 65533, 65535]);
    assert_eq!(widths(&layout), vec![3, 10, 10]);
    assert_eq!(layout.children[0].rect.y, 65535);
}

#[test]
fn children_follow_each_other_without_overlap() {
    let layout = row(
        Align::Start,
        parent(),
        &[fixed(17, 1), flexible(2, 0, 40), flexible(1, 30, 500), fixed(0, 1), flexible(5, 0, 95)],
    );
    let mut end = layout.rect.x;
    for child in layout.children.iter() {
        assert_eq!(child.rect.x, end);
        end = child.rect.x + child.rect.width;
    }
}

#[test]
fn compute_keeps_order_and_sizing_rules() {
    let children = [flexible(2, 5, 40), fixed(17, 1), flexible(1, 30, 500)];
    let layout = row(Align::Start, parent(), &children);
    assert_eq!(layout.children.len(), 3);
    for (before, after) in children.iter().zip(layout.children.iter()) {
        assert_eq!(after.flex, before.flex);
        assert_eq!(after.min_size, before.min_size);
        assert_eq!(after.max_size, before.max_size);
    }
}

#[test]
fn flexible_sizes_stay_within_bounds() {
    let layout = row(
        Align::Start,
        parent(),
        &[flexible(1, 0, 20), flexible(7, 100, 120), flexible(1, 90, 300), flexible(3, 0, 65535)],
    );
    for child in layout.children.iter() {
        assert!(child.min_size <= child.rect.width && child.rect.width <= child.max_size);
    }
}

#[test]
fn sizes_add_up_to_the_parent_when_nothing_is_clamped() {
    let layout = row(
        Align::Start,
        parent(),
        &[fixed(50, 1), flexible(1, 0, 320), fixed(13, 1), flexible(2, 0, 320), flexible(4, 0, 320)],
    );
    // fixed 63, available 257: 36, 73, and 148 with the remainder.
    assert_eq!(widths(&layout), vec![50, 36, 13, 73, 148]);
    assert_eq!(widths(&layout).iter().map(|w| *w as u32).sum::<u32>(), 320);
}

#[test]
fn computing_twice_changes_nothing() {
    for align in [Align::Start, Align::Center, Align::End, Align::Stretch] {
        let mut layout = row(
            align,
            Rect { x: 4, y: 8, width: 300, height: 101 },
            &[fixed(50, 30), flexible(1, 0, 60), flexible(2, 120, 320), fixed(13, 200)],
        );
        let once: Vec<LayoutChild> = layout.children.iter().copied().collect();
        layout.compute();
        let twice: Vec<LayoutChild> = layout.children.iter().copied().collect();
        assert_eq!(once, twice);
    }
}

#[test]
fn compute_follows_later_changes() {
    let mut layout = row(Align::Stretch, parent(), &[flexible(1, 0, 320)]);
    assert_eq!(widths(&layout), vec![320]);
    layout.add_child(flexible(1, 0, 320)).unwrap();
    layout.compute();
    assert_eq!(widths(&layout), vec![160, 160]);
    layout.children[0].max_size = 100;
    layout.compute();
    assert_eq!(widths(&layout), vec![100, 220]);
}

#[test]
fn nested_layout_divides_a_child_rect() {
    let outer = row(Align::Stretch, parent(), &[fixed(20, 0), flexible(1, 0, 320)]);
    let mut inner = Layout::new(Direction::Column, Align::Stretch, outer.children[1].rect);
    inner.add_child(flexible(1, 0, 240)).unwrap();
    inner.add_child(flexible(1, 0, 240)).unwrap();
    inner.compute();
    assert_eq!(inner.children[0].rect, Rect { x: 20, y: 0, width: 300, height: 120 });
    assert_eq!(inner.children[1].rect, Rect { x: 20, y: 120, width: 300, height: 120 });
}

#[test]
fn without_minimums_freed_space_is_taken_up_to_the_maximums() {
    let rect = Rect { x: 0, y: 0, width: 100, height: 10 };
    let enough = row(Align::Stretch, rect, &[flexible(3, 0, 10), flexible(1, 0, 200), flexible(1, 0, 50)]);
    // 60, 20, 20: the first stops at 10; 45, 45: nothing stops.
    assert_eq!(widths(&enough), vec![10, 45, 45]);
    let short = row(Align::Stretch, rect, &[flexible(3, 0, 10), flexible(1, 0, 20), flexible(1, 0, 30)]);
    assert_eq!(widths(&short), vec![10, 20, 30]);
}

#[test]
fn without_binding_maximums_borrowed_space_is_withdrawn_down_to_the_minimums() {
    let rect = Rect { x: 0, y: 0, width: 100, height: 10 };
    let enough = row(Align::Stretch, rect, &[flexible(1, 50, 100), flexible(2, 10, 100), flexible(2, 0, 100)]);
    // 20, 40, 40: the first is raised to 50; 25, 25: nothing is raised.
    assert_eq!(widths(&enough), vec![50, 25, 25]);
    let short = row(Align::Stretch, rect, &[flexible(1, 50, 100), flexible(2, 40, 100), flexible(2, 30, 100)]);
    // 20, 40, 40: the first is raised to 50; 25, 25: both are raised.
    assert_eq!(widths(&short), vec![50, 40, 30]);
}

#[test]
fn opposite_bounds_in_one_round_can_leave_space_untaken() {
    let rect = Rect { x: 0, y: 0, width: 100, height: 10 };
    let layout = row(Align::Stretch, rect, &[flexible(1, 0, 10), flexible(1, 60, 100), flexible(1, 0, 100)]);
    // 33, 33, 34: the first stops at 10 and the second is raised to 60; the third takes the 30 left.
    assert_eq!(widths(&layout), vec![10, 60, 30]);
    let lost = row(Align::Stretch, rect, &[flexible(1, 0, 10), flexible(1, 60, 100)]);
    // 50, 50: both leave in the first round, and 30 stay untaken.
    assert_eq!(widths(&lost), vec![10, 60]);
}

#[test]
fn flexible_child_takes_its_share_up_to_its_maximum() {
    let mut layout = Layout::new(Direction::Row, Align::Start, parent());
    layout
        .add_child(LayoutChild {
            flex: 1,
            min_size: 10,
            max_size: 100,
            rect: Rect { x: 0, y: 0, width: 10, height: 240 },
        })
        .unwrap();
    layout.compute();
    assert_eq!(layout.children[0].rect, Rect { x: 0, y: 0, width: 100, height: 240 });
}
