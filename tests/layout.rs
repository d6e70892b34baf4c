use prism::expand::UniformExpand;
use prism::layout::{Offset, Padding, Size, SizeRequest, MAX_LEN};
use prism::policy::{Column, DefaultStack, Layout, Row, Stack};
use prism::wrap::Wrap;

fn req(a: u32, b: u32, c: u32, d: u32) -> SizeRequest {
    SizeRequest::new(a, b, c, d)
}

#[test]
fn size_request_getters_and_constructors() {
    let r = req(1, 2, 3, 4);
    assert_eq!((r.min_width(), r.min_height(), r.max_width(), r.max_height()), (1, 2, 3, 4));
    assert_eq!(SizeRequest::fixed((7, 9)), req(7, 9, 7, 9));
    assert_eq!(SizeRequest::fill(), req(0, 0, MAX_LEN, MAX_LEN));
}

#[test]
fn clamp_keeps_sizes_within_bounds() {
    let r = req(10, 20, 100, 200);
    assert_eq!(r.get((5, 500)), (10, 200));
    assert_eq!(r.get((50, 50)), (50, 50));
    assert_eq!(r.get((1000, 0)), (100, 20));
}

#[test]
fn clamp_is_idempotent() {
    let r = req(10, 20, 100, 200);
    for s in [(0, 0), (15, 250), (500, 30), (100, 200)] {
        assert_eq!(r.get(r.get(s)), r.get(s));
    }
}

#[test]
fn clamp_result_lies_in_bounds() {
    let r = req(3, 4, 8, 9);
    for s in [(0, 0), (5, 5), (100, 100), (8, 4)] {
        let (w, h) = r.get(s);
        assert!(3 <= w && w <= 8);
        assert!(4 <= h && h <= 9);
    }
}

#[test]
fn additions_shift_both_bounds_and_saturate() {
    let r = req(1, 2, 3, 4);
    assert_eq!(r.add(10, 20), req(11, 22, 13, 24));
    assert_eq!(r.add_width(5), req(6, 2, 8, 4));
    assert_eq!(r.add_height(5), req(1, 7, 3, 9));
    assert_eq!(SizeRequest::fill().add_width(5), req(5, 0, MAX_LEN, MAX_LEN));
    assert_eq!(r.remove_height(3), req(1, 0, 3, 1));
}

#[test]
fn max_takes_each_field() {
    assert_eq!(req(1, 8, 5, 9).max(&req(4, 2, 10, 3)), req(4, 8, 10, 9));
}

#[test]
fn distribution_row_example() {
    let r = UniformExpand::get(vec![(10, 100), (10, 10), (10, 50)], 100, 0);
    assert_eq!(r, vec![45, 10, 45]);
}

#[test]
fn distribution_conserves_and_respects_bounds() {
    let items = vec![(10, 100), (10, 10), (10, 50)];
    let r = UniformExpand::get(items.clone(), 100, 0);
    assert!(r.iter().sum::<u32>() <= 100);
    for (v, (lo, hi)) in r.iter().zip(items.iter()) {
        assert!(lo <= v && v <= hi);
    }
}

#[test]
fn distribution_without_room_keeps_minimums() {
    assert_eq!(UniformExpand::get(vec![(10, 100), (20, 30)], 30, 0), vec![10, 20]);
    assert_eq!(UniformExpand::get(vec![(10, 100), (20, 30)], 35, 5), vec![10, 20]);
    assert_eq!(UniformExpand::get(vec![(10, 100), (20, 30)], 5, 5), vec![10, 20]);
}

#[test]
fn distribution_smallest_first_and_ceilings() {
    // The smaller item catches up before both grow together.
    assert_eq!(UniformExpand::get(vec![(0, 100), (20, 100)], 60, 0), vec![30, 30]);
    // An item at its maximum stops; the rest goes on growing.
    assert_eq!(UniformExpand::get(vec![(0, 5), (0, 100)], 60, 0), vec![5, 55]);
    // Every item at its maximum: the rest is left unused.
    assert_eq!(UniformExpand::get(vec![(0, 5), (0, 5)], 100, 0), vec![5, 5]);
    // Spacing is paid before anything grows.
    assert_eq!(UniformExpand::get(vec![(0, 100), (0, 100)], 30, 10), vec![10, 10]);
}

#[test]
fn distribution_hands_out_the_remainder() {
    assert_eq!(UniformExpand::get(vec![(0, 10), (0, 10), (0, 10)], 10, 0), vec![4, 3, 3]);
    assert_eq!(UniformExpand::get(vec![], 10, 3), Vec::<u32>::new());
}

#[test]
fn offset_alignment() {
    assert_eq!(Offset::Start.get(10, 3), 0);
    assert_eq!(Offset::Center.get(10, 3), 3);
    assert_eq!(Offset::Center.get(3, 10), -4);
    assert_eq!(Offset::End.get(10, 3), 7);
    assert_eq!(Offset::Static(-2).get(10, 3), -2);
    assert_eq!(Offset::Start.size(), Some(0));
    assert_eq!(Offset::Center.size(), None);
    assert_eq!(Offset::Static(4).size(), Some(4));
}

#[test]
fn size_modes() {
    let items = vec![(1, 10), (5, 7)];
    assert_eq!(Size::Fit.get(items.clone()), (5, 10));
    assert_eq!(Size::Fill.get(items.clone()), (5, MAX_LEN));
    assert_eq!(Size::Static(4).get(items.clone()), (4, 4));
    assert_eq!(Size::max(items.clone()), (5, 10));
    assert_eq!(Size::add(items), (6, 17));
    assert_eq!(Size::max(vec![]), (0, 0));
    assert_eq!(Size::add(vec![(MAX_LEN, MAX_LEN), (1, 1)]), (MAX_LEN, MAX_LEN));
}

#[test]
fn padding_adjustments() {
    let p = Padding(1, 2, 3, 4);
    assert_eq!(Padding::new(5), Padding(5, 5, 5, 5));
    assert_eq!(p.adjust_size((10, 10)), (6, 4));
    assert_eq!(p.adjust_size((2, 2)), (0, 0));
    assert_eq!(p.adjust_offset((10, -10)), (11, -8));
    assert_eq!(p.adjust_request(req(1, 1, 2, 2)), req(5, 7, 6, 8));
}

#[test]
fn default_stack_overlays_children() {
    let mut s = DefaultStack;
    assert_eq!(s.request_size(vec![req(1, 5, 10, 6), req(3, 2, 4, 20)]), req(3, 5, 10, 20));
    assert_eq!(s.request_size(vec![]), req(0, 0, 0, 0));
    let a = s.build((8, 8), vec![req(1, 5, 10, 6), req(3, 2, 4, 20)]);
    assert_eq!(a[0].offset, (0, 0));
    assert_eq!(a[0].size, (8, 6));
    assert_eq!(a[1].size, (4, 8));
}

#[test]
fn stack_aligns_each_child() {
    let mut s = Stack::center();
    assert_eq!(s.request_size(vec![req(4, 4, 4, 4), req(2, 6, 2, 6)]), req(4, 6, 4, 6));
    let a = s.build((10, 10), vec![req(4, 4, 4, 4)]);
    assert_eq!(a[0].offset, (3, 3));
    assert_eq!(a[0].size, (4, 4));
    let mut padded = Stack::new(Offset::End, Offset::Start, Size::Fit, Size::Fit, Padding(1, 2, 3, 4));
    let a = padded.build((20, 20), vec![req(4, 4, 4, 4)]);
    assert_eq!(a[0].offset, (1 + 12, 2));
    let mut fill = Stack::fill();
    assert_eq!(fill.request_size(vec![req(4, 4, 9, 9)]), req(4, 4, MAX_LEN, MAX_LEN));
    let _ = (Stack::start(), Stack::end());
}

#[test]
fn row_request_and_build() {
    let mut row = Row::start(0);
    let children = vec![req(10, 5, 100, 5), req(10, 7, 10, 7), req(10, 3, 50, 3)];
    assert_eq!(row.request_size(children.clone()), req(30, 7, 160, 7));
    let a = row.build((100, 7), children);
    let widths: Vec<u32> = a.iter().map(|x| x.size.0).collect();
    assert_eq!(widths, vec![45, 10, 45]);
    let xs: Vec<i64> = a.iter().map(|x| x.offset.0).collect();
    assert_eq!(xs, vec![0, 45, 55]);
    assert_eq!(a[1].offset.1, 0);
}

#[test]
fn row_spacing_alignment_and_padding() {
    let mut row = Row::new(2, Offset::End, Size::Fit, Padding(1, 1, 1, 1));
    let children = vec![req(4, 2, 4, 2), req(4, 4, 4, 4)];
    assert_eq!(row.request_size(children.clone()), req(12, 6, 12, 6));
    let a = row.build((12, 6), children);
    assert_eq!(a[0].offset, (1, 3));
    assert_eq!(a[1].offset, (7, 1));
    row.padding().0 = 5;
    assert_eq!(row, Row(2, Offset::End, Size::Fit, Padding(5, 1, 1, 1)));
    let _ = (Row::center(1), Row::end(1));
}

#[test]
fn column_request_and_build() {
    let mut col = Column::start(1);
    let children = vec![req(5, 10, 5, 10), req(3, 10, 8, 40)];
    assert_eq!(col.request_size(children.clone()), req(5, 21, 8, 51));
    let a = col.build((8, 30), children);
    assert_eq!(a[0].offset, (0, 0));
    assert_eq!(a[0].size, (5, 10));
    assert_eq!(a[1].offset, (0, 11));
    assert_eq!(a[1].size, (8, 19));
    assert_eq!(Column::center(2).2, Size::Fill);
    let _ = Column::end(1);
}

#[test]
fn column_scroll_is_clamped() {
    let children = vec![req(5, 10, 5, 10), req(5, 10, 5, 10), req(5, 10, 5, 10)];
    let mut col = Column::new(0, Offset::Start, Size::Fit, Padding::default(), true);
    assert_eq!(col.request_size(children.clone()), req(5, 0, 5, 30));
    col.adjust_scroll(1000);
    let a = col.build((5, 12), children.clone());
    assert_eq!(col.4, Some(18));
    assert_eq!(a[0].offset.1, -18);
    assert_eq!(a[2].offset.1, 2);
    col.adjust_scroll(-1000);
    col.build((5, 12), children.clone());
    assert_eq!(col.4, Some(0));
    col.set_scroll(7);
    col.build((5, 100), children);
    assert_eq!(col.4, Some(0));
}

#[test]
fn column_without_scroll_ignores_adjustments() {
    let mut col = Column::start(0);
    col.adjust_scroll(10);
    assert_eq!(col.4, None);
    col.padding().1 = 3;
    assert_eq!(col.3, Padding(0, 3, 0, 0));
}

#[test]
fn wrap_breaks_lines() {
    let mut w = Wrap::start(2, 1);
    let children = vec![req(4, 3, 4, 3), req(4, 5, 4, 5), req(4, 2, 4, 2)];
    let a = w.build((10, 100), children.clone());
    assert_eq!(w.5, 10);
    assert_eq!(a[0].offset, (0, 0));
    assert_eq!(a[1].offset, (6, 0));
    assert_eq!(a[2].offset, (0, 6));
    assert_eq!(a[2].size, (4, 2));
    // The request wraps at the width of the last build.
    assert_eq!(w.request_size(children), req(10, 8, MAX_LEN, MAX_LEN));
}

#[test]
fn wrap_lines_stay_within_width() {
    let mut w = Wrap::start(1, 0);
    let children = vec![req(3, 1, 3, 1), req(3, 1, 3, 1), req(20, 1, 20, 1), req(3, 1, 3, 1), req(3, 1, 3, 1), req(3, 1, 3, 1)];
    let a = w.build((10, 100), children);
    let ys: Vec<i64> = a.iter().map(|x| x.offset.1).collect();
    assert_eq!(ys, vec![0, 0, 1, 2, 2, 3]);
    let mut line_end = std::collections::BTreeMap::new();
    for x in &a {
        let e = line_end.entry(x.offset.1).or_insert((0i64, 0));
        e.0 = e.0.max(x.offset.0 + x.size.0 as i64);
        e.1 += 1;
    }
    for (_, (end, count)) in line_end {
        assert!(end <= 10 || count == 1);
    }
}

#[test]
fn wrap_alignment_of_lines() {
    let mut w = Wrap::end(0, 0);
    let a = w.build((10, 10), vec![req(4, 1, 4, 1)]);
    assert_eq!(a[0].offset, (6, 0));
    let mut w = Wrap::center(0, 0);
    let a = w.build((10, 10), vec![req(4, 1, 4, 1)]);
    assert_eq!(a[0].offset, (3, 0));
    let w = Wrap::new(1, 2);
    assert_eq!((w.0, w.1, w.2, w.5), (1, 2, Offset::Center, 0));
}

#[test]
fn wrap_padding_moves_lines_and_grows_request() {
    let mut w = Wrap::start(0, 0);
    w.4 = Padding(2, 3, 4, 5);
    let a = w.build((20, 100), vec![req(4, 1, 4, 1)]);
    assert_eq!(a[0].offset, (3, 2));
    assert_eq!(w.request_size(vec![req(4, 1, 4, 1)]), req(11, 8, MAX_LEN, MAX_LEN));
}

#[test]
fn wrap_counts_zero_width_items_as_a_line() {
    let mut w = Wrap::start(0, 0);
    w.4 = Padding(0, 3, 0, 0);
    let a = w.build((10, 100), vec![req(0, 5, 0, 5)]);
    assert_eq!(a[0].offset, (3, 0));
    assert_eq!(w.request_size(vec![req(0, 5, 0, 5)]), req(3, 5, MAX_LEN, MAX_LEN));
}

#[test]
fn distribution_grows_with_available_space() {
    let items = vec![(0, 10), (2, 10), (0, 4)];
    let mut last = UniformExpand::get(items.clone(), 0, 1);
    for avail in 1..40 {
        let next = UniformExpand::get(items.clone(), avail, 1);
        for (a, b) in last.iter().zip(next.iter()) {
            assert!(a <= b);
        }
        last = next;
    }
}

#[test]
fn wrap_line_start_padding_counts_toward_the_width() {
    let mut w = Wrap::start(0, 1);
    w.4 = Padding(0, 50, 0, 0);
    let a = w.build((100, 100), vec![req(30, 2, 30, 2), req(30, 2, 30, 2)]);
    assert_eq!(a[0].offset, (50, 0));
    assert_eq!(a[1].offset, (50, 3));
    let mut w = Wrap::start(0, 0);
    w.4 = Padding(0, 9, 0, 0);
    w.build((100, 100), vec![]);
    assert_eq!(w.request_size(vec![req(5, 1, 5, 1)]).min_width(), 14);
}

#[test]
fn scrolling_column_requests_no_minimum_height() {
    let children = vec![req(5, 10, 5, 10), req(5, 10, 5, 10), req(5, 10, 5, 10)];
    let mut col = Column::new(2, Offset::Start, Size::Fit, Padding(0, 1, 0, 1), true);
    assert_eq!(col.request_size(children), req(5, 2, 5, 36));
}
