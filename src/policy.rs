//! Layout policies: how a composite sizes itself from its children's
//! requests, and where it places each child inside the size it was given.
use vstd::prelude::*;
use crate::expand::{distributes, gaps, maxs, mins, pairs_wf, sum_seq, UniformExpand};
use crate::layout::{
    clamp, pos_from_wide, sat, sat_pos, Area, Offset, Padding, Size,
    SizeRequest, MAX_LEN,
};

verus! {

/// Every request is well formed.
pub open spec fn all_wf(c: Seq<SizeRequest>) -> bool {
    forall|i: int| 0 <= i < c.len() ==> #[trigger] c[i].wf()
}

/// `(min, max)` widths of the requests.
pub open spec fn widths_of(c: Seq<SizeRequest>) -> Seq<(u32, u32)> {
    Seq::new(c.len(), |i: int| (c[i].min_width, c[i].max_width))
}

/// `(min, max)` heights of the requests.
pub open spec fn heights_of(c: Seq<SizeRequest>) -> Seq<(u32, u32)> {
    Seq::new(c.len(), |i: int| (c[i].min_height, c[i].max_height))
}

/// Where the `i`-th of a run of lengths starts when each is followed by `spacing`.
pub open spec fn lead(ls: Seq<u32>, i: int, spacing: int) -> int
    decreases i,
{
    if i <= 0 {
        0
    } else {
        lead(ls, i - 1, spacing) + ls[i - 1] + spacing
    }
}

proof fn lemma_lead_bound(ls: Seq<u32>, i: int, spacing: int)
    requires
        0 <= i <= ls.len(),
        0 <= spacing <= MAX_LEN,
    ensures
        0 <= lead(ls, i, spacing) <= i * 8589934590,
    decreases i,
{
    if i > 0 {
        lemma_lead_bound(ls, i - 1, spacing);
    }
}

/// `(min, max)` pairs of the requests on one axis.
fn axis_pairs(children: &Vec<SizeRequest>, horizontal: bool) -> (r: Vec<(u32, u32)>)
    requires
        all_wf(children@),
    ensures
        horizontal ==> r@ == widths_of(children@),
        !horizontal ==> r@ == heights_of(children@),
        pairs_wf(r@),
{
    let mut r: Vec<(u32, u32)> = Vec::new();
    let mut k: usize = 0;
    while k < children.len()
        invariant
            k <= children.len(),
            all_wf(children@),
            horizontal ==> r@ =~= widths_of(children@).take(k as int),
            !horizontal ==> r@ =~= heights_of(children@).take(k as int),
        decreases children.len() - k,
    {
        let c = children[k];
        if horizontal {
            r.push((c.min_width, c.max_width));
        } else {
            r.push((c.min_height, c.max_height));
        }
        k = k + 1;
    }
    assert(widths_of(children@).take(k as int) =~= widths_of(children@));
    assert(heights_of(children@).take(k as int) =~= heights_of(children@));
    assert forall|i: int| 0 <= i < r@.len() implies #[trigger] r@[i].0 <= r@[i].1 by {
        assert(children@[i].wf());
    }
    r
}

/// Total spacing between `n` items, saturated to a length.
fn spacing_total(n: usize, spacing: u32) -> (r: u32)
    ensures
        r == sat(gaps(n as int, spacing as int)),
{
    if n == 0 {
        0
    } else {
        proof {
            assert((n - 1) * spacing <= 18446744073709551615u128 * 4294967295) by (nonlinear_arith)
                requires
                    n <= 18446744073709551615u128,
                    spacing <= 4294967295u128,
            ;
        }
        let g: u128 = (n - 1) as u128 * spacing as u128;
        if g > MAX_LEN as u128 {
            MAX_LEN
        } else {
            g as u32
        }
    }
}

/// A policy that turns children's requests into a request of its own, and a
/// size into one area per child.
pub trait Layout {
    /// The request of the whole layout.
    fn request_size(&self, children: Vec<SizeRequest>) -> (r: SizeRequest)
        requires
            all_wf(children@),
        ensures
            r.wf(),
    ;

    /// One area per child, in the children's order.
    fn build(&mut self, size: (u32, u32), children: Vec<SizeRequest>) -> (r: Vec<Area>)
        requires
            all_wf(children@),
        ensures
            r.len() == children.len(),
    ;
}

/// Field-by-field maximum of the requests, the zero request for none.
pub open spec fn join_all(c: Seq<SizeRequest>) -> SizeRequest
    decreases c.len(),
{
    if c.len() == 0 {
        SizeRequest { min_width: 0, min_height: 0, max_width: 0, max_height: 0 }
    } else if c.len() == 1 {
        c[0]
    } else {
        join_all(c.drop_last()).join(c.last())
    }
}

proof fn lemma_join_all_wf(c: Seq<SizeRequest>)
    requires
        all_wf(c),
    ensures
        join_all(c).wf(),
    decreases c.len(),
{
    if c.len() == 1 {
        assert(c[0].wf());
    } else if c.len() > 1 {
        assert(c[c.len() - 1].wf());
        assert(all_wf(c.drop_last())) by {
            assert forall|i: int| 0 <= i < c.len() - 1 implies #[trigger] c.drop_last()[i].wf() by {
                assert(c[i].wf());
            }
        }
        lemma_join_all_wf(c.drop_last());
    }
}

/// Children overlaid at the origin, each clamped to the size given.
#[derive(Clone, Copy, Debug, PartialEq, Eq)]
pub struct DefaultStack;

impl Layout for DefaultStack {
    /// The field-by-field maximum of the children's requests.
    fn request_size(&self, children: Vec<SizeRequest>) -> (r: SizeRequest)
        ensures
            r == join_all(children@),
    {
        if children.len() == 0 {
            return SizeRequest::new(0, 0, 0, 0);
        }
        let mut acc = children[0];
        let mut k: usize = 1;
        while k < children.len()
            invariant
                1 <= k <= children.len(),
                all_wf(children@),
                acc == join_all(children@.take(k as int)),
                acc.wf(),
            decreases children.len() - k,
        {
            assert(children@.take(k as int + 1).drop_last() =~= children@.take(k as int));
            acc = acc.max(&children[k]);
            k = k + 1;
        }
        assert(children@.take(k as int) =~= children@);
        acc
    }

    fn build(&mut self, size: (u32, u32), children: Vec<SizeRequest>) -> (r: Vec<Area>)
        ensures
            forall|i: int|
                0 <= i < r.len() ==> #[trigger] r[i] == (Area {
                    offset: (0, 0),
                    size: children@[i].clamp_spec(size),
                }),
    {
        let mut r: Vec<Area> = Vec::new();
        let mut k: usize = 0;
        while k < children.len()
            invariant
                k <= children.len(),
                all_wf(children@),
                r.len() == k,
                forall|i: int|
                    0 <= i < k ==> #[trigger] r[i] == (Area {
                        offset: (0, 0),
                        size: children@[i].clamp_spec(size),
                    }),
            decreases children.len() - k,
        {
            r.push(Area { offset: (0, 0), size: children[k].get(size) });
            k = k + 1;
        }
        r
    }
}

/// Children overlaid on each other, aligned on each axis on its own.
#[derive(Clone, Copy, Debug, PartialEq, Eq)]
pub struct Stack(pub Offset, pub Offset, pub Size, pub Size, pub Padding);

impl Stack {
    /// The request: each axis sized by its mode from the children's bounds, padded.
    pub open spec fn request_spec(&self, c: Seq<SizeRequest>) -> SizeRequest {
        let w = self.2.get_spec(widths_of(c));
        let h = self.3.get_spec(heights_of(c));
        self.4.request_spec(
            SizeRequest { min_width: w.0, min_height: h.0, max_width: w.1, max_height: h.1 },
        )
    }

    /// Where a child with request `c` goes when the stack has `size`.
    pub open spec fn area_spec(&self, size: (u32, u32), c: SizeRequest) -> Area {
        let inner = self.4.size_spec(size);
        let s = c.clamp_spec(inner);
        Area {
            offset: (
                sat_pos(self.0.offset_spec(inner.0 as int, s.0 as int) + self.4.0) as i64,
                sat_pos(self.1.offset_spec(inner.1 as int, s.1 as int) + self.4.1) as i64,
            ),
            size: s,
        }
    }

    pub fn new(x_offset: Offset, y_offset: Offset, x_size: Size, y_size: Size, padding: Padding) -> (r: Self)
        ensures
            r == Stack(x_offset, y_offset, x_size, y_size, padding),
    {
        Stack(x_offset, y_offset, x_size, y_size, padding)
    }

    pub fn center() -> (r: Self)
        ensures
            r == Stack(Offset::Center, Offset::Center, Size::Fit, Size::Fit, Padding(0, 0, 0, 0)),
    {
        Stack(Offset::Center, Offset::Center, Size::Fit, Size::Fit, Padding(0, 0, 0, 0))
    }

    pub fn start() -> (r: Self)
        ensures
            r == Stack(Offset::Start, Offset::Start, Size::Fit, Size::Fit, Padding(0, 0, 0, 0)),
    {
        Stack(Offset::Start, Offset::Start, Size::Fit, Size::Fit, Padding(0, 0, 0, 0))
    }

    pub fn end() -> (r: Self)
        ensures
            r == Stack(Offset::End, Offset::End, Size::Fit, Size::Fit, Padding(0, 0, 0, 0)),
    {
        Stack(Offset::End, Offset::End, Size::Fit, Size::Fit, Padding(0, 0, 0, 0))
    }

    pub fn fill() -> (r: Self)
        ensures
            r == Stack(Offset::Center, Offset::Center, Size::Fill, Size::Fill, Padding(0, 0, 0, 0)),
    {
        Stack(Offset::Center, Offset::Center, Size::Fill, Size::Fill, Padding(0, 0, 0, 0))
    }
}

impl Layout for Stack {
    fn request_size(&self, children: Vec<SizeRequest>) -> (r: SizeRequest)
        ensures
            r == self.request_spec(children@),
    {
        let w = self.2.get(axis_pairs(&children, true));
        let h = self.3.get(axis_pairs(&children, false));
        self.4.adjust_request(SizeRequest::new(w.0, h.0, w.1, h.1))
    }

    fn build(&mut self, size: (u32, u32), children: Vec<SizeRequest>) -> (r: Vec<Area>)
        ensures
            *final(self) == *old(self),
            forall|i: int| 0 <= i < r.len() ==> #[trigger] r[i] == old(self).area_spec(size, children@[i]),
    {
        let inner = self.4.adjust_size(size);
        let mut r: Vec<Area> = Vec::new();
        let mut k: usize = 0;
        while k < children.len()
            invariant
                k <= children.len(),
                all_wf(children@),
                inner == self.4.size_spec(size),
                r.len() == k,
                forall|i: int| 0 <= i < k ==> #[trigger] r[i] == self.area_spec(size, children@[i]),
            decreases children.len() - k,
        {
            let s = children[k].get(inner);
            let offset = (self.0.get(inner.0, s.0), self.1.get(inner.1, s.1));
            r.push(Area { offset: self.4.adjust_offset(offset), size: s });
            k = k + 1;
        }
        r
    }
}

/// The first components of the areas' sizes.
pub open spec fn area_widths(r: Seq<Area>) -> Seq<u32> {
    Seq::new(r.len(), |i: int| r[i].size.0)
}

/// The second components of the areas' sizes.
pub open spec fn area_heights(r: Seq<Area>) -> Seq<u32> {
    Seq::new(r.len(), |i: int| r[i].size.1)
}

/// Children side by side from left to right.
#[derive(Clone, Copy, Debug, PartialEq, Eq)]
pub struct Row(pub u32, pub Offset, pub Size, pub Padding);

impl Row {
    /// The request: widths summed with the spacing, heights by the sizing
    /// mode, padded.
    pub open spec fn request_spec(&self, c: Seq<SizeRequest>) -> SizeRequest {
        let w = widths_of(c);
        let h = self.2.get_spec(heights_of(c));
        self.3.request_spec(
            SizeRequest {
                min_width: sat(sum_seq(mins(w))) as u32,
                min_height: h.0,
                max_width: sat(sum_seq(maxs(w))) as u32,
                max_height: h.1,
            }.grown(sat(gaps(c.len() as int, self.0 as int)), 0),
        )
    }

    /// `r` is how the row places children `c` in `size`: widths shared by
    /// the flexible-space solver over the inner width, each child as tall as
    /// the inner height allows and aligned in it, left to right with the
    /// spacing between them.
    pub open spec fn placed(&self, size: (u32, u32), c: Seq<SizeRequest>, r: Seq<Area>) -> bool {
        let inner = self.3.size_spec(size);
        &&& r.len() == c.len()
        &&& distributes(area_widths(r), widths_of(c), inner.0 as int, self.0 as int)
        &&& forall|i: int|
            0 <= i < r.len() ==> (#[trigger] r[i]).size.1 == clamp(
                inner.1 as int,
                c[i].min_height as int,
                c[i].max_height as int,
            ) && r[i].offset == (
                sat_pos(self.3.0 + lead(area_widths(r), i, self.0 as int)) as i64,
                sat_pos(self.1.offset_spec(inner.1 as int, r[i].size.1 as int) + self.3.1) as i64,
            )
    }

    pub fn new(spacing: u32, offset: Offset, size: Size, padding: Padding) -> (r: Self)
        ensures
            r == Row(spacing, offset, size, padding),
    {
        Row(spacing, offset, size, padding)
    }

    pub fn center(spacing: u32) -> (r: Self)
        ensures
            r == Row(spacing, Offset::Center, Size::Fit, Padding(0, 0, 0, 0)),
    {
        Row(spacing, Offset::Center, Size::Fit, Padding(0, 0, 0, 0))
    }

    pub fn start(spacing: u32) -> (r: Self)
        ensures
            r == Row(spacing, Offset::Start, Size::Fit, Padding(0, 0, 0, 0)),
    {
        Row(spacing, Offset::Start, Size::Fit, Padding(0, 0, 0, 0))
    }

    pub fn end(spacing: u32) -> (r: Self)
        ensures
            r == Row(spacing, Offset::End, Size::Fit, Padding(0, 0, 0, 0)),
    {
        Row(spacing, Offset::End, Size::Fit, Padding(0, 0, 0, 0))
    }

    pub fn padding(&mut self) -> (r: &mut Padding)
        ensures
            *r == old(self).3,
            *final(self) == Row(old(self).0, old(self).1, old(self).2, *final(r)),
    {
        &mut self.3
    }
}

impl Layout for Row {
    fn request_size(&self, children: Vec<SizeRequest>) -> (r: SizeRequest)
        ensures
            r == self.request_spec(children@),
    {
        let n = children.len();
        let width = Size::add(axis_pairs(&children, true));
        let height = self.2.get(axis_pairs(&children, false));
        proof {
            crate::expand::lemma_sum_le(mins(widths_of(children@)), maxs(widths_of(children@)));
        }
        let base = SizeRequest::new(width.0, height.0, width.1, height.1);
        self.3.adjust_request(base.add_width(spacing_total(n, self.0)))
    }

    /// Widths come from the flexible-space solver over the inner width;
    /// children follow each other with the spacing between them.
    fn build(&mut self, size: (u32, u32), children: Vec<SizeRequest>) -> (r: Vec<Area>)
        ensures
            *final(self) == *old(self),
            old(self).placed(size, children@, r@),
    {
        let inner = self.3.adjust_size(size);
        let widths = UniformExpand::get(axis_pairs(&children, true), inner.0, self.0);
        let ghost ws = widths@;
        let mut r: Vec<Area> = Vec::new();
        let mut acc: i128 = 0;
        let mut k: usize = 0;
        while k < children.len()
            invariant
                k <= children.len(),
                all_wf(children@),
                inner == self.3.size_spec(size),
                ws == widths@,
                crate::expand::within(ws, widths_of(children@)),
                r.len() == k,
                acc == lead(ws, k as int, self.0 as int),
                forall|i: int| 0 <= i < k ==> #[trigger] r[i].size.0 == ws[i],
                forall|i: int|
                    0 <= i < k ==> (#[trigger] r[i]).size.1 == clamp(
                        inner.1 as int,
                        children@[i].min_height as int,
                        children@[i].max_height as int,
                    ) && r[i].offset == (
                        sat_pos(self.3.0 + lead(ws, i, self.0 as int)) as i64,
                        sat_pos(self.1.offset_spec(inner.1 as int, r[i].size.1 as int) + self.3.1)
                            as i64,
                    ),
            decreases children.len() - k,
        {
            proof {
                lemma_lead_bound(ws, k as int, self.0 as int);
                assert(widths_of(children@)[k as int].0 <= ws[k as int]);
            }
            let s = children[k].get((widths[k], inner.1));
            let x = pos_from_wide(acc + self.3.0 as i128);
            let y = pos_from_wide(self.1.get(inner.1, s.1) as i128 + self.3.1 as i128);
            r.push(Area { offset: (x, y), size: s });
            acc = acc + s.0 as i128 + self.0 as i128;
            k = k + 1;
        }
        assert(area_widths(r@) =~= ws);
        r
    }
}

/// Content extent of a column's children: their minimum heights and the gaps.
pub open spec fn content_extent(c: Seq<SizeRequest>, spacing: int) -> int {
    sum_seq(mins(heights_of(c))) + gaps(c.len() as int, spacing)
}

/// The largest scroll value for content of extent `content` seen through `extent`.
pub open spec fn max_scroll(content: int, extent: int) -> int {
    if content > extent {
        content - extent
    } else {
        0
    }
}

/// The scroll value, zero for a column that does not scroll.
pub open spec fn scroll_or_zero(s: Option<i64>) -> int {
    match s {
        None => 0,
        Some(v) => v as int,
    }
}

/// Children stacked from top to bottom, optionally scrolled.
#[derive(Clone, Copy, Debug, PartialEq, Eq)]
pub struct Column(pub u32, pub Offset, pub Size, pub Padding, pub Option<i64>);

impl Column {
    /// The request: heights summed with the spacing, widths by the sizing
    /// mode, padded; a scrolling column asks for no minimum height beyond
    /// its padding, so it never forces its parent to grow.
    pub open spec fn request_spec(&self, c: Seq<SizeRequest>) -> SizeRequest {
        let w = self.2.get_spec(widths_of(c));
        let h = heights_of(c);
        let base = if self.4.is_some() {
            SizeRequest {
                min_width: w.0,
                min_height: 0,
                max_width: w.1,
                max_height: sat(sum_seq(maxs(h))) as u32,
            }
        } else {
            SizeRequest {
                min_width: w.0,
                min_height: sat(sum_seq(mins(h))) as u32,
                max_width: w.1,
                max_height: sat(sum_seq(maxs(h))) as u32,
            }
        };
        let spaced = base.grown(0, sat(gaps(c.len() as int, self.0 as int)));
        self.3.request_spec(
            if self.4.is_some() {
                SizeRequest { min_height: 0, ..spaced }
            } else {
                spaced
            },
        )
    }

    /// The scroll value once clamped for children `c` in a column of `size`.
    pub open spec fn scroll_spec(&self, size: (u32, u32), c: Seq<SizeRequest>) -> Option<i64> {
        match self.4 {
            None => None,
            Some(s) => Some(
                clamp(
                    s as int,
                    0,
                    max_scroll(content_extent(c, self.0 as int), self.3.size_spec(size).1 as int),
                ) as i64,
            ),
        }
    }

    /// `r` is how the column places children `c` in `size`, leaving the
    /// column as `after`: the scroll value clamped to the content, heights
    /// shared by the flexible-space solver over the inner height, each child
    /// as wide as the inner width allows and aligned in it, top to bottom
    /// with the spacing between them, all moved up by the scroll value.
    pub open spec fn placed(&self, size: (u32, u32), c: Seq<SizeRequest>, r: Seq<Area>, after: Column) -> bool {
        let inner = self.3.size_spec(size);
        &&& after == Column(self.0, self.1, self.2, self.3, self.scroll_spec(size, c))
        &&& r.len() == c.len()
        &&& distributes(area_heights(r), heights_of(c), inner.1 as int, self.0 as int)
        &&& forall|i: int|
            0 <= i < r.len() ==> (#[trigger] r[i]).size.0 == clamp(
                inner.0 as int,
                c[i].min_width as int,
                c[i].max_width as int,
            ) && r[i].offset == (
                sat_pos(self.1.offset_spec(inner.0 as int, r[i].size.0 as int) + self.3.0) as i64,
                sat_pos(self.3.1 + lead(area_heights(r), i, self.0 as int) - scroll_or_zero(after.4)) as i64,
            )
    }

    pub fn new(spacing: u32, offset: Offset, size: Size, padding: Padding, scrollable: bool) -> (r: Self)
        ensures
            r == Column(spacing, offset, size, padding, if scrollable { Some(0i64) } else { None }),
    {
        Column(spacing, offset, size, padding, if scrollable { Some(0) } else { None })
    }

    pub fn center(spacing: u32) -> (r: Self)
        ensures
            r == Column(spacing, Offset::Center, Size::Fill, Padding(0, 0, 0, 0), None),
    {
        Column(spacing, Offset::Center, Size::Fill, Padding(0, 0, 0, 0), None)
    }

    pub fn start(spacing: u32) -> (r: Self)
        ensures
            r == Column(spacing, Offset::Start, Size::Fit, Padding(0, 0, 0, 0), None),
    {
        Column(spacing, Offset::Start, Size::Fit, Padding(0, 0, 0, 0), None)
    }

    pub fn end(spacing: u32) -> (r: Self)
        ensures
            r == Column(spacing, Offset::End, Size::Fit, Padding(0, 0, 0, 0), None),
    {
        Column(spacing, Offset::End, Size::Fit, Padding(0, 0, 0, 0), None)
    }

    pub fn padding(&mut self) -> (r: &mut Padding)
        ensures
            *r == old(self).3,
            *final(self) == Column(old(self).0, old(self).1, old(self).2, *final(r), old(self).4),
    {
        &mut self.3
    }

    /// Moves the scroll value by `delta` when the column scrolls.
    pub fn adjust_scroll(&mut self, delta: i64)
        ensures
            *final(self) == Column(
                old(self).0,
                old(self).1,
                old(self).2,
                old(self).3,
                match old(self).4 {
                    None => None,
                    Some(s) => Some(sat_pos(s + delta) as i64),
                },
            ),
    {
        if let Some(s) = self.4 {
            self.4 = Some(crate::layout::pos_add(s, delta));
        }
    }

    /// Makes the column scroll, with the given scroll value.
    pub fn set_scroll(&mut self, val: i64)
        ensures
            *final(self) == Column(old(self).0, old(self).1, old(self).2, old(self).3, Some(val)),
    {
        self.4 = Some(val);
    }
}

impl Layout for Column {
    fn request_size(&self, children: Vec<SizeRequest>) -> (r: SizeRequest)
        ensures
            r == self.request_spec(children@),
    {
        let n = children.len();
        let width = self.2.get(axis_pairs(&children, true));
        let height = Size::add(axis_pairs(&children, false));
        proof {
            crate::expand::lemma_sum_le(mins(heights_of(children@)), maxs(heights_of(children@)));
        }
        let base = if self.4.is_some() {
            SizeRequest::new(width.0, 0, width.1, height.1)
        } else {
            SizeRequest::new(width.0, height.0, width.1, height.1)
        };
        let spaced = base.add_height(spacing_total(n, self.0));
        let inner = if self.4.is_some() {
            SizeRequest::new(spaced.min_width, 0, spaced.max_width, spaced.max_height)
        } else {
            spaced
        };
        self.3.adjust_request(inner)
    }

    /// Heights come from the flexible-space solver over the inner height;
    /// the scroll value, if any, is clamped to the content and moves every
    /// child up by that much.
    fn build(&mut self, size: (u32, u32), children: Vec<SizeRequest>) -> (r: Vec<Area>)
        ensures
            old(self).placed(size, children@, r@, *final(self)),
            final(self).4 matches Some(v) ==> 0 <= v <= max_scroll(
                content_extent(children@, old(self).0 as int),
                old(self).3.size_spec(size).1 as int,
            ),
    {
        let inner = self.3.adjust_size(size);
        let pairs = axis_pairs(&children, false);
        let scroll: i64 = match self.4 {
            None => 0,
            Some(s) => {
                let n = children.len();
                let total_min = crate::expand::sum_of_mins(&pairs);
                proof {
                    crate::expand::lemma_sum_bound(mins(heights_of(children@)));
                    assert((n - 1) * self.0 <= 18446744073709551615u128 * 4294967295) by (
                    nonlinear_arith)
                        requires
                            n <= 18446744073709551615u128,
                            self.0 <= 4294967295u128,
                    ;
                }
                let g: u128 = if n == 0 {
                    0
                } else {
                    (n - 1) as u128 * self.0 as u128
                };
                let content: u128 = total_min + g;
                let v: i64 = if s < 0 {
                    0
                } else if content <= inner.1 as u128 || (s as u128) <= content - inner.1 as u128 {
                    if content <= inner.1 as u128 {
                        0
                    } else {
                        s
                    }
                } else {
                    (content - inner.1 as u128) as i64
                };
                self.4 = Some(v);
                v
            },
        };
        let heights = UniformExpand::get(pairs, inner.1, self.0);
        let ghost hs = heights@;
        let mut r: Vec<Area> = Vec::new();
        let mut acc: i128 = 0;
        let mut k: usize = 0;
        while k < children.len()
            invariant
                k <= children.len(),
                all_wf(children@),
                inner == self.3.size_spec(size),
                hs == heights@,
                crate::expand::within(hs, heights_of(children@)),
                r.len() == k,
                acc == lead(hs, k as int, self.0 as int),
                0 <= scroll,
                forall|i: int| 0 <= i < k ==> #[trigger] r[i].size.1 == hs[i],
                forall|i: int|
                    0 <= i < k ==> (#[trigger] r[i]).size.0 == clamp(
                        inner.0 as int,
                        children@[i].min_width as int,
                        children@[i].max_width as int,
                    ) && r[i].offset == (
                        sat_pos(self.1.offset_spec(inner.0 as int, r[i].size.0 as int) + self.3.0)
                            as i64,
                        sat_pos(self.3.1 + lead(hs, i, self.0 as int) - scroll) as i64,
                    ),
            decreases children.len() - k,
        {
            proof {
                lemma_lead_bound(hs, k as int, self.0 as int);
                assert(heights_of(children@)[k as int].0 <= hs[k as int]);
            }
            let s = children[k].get((inner.0, heights[k]));
            let x = pos_from_wide(self.1.get(inner.0, s.0) as i128 + self.3.0 as i128);
            let y = pos_from_wide(acc + self.3.1 as i128 - scroll as i128);
            r.push(Area { offset: (x, y), size: s });
            acc = acc + s.1 as i128 + self.0 as i128;
            k = k + 1;
        }
        assert(area_heights(r@) =~= hs);
        r
    }
}

} // verus!
