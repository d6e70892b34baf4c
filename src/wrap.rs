//! The wrapping flow layout: children left to right, starting a new line
//! whenever the next child would cross the line width.
use vstd::prelude::*;
use crate::layout::{pos_from_wide, sat, sat_pos, Area, Offset, Padding, SizeRequest, MAX_LEN};
use crate::policy::Layout;

verus! {

/// Children in lines that wrap at a width: `(horizontal spacing, vertical
/// spacing, line alignment, vertical alignment, padding, line width hint)`.
///
/// Lines start at `padding.1` across and the first line at `padding.0`
/// down; `padding.2` and `padding.3` are added to the requested minimum
/// width and height.
///
/// The hint is the width the last `build` was given; `request_size` wraps
/// at it, since its own width is not known before the request is answered.
#[derive(Clone, Copy, Debug, PartialEq, Eq)]
pub struct Wrap(pub u32, pub u32, pub Offset, pub Offset, pub Padding, pub u32);

/// Minimum `(width, height)` of each request.
pub open spec fn min_sizes(c: Seq<SizeRequest>) -> Seq<(u32, u32)> {
    Seq::new(c.len(), |i: int| (c[i].min_width, c[i].min_height))
}

/// Line state after the first `k` items: `(line end, line height, line
/// top, widest finished line, index of the line's first item)`.
pub open spec fn fold_at(w: Wrap, ws: Seq<(u32, u32)>, limit: int, k: int) -> (int, int, int, int, int)
    decreases k,
{
    if k <= 0 {
        (w.4.1 as int, 0, w.4.0 as int, 0, 0)
    } else {
        let s = fold_at(w, ws, limit, k - 1);
        let cw = ws[k - 1].0 as int;
        let ch = ws[k - 1].1 as int;
        if s.0 + cw > limit && k - 1 > s.4 {
            (
                w.4.1 + cw + w.0,
                ch,
                s.2 + s.1 + w.1,
                if s.3 >= s.0 - w.0 { s.3 } else { s.0 - w.0 },
                k - 1,
            )
        } else {
            (s.0 + cw + w.0, if s.1 >= ch { s.1 } else { ch }, s.2, s.3, s.4)
        }
    }
}

/// Item `k` does not fit after the items before it on a line that holds
/// at least one item.
pub open spec fn breaks(w: Wrap, ws: Seq<(u32, u32)>, limit: int, k: int) -> bool {
    let s = fold_at(w, ws, limit, k);
    s.0 + ws[k].0 > limit && k > s.4
}

/// Where the line holding item `i` ends.
pub open spec fn line_end(w: Wrap, ws: Seq<(u32, u32)>, limit: int, i: int) -> int
    decreases ws.len() - i,
{
    if i + 1 >= ws.len() || breaks(w, ws, limit, i + 1) {
        fold_at(w, ws, limit, i + 1).0
    } else {
        line_end(w, ws, limit, i + 1)
    }
}

/// Where a line that ends at `te` starts, by the line alignment.
pub open spec fn start_x(w: Wrap, limit: int, te: int) -> int {
    let used = te - w.0 - w.4.1;
    let extra = if limit - used > 0 {
        limit - used
    } else {
        0
    };
    match w.2 {
        Offset::Start => w.4.1 as int,
        Offset::End => w.4.1 + extra,
        Offset::Center => w.4.1 + extra / 2,
        Offset::Static(_) => 0,
    }
}

/// The area of item `i`: its minimum size, on its line, after the items
/// before it on that line.
pub open spec fn area_at(w: Wrap, ws: Seq<(u32, u32)>, limit: int, i: int) -> Area {
    let s = fold_at(w, ws, limit, i + 1);
    Area {
        offset: (
            sat_pos(start_x(w, limit, line_end(w, ws, limit, i)) + s.0 - ws[i].0 - w.0 - w.4.1) as i64,
            sat_pos(s.2) as i64,
        ),
        size: ws[i],
    }
}

proof fn lemma_fold_bounds(w: Wrap, ws: Seq<(u32, u32)>, limit: int, k: int)
    requires
        0 <= k <= ws.len(),
    ensures
        w.4.1 <= fold_at(w, ws, limit, k).0 <= w.4.1 + k * 8589934590,
        0 <= fold_at(w, ws, limit, k).1 <= MAX_LEN,
        w.4.0 <= fold_at(w, ws, limit, k).2 <= w.4.0 + k * 8589934590,
        0 <= fold_at(w, ws, limit, k).3 <= w.4.1 + k * 8589934590,
        0 <= fold_at(w, ws, limit, k).4 <= k,
        k > 0 ==> fold_at(w, ws, limit, k).4 < k,
    decreases k,
{
    if k > 0 {
        lemma_fold_bounds(w, ws, limit, k - 1);
    }
}

/// Items after a line's first item and before `k` keep the line's top.
proof fn lemma_same_line(w: Wrap, ws: Seq<(u32, u32)>, limit: int, j: int, k: int)
    requires
        0 <= j < k <= ws.len(),
        forall|m: int| j < m < k ==> !breaks(w, ws, limit, m),
    ensures
        fold_at(w, ws, limit, j + 1).2 == fold_at(w, ws, limit, k).2,
        fold_at(w, ws, limit, j + 1).4 == fold_at(w, ws, limit, k).4,
    decreases k - j,
{
    if j + 1 < k {
        lemma_same_line(w, ws, limit, j, k - 1);
        assert(!breaks(w, ws, limit, k - 1));
    }
}

/// Items of the line that ends before `k` share its end.
proof fn lemma_line_end(w: Wrap, ws: Seq<(u32, u32)>, limit: int, j: int, k: int)
    requires
        0 <= j < k <= ws.len(),
        k == ws.len() || breaks(w, ws, limit, k),
        forall|m: int| j < m < k ==> !breaks(w, ws, limit, m),
    ensures
        line_end(w, ws, limit, j) == fold_at(w, ws, limit, k).0,
    decreases k - j,
{
    if j + 1 < k {
        lemma_line_end(w, ws, limit, j + 1, k);
    }
}

proof fn lemma_index_scale(j: int)
    requires
        0 <= j <= 18446744073709551616,
    ensures
        j * 8589934590 <= 18446744073709551616 * 8589934590,
        (j + 1) * 8589934590 <= 18446744073709551617 * 8589934590,
{
    assert(j * 8589934590 <= 18446744073709551616 * 8589934590) by (nonlinear_arith)
        requires
            0 <= j <= 18446744073709551616,
    ;
    assert((j + 1) * 8589934590 <= 18446744073709551617 * 8589934590) by (nonlinear_arith)
        requires
            0 <= j <= 18446744073709551616,
    ;
}

/// A wide length cut into the range of a length.
fn len_from_wide(v: i128) -> (r: u32)
    ensures
        r == sat(v as int),
{
    if v < 0 {
        0
    } else if v > MAX_LEN as i128 {
        MAX_LEN
    } else {
        v as u32
    }
}

/// The minimum `(width, height)` of each request.
fn min_size_list(children: &Vec<SizeRequest>) -> (r: Vec<(u32, u32)>)
    ensures
        r@ == min_sizes(children@),
{
    let mut r: Vec<(u32, u32)> = Vec::new();
    let mut k: usize = 0;
    while k < children.len()
        invariant
            k <= children.len(),
            r@ =~= min_sizes(children@).take(k as int),
        decreases children.len() - k,
    {
        r.push((children[k].min_width, children[k].min_height));
        k = k + 1;
    }
    assert(min_sizes(children@).take(k as int) =~= min_sizes(children@));
    r
}

/// An item that does not open a new line ends within the line width, and an
/// item wider than the line is alone on its line.
pub proof fn lemma_wrap_lines_fit(w: Wrap, ws: Seq<(u32, u32)>, limit: int, i: int)
    requires
        0 < i < ws.len(),
        limit >= 0,
    ensures
        !breaks(w, ws, limit, i) ==> fold_at(w, ws, limit, i).0 + ws[i].0 <= limit,
        ws[i].0 > limit ==> breaks(w, ws, limit, i),
        ws[i].0 > limit && i + 1 < ws.len() ==> breaks(w, ws, limit, i + 1),
{
    lemma_fold_bounds(w, ws, limit, i - 1);
    lemma_fold_bounds(w, ws, limit, i);
    assert(fold_at(w, ws, limit, i).0 >= w.4.1 + ws[i - 1].0 + w.0);
    assert(fold_at(w, ws, limit, i + 1).0 >= w.4.1 + ws[i].0 + w.0);
}

/// The line holding the first `k` items' last item starts at `fold_at(k).4`:
/// nothing breaks after it, and its first item starts at the x-start padding.
proof fn lemma_line_start(w: Wrap, ws: Seq<(u32, u32)>, limit: int, k: int)
    requires
        0 < k <= ws.len(),
    ensures
        ({
            let j = fold_at(w, ws, limit, k).4;
            &&& 0 <= j < k
            &&& forall|m: int| j < m < k ==> !breaks(w, ws, limit, m)
            &&& fold_at(w, ws, limit, j + 1).0 == w.4.1 + ws[j].0 + w.0
            &&& fold_at(w, ws, limit, j + 1).4 == j
        }),
    decreases k,
{
    lemma_fold_bounds(w, ws, limit, k);
    if k > 1 && !breaks(w, ws, limit, k - 1) {
        lemma_line_start(w, ws, limit, k - 1);
    }
}

/// Items `j..=i` with no break after `j` end their line at the same place.
proof fn lemma_line_end_same(w: Wrap, ws: Seq<(u32, u32)>, limit: int, j: int, i: int)
    requires
        0 <= j <= i < ws.len(),
        forall|m: int| j < m <= i ==> !breaks(w, ws, limit, m),
    ensures
        line_end(w, ws, limit, j) == line_end(w, ws, limit, i),
    decreases i - j,
{
    if j < i {
        assert(!breaks(w, ws, limit, j + 1));
        lemma_line_end_same(w, ws, limit, j + 1, i);
    }
}

/// A line ends past the x-start padding and within reach of a length sum.
proof fn lemma_line_end_bounds(w: Wrap, ws: Seq<(u32, u32)>, limit: int, i: int)
    requires
        0 <= i < ws.len(),
    ensures
        w.4.1 <= line_end(w, ws, limit, i) <= w.4.1 + ws.len() * 8589934590,
    decreases ws.len() - i,
{
    lemma_fold_bounds(w, ws, limit, i + 1);
    assert((i + 1) * 8589934590 <= ws.len() * 8589934590) by (nonlinear_arith)
        requires
            i + 1 <= ws.len(),
    ;
    if !(i + 1 >= ws.len() || breaks(w, ws, limit, i + 1)) {
        lemma_line_end_bounds(w, ws, limit, i + 1);
    }
}

/// In the built areas, an item that does not open a new line shares the
/// row of its line's first item, and the line from the x-start padding to
/// that item's far edge fits the width; an item that opens a new line sits
/// lower than the item before it when the lines are spaced. Positions stay
/// exact for fewer than 2^28 items.
pub proof fn lemma_wrap_areas_fit(w: Wrap, ws: Seq<(u32, u32)>, limit: int, i: int)
    requires
        0 < i < ws.len(),
        ws.len() < 268435456,
        0 <= limit <= MAX_LEN,
    ensures
        !breaks(w, ws, limit, i) ==> ({
            let j = fold_at(w, ws, limit, i + 1).4;
            &&& 0 <= j < i
            &&& area_at(w, ws, limit, j).offset.1 == area_at(w, ws, limit, i).offset.1
            &&& w.4.1 + area_at(w, ws, limit, i).offset.0 + ws[i].0 - area_at(w, ws, limit, j).offset.0
                <= limit
        }),
        breaks(w, ws, limit, i) && w.1 > 0 ==> area_at(w, ws, limit, i).offset.1 > area_at(
            w,
            ws,
            limit,
            i - 1,
        ).offset.1,
{
    lemma_fold_bounds(w, ws, limit, i);
    lemma_fold_bounds(w, ws, limit, i + 1);
    lemma_wrap_lines_fit(w, ws, limit, i);
    lemma_index_scale(i);
    if !breaks(w, ws, limit, i) {
        lemma_line_start(w, ws, limit, i + 1);
        let j = fold_at(w, ws, limit, i + 1).4;
        lemma_fold_bounds(w, ws, limit, j + 1);
        lemma_same_line(w, ws, limit, j, i + 1);
        lemma_line_end_same(w, ws, limit, j, i);
        lemma_line_end_bounds(w, ws, limit, i);
    } else {
        lemma_fold_bounds(w, ws, limit, i - 1);
    }
}

impl Wrap {
    /// The request: the widest line and the height of all lines at the hint
    /// width, padded, with no upper bound.
    pub open spec fn request_spec(&self, c: Seq<SizeRequest>) -> SizeRequest {
        let s = fold_at(*self, min_sizes(c), self.5 as int, c.len() as int);
        let th = if c.len() > s.4 {
            s.2 + s.1
        } else {
            s.2
        };
        let m = if c.len() > s.4 && s.0 - self.0 > s.3 {
            s.0 - self.0
        } else {
            s.3
        };
        SizeRequest {
            min_width: sat(m + self.4.2) as u32,
            min_height: sat(th + self.4.3) as u32,
            max_width: MAX_LEN,
            max_height: MAX_LEN,
        }
    }

    pub fn new(w_spacing: u32, h_spacing: u32) -> (r: Self)
        ensures
            r == Wrap(w_spacing, h_spacing, Offset::Center, Offset::Center, Padding(0, 0, 0, 0), 0),
    {
        Wrap(w_spacing, h_spacing, Offset::Center, Offset::Center, Padding(0, 0, 0, 0), 0)
    }

    pub fn start(w_spacing: u32, h_spacing: u32) -> (r: Self)
        ensures
            r == Wrap(w_spacing, h_spacing, Offset::Start, Offset::Center, Padding(0, 0, 0, 0), 0),
    {
        Wrap(w_spacing, h_spacing, Offset::Start, Offset::Center, Padding(0, 0, 0, 0), 0)
    }

    pub fn end(w_spacing: u32, h_spacing: u32) -> (r: Self)
        ensures
            r == Wrap(w_spacing, h_spacing, Offset::End, Offset::Center, Padding(0, 0, 0, 0), 0),
    {
        Wrap(w_spacing, h_spacing, Offset::End, Offset::Center, Padding(0, 0, 0, 0), 0)
    }

    pub fn center(w_spacing: u32, h_spacing: u32) -> (r: Self)
        ensures
            r == Wrap(w_spacing, h_spacing, Offset::Center, Offset::Center, Padding(0, 0, 0, 0), 0),
    {
        Wrap(w_spacing, h_spacing, Offset::Center, Offset::Center, Padding(0, 0, 0, 0), 0)
    }

    /// Appends the areas of the line of items `start..k`, which ends at `tw`
    /// with its top at `ho`.
    fn flush(
        &self,
        sizes: &Vec<(u32, u32)>,
        limit: u32,
        start: usize,
        k: usize,
        tw: i128,
        ho: i128,
        areas: &mut Vec<Area>,
    )
        requires
            start <= k <= sizes.len(),
            old(areas).len() == start,
            forall|i: int|
                0 <= i < start ==> #[trigger] old(areas)@[i] == area_at(*self, sizes@, limit as int, i),
            start < k ==> (start == 0 || breaks(*self, sizes@, limit as int, start as int)),
            start < k ==> (k == sizes.len() || breaks(*self, sizes@, limit as int, k as int)),
            forall|m: int| start < m < k ==> !breaks(*self, sizes@, limit as int, m),
            tw == fold_at(*self, sizes@, limit as int, k as int).0,
            ho == fold_at(*self, sizes@, limit as int, k as int).2,
            start < k ==> fold_at(*self, sizes@, limit as int, k as int).4 == start,
        ensures
            final(areas).len() == k,
            forall|i: int|
                0 <= i < k ==> #[trigger] final(areas)@[i] == area_at(*self, sizes@, limit as int, i),
    {
        if start == k {
            return;
        }
        let ghost ws = sizes@;
        let ghost lim = limit as int;
        proof {
            lemma_fold_bounds(*self, ws, lim, k as int);
            lemma_index_scale(k as int);
        }
        let used: i128 = tw - self.0 as i128 - self.4.1 as i128;
        let extra: i128 = if limit as i128 - used > 0 {
            limit as i128 - used
        } else {
            0
        };
        let sx: i128 = match self.2 {
            Offset::Start => self.4.1 as i128,
            Offset::End => self.4.1 as i128 + extra,
            Offset::Center => self.4.1 as i128 + extra / 2,
            Offset::Static(_) => 0,
        };
        assert(0 <= extra <= 8589934592);
        assert(0 <= sx <= 12884901888);
        let y = pos_from_wide(ho);
        let mut x: i128 = sx;
        let mut j: usize = start;
        while j < k
            invariant
                start <= j <= k <= ws.len(),
                ws == sizes@,
                lim == limit as int,
                areas.len() == j,
                forall|i: int| 0 <= i < j ==> #[trigger] areas@[i] == area_at(*self, ws, lim, i),
                start == 0 || breaks(*self, ws, lim, start as int),
                k == ws.len() || breaks(*self, ws, lim, k as int),
                forall|m: int| start < m < k ==> !breaks(*self, ws, lim, m),
                tw == fold_at(*self, ws, lim, k as int).0,
                ho == fold_at(*self, ws, lim, k as int).2,
                fold_at(*self, ws, lim, k as int).4 == start,
                sx == start_x(*self, lim, tw as int),
                0 <= sx <= 12884901888,
                y == sat_pos(ho as int),
                x == sx + (if j == start {
                    self.4.1 as int
                } else {
                    fold_at(*self, ws, lim, j as int).0
                }) - self.4.1,
            decreases k - j,
        {
            proof {
                lemma_fold_bounds(*self, ws, lim, j as int);
                lemma_fold_bounds(*self, ws, lim, j + 1);
                lemma_same_line(*self, ws, lim, j as int, k as int);
                lemma_line_end(*self, ws, lim, j as int, k as int);
                if j > start {
                    assert(!breaks(*self, ws, lim, j as int));
                }
                lemma_index_scale(j as int);
            }
            let (cw, ch) = sizes[j];
            areas.push(Area { offset: (pos_from_wide(x), y), size: (cw, ch) });
            x = x + cw as i128 + self.0 as i128;
            j = j + 1;
        }
    }
}

impl Layout for Wrap {
    /// Wraps the children's minimum sizes at the line width hint: the widest
    /// line and the total height of the lines, padded, with no upper bound.
    fn request_size(&self, children: Vec<SizeRequest>) -> (r: SizeRequest)
        ensures
            r == self.request_spec(children@),
    {
        let sizes = min_size_list(&children);
        let ghost ws = sizes@;
        let ghost lim = self.5 as int;
        let x0 = self.4.1 as i128;
        let mut lw: i128 = x0;
        let mut lh: i128 = 0;
        let mut th: i128 = self.4.0 as i128;
        let mut mlw: i128 = 0;
        let mut start: usize = 0;
        let mut k: usize = 0;
        while k < sizes.len()
            invariant
                k <= sizes.len(),
                ws == sizes@,
                lim == self.5 as int,
                x0 == self.4.1,
                lw == fold_at(*self, ws, lim, k as int).0,
                lh == fold_at(*self, ws, lim, k as int).1,
                th == fold_at(*self, ws, lim, k as int).2,
                mlw == fold_at(*self, ws, lim, k as int).3,
                start == fold_at(*self, ws, lim, k as int).4,
            decreases sizes.len() - k,
        {
            proof {
                lemma_fold_bounds(*self, ws, lim, k as int);
                lemma_index_scale(k as int);
            }
            let (cw, ch) = sizes[k];
            if lw + cw as i128 > self.5 as i128 && k > start {
                th = th + lh + self.1 as i128;
                if lw - (self.0 as i128) > mlw {
                    mlw = lw - self.0 as i128;
                }
                lw = x0;
                lh = 0;
                start = k;
            }
            lw = lw + cw as i128 + self.0 as i128;
            if ch as i128 > lh {
                lh = ch as i128;
            }
            k = k + 1;
        }
        proof {
            lemma_fold_bounds(*self, ws, lim, k as int);
            lemma_index_scale(k as int);
        }
        if k > start {
            th = th + lh;
            if lw - (self.0 as i128) > mlw {
                mlw = lw - self.0 as i128;
            }
        }
        SizeRequest::new(
            len_from_wide(mlw + self.4.2 as i128),
            len_from_wide(th + self.4.3 as i128),
            MAX_LEN,
            MAX_LEN,
        )
    }

    /// Records the width as the new hint and lays the children's minimum
    /// sizes out in lines of at most that width.
    fn build(&mut self, size: (u32, u32), children: Vec<SizeRequest>) -> (r: Vec<Area>)
        ensures
            *final(self) == Wrap(old(self).0, old(self).1, old(self).2, old(self).3, old(self).4, size.0),
            forall|i: int|
                0 <= i < r.len() ==> #[trigger] r[i] == area_at(
                    *final(self),
                    min_sizes(children@),
                    size.0 as int,
                    i,
                ),
    {
        self.5 = size.0;
        let limit = size.0;
        let sizes = min_size_list(&children);
        let ghost ws = sizes@;
        let ghost lim = limit as int;
        let x0 = self.4.1 as i128;
        let mut tw: i128 = x0;
        let mut lh: i128 = 0;
        let mut ho: i128 = self.4.0 as i128;
        let mut start: usize = 0;
        let mut areas: Vec<Area> = Vec::new();
        let mut k: usize = 0;
        while k < sizes.len()
            invariant
                k <= sizes.len(),
                ws == sizes@,
                lim == limit as int,
                x0 == self.4.1,
                start <= k,
                tw == fold_at(*self, ws, lim, k as int).0,
                lh == fold_at(*self, ws, lim, k as int).1,
                ho == fold_at(*self, ws, lim, k as int).2,
                start == fold_at(*self, ws, lim, k as int).4,
                start == 0 || (start < ws.len() && breaks(*self, ws, lim, start as int)),
                forall|m: int| start < m < k ==> !breaks(*self, ws, lim, m),
                areas.len() == start,
                forall|i: int| 0 <= i < start ==> #[trigger] areas@[i] == area_at(*self, ws, lim, i),
            decreases sizes.len() - k,
        {
            proof {
                lemma_fold_bounds(*self, ws, lim, k as int);
                lemma_index_scale(k as int);
            }
            let (cw, ch) = sizes[k];
            if tw + cw as i128 > limit as i128 && k > start {
                self.flush(&sizes, limit, start, k, tw, ho, &mut areas);
                ho = ho + lh + self.1 as i128;
                tw = x0;
                lh = 0;
                start = k;
            }
            tw = tw + cw as i128 + self.0 as i128;
            if ch as i128 > lh {
                lh = ch as i128;
            }
            k = k + 1;
        }
        self.flush(&sizes, limit, start, k, tw, ho, &mut areas);
        areas
    }
}

} // verus!
