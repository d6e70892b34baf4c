//! Size requests and the small value types that layout policies share.
use vstd::prelude::*;
use crate::expand::{maxs, mins, sum_seq};

verus! {

/// The largest length a request can name.
pub const MAX_LEN: u32 = 4294967295;

/// `v` clamped into `[lo, hi]`.
pub open spec fn clamp(v: int, lo: int, hi: int) -> int {
    if v < lo {
        lo
    } else if v > hi {
        hi
    } else {
        v
    }
}

/// `x` cut into the range of a length.
pub open spec fn sat(x: int) -> int {
    if x < 0 {
        0
    } else if x > MAX_LEN as int {
        MAX_LEN as int
    } else {
        x
    }
}

/// Adds two lengths, saturating at `MAX_LEN`.
pub fn sat_add(a: u32, b: u32) -> (r: u32)
    ensures
        r == sat(a + b),
{
    a.saturating_add(b)
}

/// Subtracts two lengths, saturating at zero.
pub fn sat_sub(a: u32, b: u32) -> (r: u32)
    ensures
        r == sat(a - b),
{
    a.saturating_sub(b)
}

/// Larger of two lengths.
pub fn max_len(a: u32, b: u32) -> (r: u32)
    ensures
        r == if a >= b { a } else { b },
{
    if a >= b {
        a
    } else {
        b
    }
}

/// Smaller of two lengths.
pub fn min_len(a: u32, b: u32) -> (r: u32)
    ensures
        r == if a <= b { a } else { b },
{
    if a <= b {
        a
    } else {
        b
    }
}

/// Resolved placement of one node in its parent's coordinate space.
#[derive(Clone, Copy, Debug, PartialEq, Eq)]
pub struct Area {
    pub offset: (i64, i64),
    pub size: (u32, u32),
}

/// Minimum and maximum width and height that a node can occupy.
///
/// A well-formed request has `min <= max` on both axes.
#[derive(Clone, Copy, Debug, Default, PartialEq, Eq)]
pub struct SizeRequest {
    pub min_width: u32,
    pub min_height: u32,
    pub max_width: u32,
    pub max_height: u32,
}

impl SizeRequest {
    /// Minimum at most maximum on both axes.
    pub open spec fn wf(&self) -> bool {
        self.min_width <= self.max_width && self.min_height <= self.max_height
    }

    /// The size this request turns a proposed size into.
    pub open spec fn clamp_spec(&self, size: (u32, u32)) -> (u32, u32) {
        (
            clamp(size.0 as int, self.min_width as int, self.max_width as int) as u32,
            clamp(size.1 as int, self.min_height as int, self.max_height as int) as u32,
        )
    }

    /// The request with `w` added to both width bounds and `h` to both height bounds.
    pub open spec fn grown(&self, w: int, h: int) -> SizeRequest {
        SizeRequest {
            min_width: sat(self.min_width + w) as u32,
            min_height: sat(self.min_height + h) as u32,
            max_width: sat(self.max_width + w) as u32,
            max_height: sat(self.max_height + h) as u32,
        }
    }

    /// The field-by-field maximum of two requests.
    pub open spec fn join(&self, o: SizeRequest) -> SizeRequest {
        SizeRequest {
            min_width: if self.min_width >= o.min_width { self.min_width } else { o.min_width },
            min_height: if self.min_height >= o.min_height { self.min_height } else { o.min_height },
            max_width: if self.max_width >= o.max_width { self.max_width } else { o.max_width },
            max_height: if self.max_height >= o.max_height { self.max_height } else { o.max_height },
        }
    }

    pub fn min_width(&self) -> (r: u32)
        ensures
            r == self.min_width,
    {
        self.min_width
    }

    pub fn min_height(&self) -> (r: u32)
        ensures
            r == self.min_height,
    {
        self.min_height
    }

    pub fn max_width(&self) -> (r: u32)
        ensures
            r == self.max_width,
    {
        self.max_width
    }

    pub fn max_height(&self) -> (r: u32)
        ensures
            r == self.max_height,
    {
        self.max_height
    }

    /// A request with the given bounds; an inverted axis is a caller error.
    pub fn new(min_width: u32, min_height: u32, max_width: u32, max_height: u32) -> (r: Self)
        requires
            min_width <= max_width,
            min_height <= max_height,
        ensures
            r == (SizeRequest { min_width, min_height, max_width, max_height }),
            r.wf(),
    {
        SizeRequest { min_width, min_height, max_width, max_height }
    }

    /// A request whose minimum and maximum are both `size`.
    pub fn fixed(size: (u32, u32)) -> (r: Self)
        ensures
            r == (SizeRequest {
                min_width: size.0,
                min_height: size.1,
                max_width: size.0,
                max_height: size.1,
            }),
            r.wf(),
    {
        SizeRequest { min_width: size.0, min_height: size.1, max_width: size.0, max_height: size.1 }
    }

    /// A request that accepts any size.
    pub fn fill() -> (r: Self)
        ensures
            r == (SizeRequest {
                min_width: 0,
                min_height: 0,
                max_width: MAX_LEN,
                max_height: MAX_LEN,
            }),
            r.wf(),
    {
        SizeRequest { min_width: 0, min_height: 0, max_width: MAX_LEN, max_height: MAX_LEN }
    }

    /// Clamps a proposed size into this request's bounds, axis by axis.
    pub fn get(&self, size: (u32, u32)) -> (r: (u32, u32))
        requires
            self.wf(),
        ensures
            r == self.clamp_spec(size),
    {
        (
            min_len(self.max_width, max_len(self.min_width, size.0)),
            min_len(self.max_height, max_len(self.min_height, size.1)),
        )
    }

    /// Adds `w` to both width bounds and `h` to both height bounds.
    pub fn add(&self, w: u32, h: u32) -> (r: SizeRequest)
        requires
            self.wf(),
        ensures
            r == self.grown(w as int, h as int),
            r.wf(),
    {
        self.add_width(w).add_height(h)
    }

    /// Adds `w` to both width bounds.
    pub fn add_width(&self, w: u32) -> (r: SizeRequest)
        requires
            self.wf(),
        ensures
            r == self.grown(w as int, 0),
            r.wf(),
    {
        SizeRequest::new(
            sat_add(self.min_width, w),
            self.min_height,
            sat_add(self.max_width, w),
            self.max_height,
        )
    }

    /// Adds `h` to both height bounds.
    pub fn add_height(&self, h: u32) -> (r: SizeRequest)
        requires
            self.wf(),
        ensures
            r == self.grown(0, h as int),
            r.wf(),
    {
        SizeRequest::new(
            self.min_width,
            sat_add(self.min_height, h),
            self.max_width,
            sat_add(self.max_height, h),
        )
    }

    /// Takes `h` from both height bounds, stopping at zero.
    pub fn remove_height(&self, h: u32) -> (r: SizeRequest)
        requires
            self.wf(),
        ensures
            r == self.grown(0, -h),
            r.wf(),
    {
        SizeRequest::new(
            self.min_width,
            sat_sub(self.min_height, h),
            self.max_width,
            sat_sub(self.max_height, h),
        )
    }

    /// The field-by-field maximum of two requests.
    pub fn max(&self, other: &Self) -> (r: SizeRequest)
        requires
            self.wf(),
            other.wf(),
        ensures
            r == self.join(*other),
            r.wf(),
    {
        SizeRequest::new(
            max_len(self.min_width, other.min_width),
            max_len(self.min_height, other.min_height),
            max_len(self.max_width, other.max_width),
            max_len(self.max_height, other.max_height),
        )
    }
}

/// `x` cut into the range of a position.
pub open spec fn sat_pos(x: int) -> int {
    if x < i64::MIN as int {
        i64::MIN as int
    } else if x > i64::MAX as int {
        i64::MAX as int
    } else {
        x
    }
}

/// Adds two positions, saturating at the ends of `i64`.
pub fn pos_add(a: i64, b: i64) -> (r: i64)
    ensures
        r == sat_pos(a + b),
{
    let s = a as i128 + b as i128;
    pos_from_wide(s)
}

/// A wide position cut into the range of `i64`.
pub fn pos_from_wide(s: i128) -> (r: i64)
    ensures
        r == sat_pos(s as int),
{
    if s > i64::MAX as i128 {
        i64::MAX
    } else if s < i64::MIN as i128 {
        i64::MIN
    } else {
        s as i64
    }
}

/// Largest of a sequence of lengths, zero for none.
pub open spec fn seq_max(s: Seq<u32>) -> int
    decreases s.len(),
{
    if s.len() == 0 {
        0
    } else {
        let m = seq_max(s.drop_last());
        if s.last() > m {
            s.last() as int
        } else {
            m
        }
    }
}

/// Alignment of an item inside a larger extent on one axis.
#[derive(Clone, Copy, Debug, PartialEq, Eq)]
pub enum Offset {
    Start,
    Center,
    End,
    Static(i64),
}

impl Offset {
    /// Where an item of `item_size` starts inside `max_size`.
    pub open spec fn offset_spec(&self, max_size: int, item_size: int) -> int {
        match self {
            Offset::Start => 0,
            Offset::Center => (max_size - item_size) / 2,
            Offset::End => max_size - item_size,
            Offset::Static(o) => *o as int,
        }
    }

    /// Where an item of `item_size` starts inside `max_size`; centring rounds down.
    pub fn get(&self, max_size: u32, item_size: u32) -> (r: i64)
        ensures
            r == self.offset_spec(max_size as int, item_size as int),
    {
        match self {
            Offset::Start => 0,
            Offset::Center => {
                let d = max_size as i64 - item_size as i64;
                if d >= 0 {
                    d / 2
                } else {
                    -((1 - d) / 2)
                }
            },
            Offset::End => max_size as i64 - item_size as i64,
            Offset::Static(o) => *o,
        }
    }

    /// The offset when it does not depend on the extent.
    pub fn size(&self) -> (r: Option<i64>)
        ensures
            r == match self {
                Offset::Start => Some(0i64),
                Offset::Center | Offset::End => None,
                Offset::Static(o) => Some(*o),
            },
    {
        match self {
            Offset::Start => Some(0),
            Offset::Center | Offset::End => None,
            Offset::Static(o) => Some(*o),
        }
    }
}

/// How a layout sizes itself on its secondary axis.
///
/// There is no mode that calls a caller-supplied closure: a verified layout
/// cannot call a boxed `Fn` whose behaviour it cannot state, so a custom
/// size is computed by the caller and given as `Static`.
#[derive(Clone, Copy, Debug, PartialEq, Eq)]
pub enum Size {
    /// The largest of the children's bounds.
    Fit,
    /// At least the largest child minimum, and no upper bound.
    Fill,
    /// Exactly the given length.
    Static(u32),
}

impl Size {
    /// The `(min, max)` bounds for an axis whose children have bounds `items`.
    pub open spec fn get_spec(&self, items: Seq<(u32, u32)>) -> (u32, u32) {
        match self {
            Size::Fit => (seq_max(mins(items)) as u32, seq_max(maxs(items)) as u32),
            Size::Fill => (seq_max(mins(items)) as u32, MAX_LEN),
            Size::Static(s) => (*s, *s),
        }
    }

    /// `(min, max)` bounds for the axis, from the children's bounds on it.
    pub fn get(&self, items: Vec<(u32, u32)>) -> (r: (u32, u32))
        requires
            crate::expand::pairs_wf(items@),
        ensures
            r == self.get_spec(items@),
            r.0 <= r.1,
    {
        proof {
            lemma_seq_max_le(items@);
        }
        match self {
            Size::Fit => Size::max(items),
            Size::Fill => {
                let m = Size::max(items);
                (m.0, MAX_LEN)
            },
            Size::Static(s) => (*s, *s),
        }
    }

    /// Field-by-field maximum of the pairs, `(0, 0)` for none.
    pub fn max(items: Vec<(u32, u32)>) -> (r: (u32, u32))
        ensures
            r.0 == seq_max(mins(items@)),
            r.1 == seq_max(maxs(items@)),
    {
        let mut acc: (u32, u32) = (0, 0);
        let mut k: usize = 0;
        while k < items.len()
            invariant
                k <= items.len(),
                acc.0 == seq_max(mins(items@).take(k as int)),
                acc.1 == seq_max(maxs(items@).take(k as int)),
            decreases items.len() - k,
        {
            assert(mins(items@).take(k as int + 1).drop_last() =~= mins(items@).take(k as int));
            assert(maxs(items@).take(k as int + 1).drop_last() =~= maxs(items@).take(k as int));
            acc = (max_len(items[k].0, acc.0), max_len(items[k].1, acc.1));
            k = k + 1;
        }
        assert(mins(items@).take(k as int) =~= mins(items@));
        assert(maxs(items@).take(k as int) =~= maxs(items@));
        acc
    }

    /// Field-by-field sum of the pairs, saturating, `(0, 0)` for none.
    pub fn add(items: Vec<(u32, u32)>) -> (r: (u32, u32))
        ensures
            r.0 == sat(sum_seq(mins(items@))),
            r.1 == sat(sum_seq(maxs(items@))),
    {
        let mut acc: (u32, u32) = (0, 0);
        let mut k: usize = 0;
        while k < items.len()
            invariant
                k <= items.len(),
                acc.0 == sat(sum_seq(mins(items@).take(k as int))),
                acc.1 == sat(sum_seq(maxs(items@).take(k as int))),
            decreases items.len() - k,
        {
            assert(mins(items@).take(k as int + 1).drop_last() =~= mins(items@).take(k as int));
            assert(maxs(items@).take(k as int + 1).drop_last() =~= maxs(items@).take(k as int));
            proof {
                crate::expand::lemma_sum_nonneg(mins(items@).take(k as int));
                crate::expand::lemma_sum_nonneg(maxs(items@).take(k as int));
            }
            acc = (sat_add(acc.0, items[k].0), sat_add(acc.1, items[k].1));
            k = k + 1;
        }
        assert(mins(items@).take(k as int) =~= mins(items@));
        assert(maxs(items@).take(k as int) =~= maxs(items@));
        acc
    }
}

/// The largest minimum is at most the largest maximum, and both fit a length.
pub proof fn lemma_seq_max_le(items: Seq<(u32, u32)>)
    requires
        crate::expand::pairs_wf(items),
    ensures
        0 <= seq_max(mins(items)) <= seq_max(maxs(items)) <= MAX_LEN,
    decreases items.len(),
{
    if items.len() > 0 {
        let d = items.drop_last();
        assert(mins(items).drop_last() =~= mins(d));
        assert(maxs(items).drop_last() =~= maxs(d));
        lemma_seq_max_le(d);
    }
}

/// Padding on the four sides of a layout: `(x start, y start, x end, y end)`.
#[derive(Clone, Copy, Debug, Default, PartialEq, Eq)]
pub struct Padding(pub u32, pub u32, pub u32, pub u32);

impl Padding {
    /// The size left inside the padding.
    pub open spec fn size_spec(&self, size: (u32, u32)) -> (u32, u32) {
        (sat(size.0 - self.0 - self.2) as u32, sat(size.1 - self.1 - self.3) as u32)
    }

    /// A request grown by the padding.
    pub open spec fn request_spec(&self, r: SizeRequest) -> SizeRequest {
        r.grown(sat(self.0 + self.2), sat(self.1 + self.3))
    }

    /// The same padding on every side.
    pub fn new(p: u32) -> (r: Self)
        ensures
            r == Padding(p, p, p, p),
    {
        Padding(p, p, p, p)
    }

    /// The size left inside the padding, never below zero.
    pub fn adjust_size(&self, size: (u32, u32)) -> (r: (u32, u32))
        ensures
            r == self.size_spec(size),
    {
        (sat_sub(sat_sub(size.0, self.0), self.2), sat_sub(sat_sub(size.1, self.1), self.3))
    }

    /// An offset moved past the leading padding.
    pub fn adjust_offset(&self, offset: (i64, i64)) -> (r: (i64, i64))
        ensures
            r == (sat_pos(offset.0 + self.0) as i64, sat_pos(offset.1 + self.1) as i64),
    {
        (pos_add(offset.0, self.0 as i64), pos_add(offset.1, self.1 as i64))
    }

    /// A request grown by the padding on both axes.
    pub fn adjust_request(&self, request: SizeRequest) -> (r: SizeRequest)
        requires
            request.wf(),
        ensures
            r == self.request_spec(request),
            r.wf(),
    {
        request.add(sat_add(self.0, self.2), sat_add(self.1, self.3))
    }
}

/// Which end of its content a scrolled view keeps in place.
#[derive(Clone, Copy, Debug, PartialEq, Eq)]
pub enum ScrollAnchor {
    Start,
    End,
}

/// Clamping a size that a request already produced changes nothing.
pub proof fn lemma_clamp_idempotent(r: SizeRequest, s: (u32, u32))
    requires
        r.wf(),
    ensures
        r.clamp_spec(r.clamp_spec(s)) == r.clamp_spec(s),
{
}

/// Every clamped size lies within the request's bounds on both axes.
pub proof fn lemma_clamp_within_bounds(r: SizeRequest, s: (u32, u32))
    requires
        r.wf(),
    ensures
        r.min_width <= r.clamp_spec(s).0 <= r.max_width,
        r.min_height <= r.clamp_spec(s).1 <= r.max_height,
{
}

} // verus!
