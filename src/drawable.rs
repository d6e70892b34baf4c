//! The drawable tree: measuring, placing and painting nodes.
//!
//! Each frame walks the tree three times, each walk consuming the previous
//! one's output: `request_size` gives the request tree, `build` turns a size
//! and that tree into the sized tree, and `draw` turns the sized tree into
//! paint records in paint order.
use vstd::prelude::*;
use crate::layout::{pos_add, pos_from_wide, sat_pos, Area, SizeRequest};
use crate::policy::{all_wf, join_all, Column, DefaultStack, Layout, Row, Stack};
use crate::wrap::Wrap;
use crate::event::{pass_spec, Event};
use crate::emitters::{handle, Handler};
use crate::Request;

verus! {

broadcast use vstd::std_specs::vec::group_vec_axioms;

/// A node's request paired with its children's request trees.
#[derive(Debug)]
pub struct RequestTree(pub SizeRequest, pub Vec<RequestTree>);

/// A node's resolved size paired with each child's offset and sized tree.
#[derive(Debug)]
pub struct SizedTree(pub (u32, u32), pub Vec<((i64, i64), SizedTree)>);

/// A clip rectangle: `(x, y, width bound, height bound)`.
pub type Rect = (i64, i64, i64, i64);

/// One paint record: where the item goes, what clips it, and which item it is.
#[derive(Clone, Copy, Debug, PartialEq, Eq)]
pub struct Paint {
    pub offset: (i64, i64),
    pub bound: Rect,
    pub item: u64,
}

/// The layout policy of a composite node.
#[derive(Clone, Copy, Debug, PartialEq, Eq)]
pub enum Policy {
    Default(DefaultStack),
    Stack(Stack),
    Row(Row),
    Column(Column),
    Wrap(Wrap),
}

impl Policy {
    /// The request the policy makes for children with requests `c`.
    pub open spec fn request_spec(&self, c: Seq<SizeRequest>) -> SizeRequest {
        match self {
            Policy::Default(_) => join_all(c),
            Policy::Stack(s) => s.request_spec(c),
            Policy::Row(r) => r.request_spec(c),
            Policy::Column(col) => col.request_spec(c),
            Policy::Wrap(w) => w.request_spec(c),
        }
    }
}

impl Policy {
    /// `r` is how the policy places children `c` in `size`, leaving the
    /// policy as `after`.
    pub open spec fn builds(&self, size: (u32, u32), c: Seq<SizeRequest>, r: Seq<Area>, after: Policy) -> bool {
        match (*self, after) {
            (Policy::Default(d), Policy::Default(d2)) => d2 == d && r.len() == c.len() && forall|i: int|
                0 <= i < r.len() ==> #[trigger] r[i] == (Area {
                    offset: (0, 0),
                    size: c[i].clamp_spec(size),
                }),
            (Policy::Stack(s), Policy::Stack(s2)) => s2 == s && r.len() == c.len() && forall|i: int|
                0 <= i < r.len() ==> #[trigger] r[i] == s.area_spec(size, c[i]),
            (Policy::Row(w), Policy::Row(w2)) => w2 == w && w.placed(size, c, r),
            (Policy::Column(col), Policy::Column(col2)) => col.placed(size, c, r, col2),
            (Policy::Wrap(w), Policy::Wrap(w2)) => w2 == Wrap(w.0, w.1, w.2, w.3, w.4, size.0)
                && r.len() == c.len() && forall|i: int|
                0 <= i < r.len() ==> #[trigger] r[i] == crate::wrap::area_at(
                    w2,
                    crate::wrap::min_sizes(c),
                    size.0 as int,
                    i,
                ),
            _ => false,
        }
    }
}

impl Layout for Policy {
    fn request_size(&self, children: Vec<SizeRequest>) -> (r: SizeRequest)
        ensures
            r == self.request_spec(children@),
    {
        match self {
            Policy::Default(d) => d.request_size(children),
            Policy::Stack(s) => s.request_size(children),
            Policy::Row(r) => r.request_size(children),
            Policy::Column(c) => c.request_size(children),
            Policy::Wrap(w) => w.request_size(children),
        }
    }

    fn build(&mut self, size: (u32, u32), children: Vec<SizeRequest>) -> (r: Vec<Area>)
        ensures
            old(self).builds(size, children@, r@, *final(self)),
    {
        match self {
            Policy::Default(d) => d.build(size, children),
            Policy::Stack(s) => s.build(size, children),
            Policy::Row(r) => r.build(size, children),
            Policy::Column(c) => c.build(size, children),
            Policy::Wrap(w) => w.build(size, children),
        }
    }
}

/// What a node is on its own, apart from its children.
#[derive(Clone, Copy, Debug, PartialEq, Eq)]
pub enum Content {
    /// A paint item of the given intrinsic size, named by a number.
    Item((u32, u32), u64),
    /// Nothing at all: a zero request, no paint, no children.
    Nothing,
    /// A composite whose children are placed by the policy.
    Layout(Policy),
}

/// A node of the drawable tree. Only composites use their children.
pub struct Node {
    pub content: Content,
    pub handler: Handler,
    pub children: Vec<Node>,
}

/// The request of a node that takes no space.
pub open spec fn zero_request() -> SizeRequest {
    SizeRequest { min_width: 0, min_height: 0, max_width: 0, max_height: 0 }
}

/// The requests at the roots of the request trees.
pub open spec fn tops(rts: Seq<RequestTree>) -> Seq<SizeRequest> {
    Seq::new(rts.len(), |i: int| rts[i].0)
}

/// `rt` is the request tree that `n` measures to.
pub open spec fn mirrors(n: Node, rt: RequestTree) -> bool
    decreases n, 1int,
{
    &&& rt.0.wf()
    &&& match n.content {
        Content::Item(s, _) => rt.0 == (SizeRequest {
            min_width: s.0,
            min_height: s.1,
            max_width: s.0,
            max_height: s.1,
        }) && rt.1@.len() == 0,
        Content::Nothing => rt.0 == zero_request() && rt.1@.len() == 0,
        Content::Layout(p) => rt.0 == p.request_spec(tops(rt.1@)) && mirrors_list(
            n.children@,
            rt.1@,
        ),
    }
}

/// Each node of `cs` measures to the request tree at the same place in `rts`.
pub open spec fn mirrors_list(cs: Seq<Node>, rts: Seq<RequestTree>) -> bool
    decreases cs, 0int,
{
    &&& cs.len() == rts.len()
    &&& cs.len() > 0 ==> mirrors_list(cs.drop_last(), rts.drop_last()) && mirrors(
        cs.last(),
        rts.last(),
    )
}

/// `st` is a sized tree for `rt`: one entry per request subtree, in order,
/// each size within its request's bounds.
pub open spec fn sized_for(rt: RequestTree, st: SizedTree) -> bool
    decreases rt, 1int,
{
    &&& rt.0.clamp_spec(st.0) == st.0
    &&& sized_list(rt.1@, st.1@)
}

/// Each entry of `sts` is a sized tree for the request tree at the same place in `rts`.
pub open spec fn sized_list(rts: Seq<RequestTree>, sts: Seq<((i64, i64), SizedTree)>) -> bool
    decreases rts, 0int,
{
    &&& rts.len() == sts.len()
    &&& rts.len() > 0 ==> sized_list(rts.drop_last(), sts.drop_last()) && sized_for(
        rts.last(),
        sts.last().1,
    )
}

/// How `build` placed node `n`, which it left as `after`: a composite's
/// policy placed the children's requests in the node's own size; each child
/// sits at its area's offset, is sized as its request clamps its area's
/// size, and was built the same way, recursively. Any other node is left as
/// it was.
pub open spec fn built(n: Node, after: Node, rt: RequestTree, st: SizedTree) -> bool
    decreases n, 1int,
{
    match n.content {
        Content::Layout(p) => {
            &&& after.content is Layout
            &&& exists|areas: Seq<Area>| #[trigger]
                p.builds(st.0, tops(rt.1@), areas, after.content->Layout_0) && placed_at(areas, rt, st)
            &&& built_list(n.children@, after.children@, rt.1@, st.1@)
        },
        _ => after == n,
    }
}

/// Child `i` of `st` sits at the offset of `areas[i]`, sized as its request
/// in `rt` clamps the size of `areas[i]`.
pub open spec fn placed_at(areas: Seq<Area>, rt: RequestTree, st: SizedTree) -> bool {
    &&& st.1@.len() == areas.len()
    &&& forall|i: int|
        0 <= i < areas.len() ==> #[trigger] st.1@[i].0 == areas[i].offset && st.1@[i].1.0
            == rt.1@[i].0.clamp_spec(areas[i].size)
}

/// Each node of `cs`, left as the node at the same place in `afters`, was
/// built from the request tree and into the sized tree at that place.
pub open spec fn built_list(
    cs: Seq<Node>,
    afters: Seq<Node>,
    rts: Seq<RequestTree>,
    sts: Seq<((i64, i64), SizedTree)>,
) -> bool
    decreases cs, 0int,
{
    &&& cs.len() == afters.len()
    &&& cs.len() == rts.len()
    &&& cs.len() == sts.len()
    &&& cs.len() > 0 ==> built_list(cs.drop_last(), afters.drop_last(), rts.drop_last(), sts.drop_last())
        && built(cs.last(), afters.last(), rts.last(), sts.last().1)
}

proof fn lemma_mirrors_list_index(cs: Seq<Node>, rts: Seq<RequestTree>, i: int)
    requires
        mirrors_list(cs, rts),
        0 <= i < cs.len(),
    ensures
        mirrors(cs[i], rts[i]),
    decreases cs.len(),
{
    if i < cs.len() - 1 {
        lemma_mirrors_list_index(cs.drop_last(), rts.drop_last(), i);
    }
}

proof fn lemma_mirrors_wf(cs: Seq<Node>, rts: Seq<RequestTree>)
    requires
        mirrors_list(cs, rts),
    ensures
        all_wf(tops(rts)),
{
    assert forall|i: int| 0 <= i < tops(rts).len() implies #[trigger] tops(rts)[i].wf() by {
        lemma_mirrors_list_index(cs, rts, i);
    }
}

/// The child's clip rectangle: the parent's bound intersected with the
/// child's rectangle at `po` of `size`.
pub open spec fn clip(bound: Rect, po: (i64, i64), size: (u32, u32)) -> Rect {
    let x = if bound.0 >= po.0 { bound.0 } else { po.0 };
    let y = if bound.1 >= po.1 { bound.1 } else { po.1 };
    (x, y, span(bound.0, bound.2, po.0, size.0, x), span(bound.1, bound.3, po.1, size.1, y))
}

/// Extent from `start` to the nearer of the two far edges `bs + bl` and
/// `ps + sl`, never below zero.
pub open spec fn span(bs: i64, bl: i64, ps: i64, sl: u32, start: i64) -> i64 {
    let e = if bs + bl <= ps + sl {
        bs + bl
    } else {
        ps + sl
    };
    if e - start > 0 {
        sat_pos(e - start) as i64
    } else {
        0
    }
}

/// The paint records of node `n` drawn from `st` at `off` inside `bound`.
pub open spec fn paints(n: Node, st: SizedTree, off: (i64, i64), bound: Rect) -> Seq<Paint>
    decreases n, 1int,
{
    match n.content {
        Content::Item(_, id) => seq![Paint { offset: off, bound, item: id }],
        Content::Nothing => seq![],
        Content::Layout(_) => paints_list(n.children@, st.1@, off, bound),
    }
}

/// Paint records of children paired with sized subtrees, in order; a child
/// whose clip rectangle has no width or no height is skipped.
pub open spec fn paints_list(
    cs: Seq<Node>,
    sts: Seq<((i64, i64), SizedTree)>,
    off: (i64, i64),
    bound: Rect,
) -> Seq<Paint>
    decreases cs, 0int,
{
    if cs.len() == 0 || sts.len() == 0 {
        seq![]
    } else {
        let o = sts[0].0;
        let po = (sat_pos(off.0 + o.0) as i64, sat_pos(off.1 + o.1) as i64);
        let b = clip(bound, po, sts[0].1.0);
        let part = if b.2 != 0 && b.3 != 0 {
            paints(cs[0], sts[0].1, po, b)
        } else {
            seq![]
        };
        part + paints_list(cs.drop_first(), sts.drop_first(), off, bound)
    }
}

proof fn lemma_sized_list_index(rts: Seq<RequestTree>, sts: Seq<((i64, i64), SizedTree)>, i: int)
    requires
        sized_list(rts, sts),
        0 <= i < rts.len(),
    ensures
        sized_for(rts[i], sts[i].1),
    decreases rts.len(),
{
    if i < rts.len() - 1 {
        lemma_sized_list_index(rts.drop_last(), sts.drop_last(), i);
    }
}

/// A composite's sized tree holds exactly one entry per child, in the
/// children's order: entry `i` is sized for the request tree of child `i`.
pub proof fn lemma_sized_tree_mirrors_children(n: Node, rt: RequestTree, st: SizedTree)
    requires
        n.content is Layout,
        mirrors(n, rt),
        sized_for(rt, st),
    ensures
        st.1@.len() == n.children@.len(),
        forall|i: int|
            0 <= i < n.children@.len() ==> mirrors(n.children@[i], #[trigger] rt.1@[i])
                && sized_for(rt.1@[i], st.1@[i].1),
{
    assert forall|i: int| 0 <= i < n.children@.len() implies mirrors(
        n.children@[i],
        #[trigger] rt.1@[i],
    ) && sized_for(rt.1@[i], st.1@[i].1) by {
        lemma_mirrors_list_index(n.children@, rt.1@, i);
        lemma_sized_list_index(rt.1@, st.1@, i);
    }
}

/// One delivery of an event: the child indices from the node where
/// routing started down to the receiving node, and the event it receives.
#[derive(Clone, Debug, PartialEq, Eq)]
pub struct Delivery {
    pub path: Vec<usize>,
    pub event: Event,
}

/// The paths and events of deliveries.
pub open spec fn delivery_views(ds: Seq<Delivery>) -> Seq<(Seq<usize>, Event)> {
    Seq::new(ds.len(), |i: int| (ds[i].path@, ds[i].event))
}

/// Each child's area, from its offset and its sized subtree's size.
pub open spec fn child_areas(sts: Seq<((i64, i64), SizedTree)>) -> Seq<Area> {
    Seq::new(sts.len(), |i: int| Area { offset: sts[i].0, size: sts[i].1.0 })
}

/// The deliveries with child index `k` put in front of every path.
pub open spec fn prefixed(k: int, ds: Seq<(Seq<usize>, Event)>) -> Seq<(Seq<usize>, Event)> {
    Seq::new(ds.len(), |i: int| (seq![k as usize] + ds[i].0, ds[i].1))
}

/// What routing reads and changes of a node: its content, its handler's
/// state, and the same of its children.
pub struct NodeView {
    pub content: Content,
    pub handler: Handler,
    pub children: Seq<NodeView>,
}

pub open spec fn view_of(n: Node) -> NodeView
    decreases n, 1int,
{
    NodeView { content: n.content, handler: n.handler, children: views_of(n.children@) }
}

/// The views of nodes, in order.
pub open spec fn views_of(cs: Seq<Node>) -> Seq<NodeView>
    decreases cs, 0int,
{
    if cs.len() == 0 {
        seq![]
    } else {
        views_of(cs.drop_last()).push(view_of(cs.last()))
    }
}

proof fn lemma_views_of(cs: Seq<Node>)
    ensures
        views_of(cs).len() == cs.len(),
        forall|i: int| 0 <= i < cs.len() ==> #[trigger] views_of(cs)[i] == view_of(cs[i]),
    decreases cs.len(),
{
    if cs.len() > 0 {
        lemma_views_of(cs.drop_last());
    }
}

/// Routing event `e` into node `v` placed by `st`: the node receives `e`;
/// its handler turns `e` into events, and a composite passes each of them,
/// in order, against its children's areas and routes what each child is
/// handed into that child. Gives the node afterwards, every delivery (the
/// node's own first), and the requests the handlers made, in order.
pub open spec fn route_spec(v: NodeView, st: SizedTree, e: Event, mobile: bool) -> (
    NodeView,
    Seq<(Seq<usize>, Event)>,
    Seq<Request>,
)
    decreases st, 2int, 0int,
{
    let h = handle(v.handler, e, mobile);
    let v1 = NodeView { content: v.content, handler: h.0, children: v.children };
    if v.content is Layout {
        let o = route_events(v1, st, h.1, mobile);
        (o.0, seq![(Seq::<usize>::empty(), e)] + o.1, h.2 + o.2)
    } else {
        (v1, seq![(Seq::<usize>::empty(), e)], h.2)
    }
}

/// Passing the events `evs`, one after another, to the children of `v`.
pub open spec fn route_events(v: NodeView, st: SizedTree, evs: Seq<Event>, mobile: bool) -> (
    NodeView,
    Seq<(Seq<usize>, Event)>,
    Seq<Request>,
)
    decreases st, 1int, evs.len(),
{
    if evs.len() == 0 {
        (v, seq![], seq![])
    } else {
        let o = route_children(v.children, st, pass_spec(evs[0], child_areas(st.1@)), mobile, 0);
        let r = route_events(
            NodeView { content: v.content, handler: v.handler, children: o.0 },
            st,
            evs.drop_first(),
            mobile,
        );
        (r.0, o.1 + r.1, o.2 + r.2)
    }
}

/// Routing what was passed to children `i..` into them, in order; child `j`
/// is placed by entry `j` of the sized tree `st`.
pub open spec fn route_children(
    kids: Seq<NodeView>,
    st: SizedTree,
    passed: Seq<Option<Event>>,
    mobile: bool,
    i: int,
) -> (Seq<NodeView>, Seq<(Seq<usize>, Event)>, Seq<Request>)
    decreases st, 0int, kids.len() - i,
{
    if i < 0 || i >= kids.len() || i >= st.1@.len() || i >= passed.len() {
        (kids, seq![], seq![])
    } else {
        let step = match passed[i] {
            Some(e) => {
                let o = route_spec(kids[i], st.1@[i].1, e, mobile);
                (kids.update(i, o.0), prefixed(i, o.1), o.2)
            },
            None => (kids, seq![], seq![]),
        };
        let r = route_children(step.0, st, passed, mobile, i + 1);
        (r.0, step.1 + r.1, step.2 + r.2)
    }
}

/// Copies `sub` onto the end of `out` with `k` in front of every path.
fn append_prefixed(out: &mut Vec<Delivery>, k: usize, sub: &Vec<Delivery>)
    ensures
        delivery_views(final(out)@) == delivery_views(old(out)@) + prefixed(
            k as int,
            delivery_views(sub@),
        ),
{
    let ghost start = delivery_views(out@);
    let mut j: usize = 0;
    while j < sub.len()
        invariant
            j <= sub.len(),
            delivery_views(out@) =~= start + prefixed(k as int, delivery_views(sub@)).take(j as int),
        decreases sub.len() - j,
    {
        let d = &sub[j];
        let mut path: Vec<usize> = Vec::new();
        path.push(k);
        let mut m: usize = 0;
        while m < d.path.len()
            invariant
                m <= d.path.len(),
                path@ =~= seq![k] + d.path@.take(m as int),
            decreases d.path.len() - m,
        {
            path.push(d.path[m]);
            m = m + 1;
        }
        assert(d.path@.take(m as int) =~= d.path@);
        let ghost before = out@;
        out.push(Delivery { path, event: d.event.duplicate() });
        assert(delivery_views(out@) =~= delivery_views(before).push(
            prefixed(k as int, delivery_views(sub@))[j as int],
        ));
        assert(prefixed(k as int, delivery_views(sub@)).take(j + 1) =~= prefixed(
            k as int,
            delivery_views(sub@),
        ).take(j as int).push(prefixed(k as int, delivery_views(sub@))[j as int]));
        j = j + 1;
    }
    assert(prefixed(k as int, delivery_views(sub@)).take(j as int) =~= prefixed(
        k as int,
        delivery_views(sub@),
    ));
}

fn pos_max(a: i64, b: i64) -> (r: i64)
    ensures
        r == if a >= b { a } else { b },
{
    if a >= b {
        a
    } else {
        b
    }
}

fn span_of(bs: i64, bl: i64, ps: i64, sl: u32, start: i64) -> (r: i64)
    ensures
        r == span(bs, bl, ps, sl, start),
{
    let a = bs as i128 + bl as i128;
    let b = ps as i128 + sl as i128;
    let e = if a <= b {
        a
    } else {
        b
    };
    if e - start as i128 > 0 {
        pos_from_wide(e - start as i128)
    } else {
        0
    }
}

impl Node {
    /// Measures the node: its request and its children's request trees.
    pub fn request_size(&self) -> (r: RequestTree)
        ensures
            mirrors(*self, r),
        decreases self,
    {
        match self.content {
            Content::Item(s, _) => RequestTree(SizeRequest::fixed(s), Vec::new()),
            Content::Nothing => RequestTree(SizeRequest::new(0, 0, 0, 0), Vec::new()),
            Content::Layout(p) => {
                let mut out: Vec<RequestTree> = Vec::new();
                let mut reqs: Vec<SizeRequest> = Vec::new();
                let mut k: usize = 0;
                while k < self.children.len()
                    invariant
                        k <= self.children.len(),
                        mirrors_list(self.children@.take(k as int), out@),
                        reqs@ == tops(out@),
                    decreases self.children.len() - k,
                {
                    proof {
                        assert(decreases_to!(self => self.children));
                        assert(decreases_to!(self.children => self.children@));
                        assert(decreases_to!(self.children@ => self.children@[k as int]));
                    }
                    let t = self.children[k].request_size();
                    let ghost before = out@;
                    reqs.push(t.0);
                    out.push(t);
                    assert(self.children@.take(k + 1).drop_last() =~= self.children@.take(
                        k as int,
                    ));
                    assert(out@.drop_last() =~= before);
                    assert(reqs@ =~= tops(out@));
                    k = k + 1;
                }
                assert(self.children@.take(k as int) =~= self.children@);
                proof {
                    lemma_mirrors_wf(self.children@, out@);
                }
                let own = p.request_size(reqs);
                RequestTree(own, out)
            },
        }
    }

    /// Places the node at `size`: its own size is `size` clamped into its
    /// request, and each child is placed at the area its layout gives it.
    pub fn build(&mut self, size: (u32, u32), request: RequestTree) -> (r: SizedTree)
        requires
            mirrors(*old(self), request),
        ensures
            r.0 == request.0.clamp_spec(size),
            sized_for(request, r),
            final(self).children@.len() == old(self).children@.len(),
            built(*old(self), *final(self), request, r),
    {
        self.build_from(size, &request)
    }

    fn build_from(&mut self, size: (u32, u32), request: &RequestTree) -> (r: SizedTree)
        requires
            mirrors(*old(self), *request),
        ensures
            r.0 == request.0.clamp_spec(size),
            sized_for(*request, r),
            final(self).children@.len() == old(self).children@.len(),
            built(*old(self), *final(self), *request, r),
        decreases request,
    {
        let own = request.0.get(size);
        match &mut self.content {
            Content::Layout(p) => {
                let mut reqs: Vec<SizeRequest> = Vec::new();
                let mut k: usize = 0;
                while k < request.1.len()
                    invariant
                        k <= request.1.len(),
                        reqs@ == tops(request.1@).take(k as int),
                    decreases request.1.len() - k,
                {
                    reqs.push(request.1[k].0);
                    assert(reqs@ =~= tops(request.1@).take(k + 1));
                    k = k + 1;
                }
                assert(reqs@ =~= tops(request.1@));
                proof {
                    lemma_mirrors_wf(self.children@, request.1@);
                }
                let areas = p.build(own, reqs);
                let ghost old_children = self.children@;
                let ghost after = self.content;
                let mut subs: Vec<((i64, i64), SizedTree)> = Vec::new();
                let n = self.children.len();
                let mut k: usize = 0;
                while k < n
                    invariant
                        k <= n,
                        n == old_children.len(),
                        n == request.1@.len(),
                        n == areas.len(),
                        mirrors_list(old_children, request.1@),
                        self.children@.len() == n,
                        forall|j: int| k <= j < n ==> self.children@[j] == old_children[j],
                        sized_list(request.1@.take(k as int), subs@),
                        old_children == old(self).children@,
                        self.content == after,
                        subs.len() == k,
                        forall|i: int|
                            0 <= i < k ==> #[trigger] subs@[i].0 == areas@[i].offset && subs@[i].1.0
                                == request.1@[i].0.clamp_spec(areas@[i].size),
                        built_list(
                            old_children.take(k as int),
                            self.children@.take(k as int),
                            request.1@.take(k as int),
                            subs@,
                        ),
                    decreases n - k,
                {
                    proof {
                        lemma_mirrors_list_index(old_children, request.1@, k as int);
                        assert(decreases_to!(request => request.1));
                        assert(decreases_to!(request.1 => request.1@));
                        assert(decreases_to!(request.1@ => request.1@[k as int]));
                    }
                    let ghost before_c = self.children@;
                    let child = self.children[k].build_from(areas[k].size, &request.1[k]);
                    let ghost before = subs@;
                    subs.push((areas[k].offset, child));
                    assert(request.1@.take(k + 1).drop_last() =~= request.1@.take(k as int));
                    assert(old_children.take(k + 1).drop_last() =~= old_children.take(k as int));
                    assert(self.children@.take(k + 1).drop_last() =~= before_c.take(k as int));
                    assert(self.children@.take(k as int) =~= before_c.take(k as int));
                    assert(subs@.drop_last() =~= before);
                    k = k + 1;
                }
                assert(request.1@.take(k as int) =~= request.1@);
                assert(old_children.take(k as int) =~= old_children);
                assert(self.children@.take(k as int) =~= self.children@);
                proof {
                    crate::layout::lemma_clamp_idempotent(request.0, size);
                }
                let r = SizedTree(own, subs);
                assert(old(self).content matches Content::Layout(q) && q.builds(
                    r.0,
                    tops(request.1@),
                    areas@,
                    after->Layout_0,
                ));
                assert(placed_at(areas@, *request, r));
                r
            },
            _ => {
                proof {
                    crate::layout::lemma_clamp_idempotent(request.0, size);
                }
                SizedTree(own, Vec::new())
            },
        }
    }

    /// Paint records for the node drawn from `sized` at offset `offset`,
    /// clipped to `bound`: one per item, in paint order. Children are paired
    /// with the sized subtrees in order, as far as both go.
    pub fn draw(&self, sized: &SizedTree, offset: (i64, i64), bound: Rect) -> (r: Vec<Paint>)
        ensures
            r@ == paints(*self, *sized, offset, bound),
        decreases self,
    {
        match self.content {
            Content::Item(_, id) => {
                let mut r: Vec<Paint> = Vec::new();
                r.push(Paint { offset, bound, item: id });
                assert(r@ =~= seq![Paint { offset: offset, bound: bound, item: id }]);
                r
            },
            Content::Nothing => {
                let r: Vec<Paint> = Vec::new();
                assert(r@ =~= seq![]);
                r
            },
            Content::Layout(_) => {
                let ghost cs = self.children@;
                let ghost sts = sized.1@;
                let mut out: Vec<Paint> = Vec::new();
                let n = if self.children.len() <= sized.1.len() {
                    self.children.len()
                } else {
                    sized.1.len()
                };
                let mut k: usize = 0;
                assert(cs.skip(0) =~= cs);
                assert(sts.skip(0) =~= sts);
                assert(out@ + paints_list(cs, sts, offset, bound) =~= paints_list(cs, sts, offset, bound));
                while k < n
                    invariant
                        k <= n,
                        n <= cs.len(),
                        n <= sts.len(),
                        n == cs.len() || n == sts.len(),
                        cs == self.children@,
                        sts == sized.1@,
                        out@ + paints_list(cs.skip(k as int), sts.skip(k as int), offset, bound)
                            == paints_list(cs, sts, offset, bound),
                    decreases n - k,
                {
                    proof {
                        assert(decreases_to!(self => self.children));
                        assert(decreases_to!(self.children => self.children@));
                        assert(decreases_to!(self.children@ => self.children@[k as int]));
                        assert(cs.skip(k as int)[0] == cs[k as int]);
                        assert(sts.skip(k as int)[0] == sts[k as int]);
                        assert(cs.skip(k as int).drop_first() =~= cs.skip(k + 1));
                        assert(sts.skip(k as int).drop_first() =~= sts.skip(k + 1));
                    }
                    let o = sized.1[k].0;
                    let branch = &sized.1[k].1;
                    let po = (pos_add(offset.0, o.0), pos_add(offset.1, o.1));
                    let b = (
                        pos_max(bound.0, po.0),
                        pos_max(bound.1, po.1),
                        span_of(bound.0, bound.2, po.0, branch.0.0, pos_max(bound.0, po.0)),
                        span_of(bound.1, bound.3, po.1, branch.0.1, pos_max(bound.1, po.1)),
                    );
                    let ghost before = out@;
                    if b.2 != 0 && b.3 != 0 {
                        let mut part = self.children[k].draw(branch, po, b);
                        out.append(&mut part);
                    }
                    assert(out@ + paints_list(cs.skip(k + 1), sts.skip(k + 1), offset, bound)
                        =~= before + paints_list(cs.skip(k as int), sts.skip(k as int), offset, bound));
                    k = k + 1;
                }
                assert(paints_list(cs.skip(k as int), sts.skip(k as int), offset, bound) =~= seq![]);
                assert(out@ + seq![] =~= out@);
                out
            },
        }
    }

    /// Routes `event` through the node placed by `sized`: the node receives
    /// it and its handler translates it; a composite then passes each
    /// resulting event against its children's areas, and each child that is
    /// handed an event receives it in turn, recursively. Gives every
    /// delivery and the requests the handlers made.
    pub fn route(&mut self, sized: &SizedTree, event: Event, mobile: bool) -> (r: (
        Vec<Delivery>,
        Vec<Request>,
    ))
        ensures
            (view_of(*final(self)), delivery_views(r.0@), r.1@) == route_spec(
                view_of(*old(self)),
                *sized,
                event,
                mobile,
            ),
        decreases sized,
    {
        let (evs, mut reqs) = self.handler.on_event(event.duplicate(), mobile);
        let mut out: Vec<Delivery> = Vec::new();
        out.push(Delivery { path: Vec::new(), event });
        assert(delivery_views(out@) =~= seq![(Seq::<usize>::empty(), event)]);
        match self.content {
            Content::Layout(_) => {
                let ghost sts = sized.1@;
                let mut areas: Vec<Area> = Vec::new();
                let mut k: usize = 0;
                while k < sized.1.len()
                    invariant
                        k <= sized.1.len(),
                        sts == sized.1@,
                        areas@ =~= child_areas(sts).take(k as int),
                    decreases sized.1.len() - k,
                {
                    areas.push(Area { offset: sized.1[k].0, size: sized.1[k].1.0 });
                    k = k + 1;
                }
                assert(areas@ =~= child_areas(sts));
                let ghost v1 = view_of(*self);
                let ghost target = route_events(v1, *sized, evs@, mobile);
                let ghost head_d = delivery_views(out@);
                let ghost head_q = reqs@;
                let ghost content = self.content;
                assert(evs@.skip(0) =~= evs@);
                assert(head_d + target.1 =~= delivery_views(out@) + target.1);
                assert(head_q + target.2 =~= reqs@ + target.2);
                let mut j: usize = 0;
                while j < evs.len()
                    invariant
                        j <= evs.len(),
                        sts == sized.1@,
                        areas@ == child_areas(sts),
                        self.content == content,
                        content is Layout,
                        target == route_events(v1, *sized, evs@, mobile),
                        route_events(view_of(*self), *sized, evs@.skip(j as int), mobile).0
                            == target.0,
                        delivery_views(out@) + route_events(
                            view_of(*self),
                            *sized,
                            evs@.skip(j as int),
                            mobile,
                        ).1 == head_d + target.1,
                        reqs@ + route_events(view_of(*self), *sized, evs@.skip(j as int), mobile).2
                            == head_q + target.2,
                    decreases evs.len() - j,
                {
                    let passed = evs[j].duplicate().pass(&areas);
                    let ghost vj = view_of(*self);
                    let ghost pz = passed@;
                    let ghost kt = route_children(vj.children, *sized, pz, mobile, 0);
                    let ghost dj = delivery_views(out@);
                    let ghost qj = reqs@;
                    proof {
                        lemma_views_of(self.children@);
                        assert(evs@.skip(j as int)[0] == evs@[j as int]);
                        assert(evs@.skip(j as int).drop_first() =~= evs@.skip(j + 1));
                        assert(dj + kt.1 =~= delivery_views(out@) + kt.1);
                        assert(qj + kt.2 =~= reqs@ + kt.2);
                    }
                    let n = if self.children.len() <= sized.1.len() {
                        self.children.len()
                    } else {
                        sized.1.len()
                    };
                    let mut i: usize = 0;
                    while i < n
                        invariant
                            i <= n,
                            n <= self.children@.len(),
                            n <= sts.len(),
                            n == self.children@.len() || n == sts.len(),
                            sts == sized.1@,
                            pz == passed@,
                            pz.len() == sts.len(),
                            self.content == vj.content,
                            self.handler == vj.handler,
                            kt == route_children(vj.children, *sized, pz, mobile, 0),
                            route_children(views_of(self.children@), *sized, pz, mobile, i as int).0
                                == kt.0,
                            delivery_views(out@) + route_children(
                                views_of(self.children@),
                                *sized,
                                pz,
                                mobile,
                                i as int,
                            ).1 == dj + kt.1,
                            reqs@ + route_children(
                                views_of(self.children@),
                                *sized,
                                pz,
                                mobile,
                                i as int,
                            ).2 == qj + kt.2,
                        decreases n - i,
                    {
                        let ghost before_c = self.children@;
                        let ghost before_d = delivery_views(out@);
                        let ghost before_q = reqs@;
                        proof {
                            lemma_views_of(before_c);
                        }
                        match &passed[i] {
                            Some(e) => {
                                let (sub, mut q) = self.children[i].route(
                                    &sized.1[i].1,
                                    e.duplicate(),
                                    mobile,
                                );
                                append_prefixed(&mut out, i, &sub);
                                reqs.append(&mut q);
                                proof {
                                    lemma_views_of(self.children@);
                                    assert(views_of(self.children@) =~= views_of(before_c).update(
                                        i as int,
                                        view_of(self.children@[i as int]),
                                    ));
                                }
                            },
                            None => {},
                        }
                        let ghost rest = route_children(
                            views_of(self.children@),
                            *sized,
                            pz,
                            mobile,
                            i + 1,
                        );
                        assert(delivery_views(out@) + rest.1 =~= before_d + route_children(
                            views_of(before_c),
                            *sized,
                            pz,
                            mobile,
                            i as int,
                        ).1);
                        assert(reqs@ + rest.2 =~= before_q + route_children(
                            views_of(before_c),
                            *sized,
                            pz,
                            mobile,
                            i as int,
                        ).2);
                        i = i + 1;
                    }
                    proof {
                        lemma_views_of(self.children@);
                        let kids = views_of(self.children@);
                        assert(route_children(kids, *sized, pz, mobile, i as int) == (
                            kids,
                            Seq::<(Seq<usize>, Event)>::empty(),
                            Seq::<Request>::empty(),
                        ));
                        assert(view_of(*self) == NodeView {
                            content: vj.content,
                            handler: vj.handler,
                            children: kt.0,
                        });
                        assert(delivery_views(out@) + seq![] =~= delivery_views(out@));
                        assert(reqs@ + seq![] =~= reqs@);
                    }
                    let ghost rest2 = route_events(view_of(*self), *sized, evs@.skip(j + 1), mobile);
                    assert(delivery_views(out@) + rest2.1 =~= dj + route_events(
                        vj,
                        *sized,
                        evs@.skip(j as int),
                        mobile,
                    ).1);
                    assert(reqs@ + rest2.2 =~= qj + route_events(
                        vj,
                        *sized,
                        evs@.skip(j as int),
                        mobile,
                    ).2);
                    j = j + 1;
                }
                proof {
                    assert(evs@.skip(j as int) =~= Seq::<Event>::empty());
                    assert(delivery_views(out@) + seq![] =~= delivery_views(out@));
                    assert(reqs@ + seq![] =~= reqs@);
                }
                (out, reqs)
            },
            _ => {
                assert(reqs@ =~= handle(view_of(*old(self)).handler, event, mobile).2);
                (out, reqs)
            },
        }
    }

}

} // verus!
