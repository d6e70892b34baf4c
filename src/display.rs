//! Containers that show some of what they hold and keep the rest hidden.
use vstd::prelude::*;

verus! {

/// A layout paired with one item.
#[derive(Debug)]
pub struct Bin<L, D>(pub L, pub D);

impl<L, D> Bin<L, D> {
    pub fn inner(&mut self) -> (r: &mut D)
        ensures
            *r == old(self).1,
            final(self).0 == old(self).0,
            final(self).1 == *final(r),
    {
        &mut self.1
    }

    pub fn layout(&mut self) -> (r: &mut L)
        ensures
            *r == old(self).0,
            final(self).1 == old(self).1,
            final(self).0 == *final(r),
    {
        &mut self.0
    }
}

/// An item that is either shown (first slot) or hidden (second slot).
#[derive(Debug)]
pub struct Opt<D>(pub Option<D>, pub Option<D>);

impl<D> Opt<D> {
    /// Exactly one slot holds the item.
    pub open spec fn wf(&self) -> bool {
        self.0 is Some != self.1 is Some
    }

    /// The item, wherever it is.
    pub open spec fn item(&self) -> D {
        if self.0 is Some {
            self.0->0
        } else {
            self.1->0
        }
    }

    pub fn new(item: D, display: bool) -> (r: Self)
        ensures
            r.wf(),
            r.item() == item,
            r.0 is Some == display,
    {
        if display {
            Opt(Some(item), None)
        } else {
            Opt(None, Some(item))
        }
    }

    /// Shows or hides the item.
    pub fn display(&mut self, display: bool)
        requires
            old(self).wf(),
        ensures
            final(self).wf(),
            final(self).item() == old(self).item(),
            final(self).0 is Some == display,
    {
        if display && self.0.is_none() {
            self.0 = self.1.take();
        } else if !display && self.1.is_none() {
            self.1 = self.0.take();
        }
    }

    /// The item, shown or not.
    pub fn inner(&mut self) -> (r: &mut D)
        requires
            old(self).wf(),
        ensures
            *r == old(self).item(),
            final(self).wf(),
            final(self).0 is Some == old(self).0 is Some,
            final(self).item() == *final(r),
    {
        match &mut self.0 {
            Some(d) => d,
            None => match &mut self.1 {
                Some(d) => d,
                None => vstd::pervasive::unreached(),
            },
        }
    }

    pub fn is_showing(&self) -> (r: bool)
        ensures
            r == self.0 is Some,
    {
        self.0.is_some()
    }
}

/// Two items of which one is shown at a time; the left one at first.
#[derive(Debug)]
pub struct EitherOr<L, R>(pub Opt<L>, pub Opt<R>);

impl<L, R> EitherOr<L, R> {
    /// Both items well formed, exactly one of them shown.
    pub open spec fn wf(&self) -> bool {
        self.0.wf() && self.1.wf() && (self.0.0 is Some != self.1.0 is Some)
    }

    pub fn new(left: L, right: R) -> (r: Self)
        ensures
            r.wf(),
            r.0.item() == left,
            r.1.item() == right,
            r.0.0 is Some,
    {
        EitherOr(Opt::new(left, true), Opt::new(right, false))
    }

    /// Shows the left item and hides the right one, or the other way round.
    pub fn display_left(&mut self, display_left: bool)
        requires
            old(self).wf(),
        ensures
            final(self).wf(),
            final(self).0.item() == old(self).0.item(),
            final(self).1.item() == old(self).1.item(),
            final(self).0.0 is Some == display_left,
    {
        self.0.display(display_left);
        self.1.display(!display_left);
    }

    pub fn left(&mut self) -> (r: &mut L)
        requires
            old(self).wf(),
        ensures
            *r == old(self).0.item(),
            final(self).1 == old(self).1,
            final(self).0.wf(),
            final(self).0.0 is Some == old(self).0.0 is Some,
            final(self).0.item() == *final(r),
    {
        self.0.inner()
    }

    pub fn right(&mut self) -> (r: &mut R)
        requires
            old(self).wf(),
        ensures
            *r == old(self).1.item(),
            final(self).0 == old(self).0,
            final(self).1.wf(),
            final(self).1.0 is Some == old(self).1.0 is Some,
            final(self).1.item() == *final(r),
    {
        self.1.inner()
    }
}

/// Names and items of entries, in order.
pub open spec fn entries<D>(items: Seq<(String, Opt<D>)>) -> Seq<(Seq<char>, D)> {
    Seq::new(items.len(), |i: int| (items[i].0@, items[i].1.item()))
}

/// Names and items of named items, in order.
pub open spec fn named<D>(items: Seq<(String, D)>) -> Seq<(Seq<char>, D)> {
    Seq::new(items.len(), |i: int| (items[i].0@, items[i].1))
}

/// Index of the entry named `k`, or `-1`.
pub open spec fn index_of<D>(m: Seq<(Seq<char>, D)>, k: Seq<char>) -> int
    decreases m.len(),
{
    if m.len() == 0 {
        -1
    } else if m.last().0 == k {
        m.len() - 1
    } else {
        index_of(m.drop_last(), k)
    }
}

/// `m` with `kv` stored under its name: in place if the name is there,
/// at the end otherwise.
pub open spec fn insert<D>(m: Seq<(Seq<char>, D)>, kv: (Seq<char>, D)) -> Seq<(Seq<char>, D)> {
    let j = index_of(m, kv.0);
    if j >= 0 {
        m.update(j, kv)
    } else {
        m.push(kv)
    }
}

/// The named items stored one after another: each name once, where it
/// first came, with the item it came with last.
pub open spec fn collect<D>(s: Seq<(Seq<char>, D)>) -> Seq<(Seq<char>, D)>
    decreases s.len(),
{
    if s.len() == 0 {
        seq![]
    } else {
        insert(collect(s.drop_last()), s.last())
    }
}

proof fn lemma_index_of<D>(m: Seq<(Seq<char>, D)>, k: Seq<char>)
    ensures
        -1 <= index_of(m, k) < m.len(),
        index_of(m, k) >= 0 ==> m[index_of(m, k)].0 == k,
        index_of(m, k) < 0 ==> forall|j: int| 0 <= j < m.len() ==> #[trigger] m[j].0 != k,
    decreases m.len(),
{
    if m.len() > 0 && m.last().0 != k {
        lemma_index_of(m.drop_last(), k);
        assert forall|j: int| 0 <= j < m.len() && index_of(m, k) < 0 implies #[trigger] m[j].0 != k by {
            if j < m.len() - 1 {
                assert(m[j] == m.drop_last()[j]);
            }
        }
    }
}

/// Several items of which the one under the current name is shown.
///
/// The items are kept in a `Vec` in insertion order, each name once: a name
/// that is not found falls back to the first item inserted, which a hash
/// map's iteration order could not give.
#[derive(Debug)]
pub struct Enum<D> {
    pub items: Vec<(String, Opt<D>)>,
    pub current: String,
}

impl<D> Enum<D> {
    /// Every item sits in exactly one slot.
    pub open spec fn wf(&self) -> bool {
        forall|i: int| 0 <= i < self.items@.len() ==> (#[trigger] self.items@[i]).1.wf()
    }

    /// The name `display(name)` settles on: `name` if an item has it, else
    /// the first name.
    pub open spec fn key_for(&self, name: Seq<char>) -> Seq<char> {
        if index_of(entries(self.items@), name) >= 0 {
            name
        } else {
            self.items@[0].0@
        }
    }

    /// The items under their names, the item named `start` shown and all
    /// others hidden.
    pub fn new(items: Vec<(String, D)>, start: String) -> (r: Self)
        ensures
            r.wf(),
            entries(r.items@) == collect(named(items@)),
            forall|i: int|
                0 <= i < r.items@.len() ==> ((#[trigger] r.items@[i]).1.0 is Some <==> r.items@[i].0@
                    == start@),
            r.current@ == start@,
    {
        let ghost s = named(items@);
        let n = items.len();
        let mut input = items;
        let mut out: Vec<(String, Opt<D>)> = Vec::new();
        let mut k: usize = 0;
        while k < n
            invariant
                k <= n,
                n == s.len(),
                named(input@) == s.skip(k as int),
                entries(out@) == collect(s.take(k as int)),
                forall|i: int| 0 <= i < out@.len() ==> (#[trigger] out@[i]).1.wf(),
                forall|i: int|
                    0 <= i < out@.len() ==> ((#[trigger] out@[i]).1.0 is Some <==> out@[i].0@
                        == start@),
            decreases n - k,
        {
            assert(named(input@).len() == input@.len());
            assert(named(input@)[0] == s[k as int]);
            let ghost rest = input@;
            let (name, item) = input.remove(0);
            proof {
                assert(input@ =~= rest.subrange(1, rest.len() as int));
                assert forall|i: int| 0 <= i < input@.len() implies named(input@)[i] == s.skip(
                    k + 1,
                )[i] by {
                    assert(named(rest)[i + 1] == s.skip(k as int)[i + 1]);
                }
                assert(named(input@) =~= s.skip(k + 1));
            }
            let shown = name == start;
            let o = Opt::new(item, shown);
            let ghost m = entries(out@);
            proof {
                lemma_index_of(m, name@);
            }
            let mut found: usize = out.len();
            let mut j: usize = 0;
            while j < out.len()
                invariant
                    j <= out.len(),
                    m == entries(out@),
                    found == if index_of(m.take(j as int), name@) < 0 {
                        out.len() as int
                    } else {
                        index_of(m.take(j as int), name@)
                    },
                decreases out.len() - j,
            {
                assert(m.take(j + 1).drop_last() =~= m.take(j as int));
                if out[j].0 == name {
                    found = j;
                }
                j = j + 1;
            }
            assert(m.take(j as int) =~= m);
            assert(s.take(k + 1).drop_last() =~= s.take(k as int));
            if found < out.len() {
                out.set(found, (name, o));
            } else {
                out.push((name, o));
            }
            assert(entries(out@) =~= insert(m, s[k as int]));
            k = k + 1;
        }
        assert(s.take(k as int) =~= s);
        Enum { items: out, current: start }
    }

    /// Shows only the item named `name`, or the first item if none has that
    /// name, and makes that name the current one.
    pub fn display(&mut self, name: &str)
        requires
            old(self).wf(),
            old(self).items@.len() > 0,
        ensures
            final(self).wf(),
            entries(final(self).items@) == entries(old(self).items@),
            final(self).current@ == old(self).key_for(name@),
            forall|i: int|
                0 <= i < final(self).items@.len() ==> ((#[trigger] final(self).items@[i]).1.0 is Some
                    <==> final(self).items@[i].0@ == old(self).key_for(name@)),
    {
        let target: String = name.to_string();
        proof {
            vstd::string::to_string_from_display_ensures_for_str(name, target);
        }
        let ghost m = entries(self.items@);
        let mut found = false;
        let mut j: usize = 0;
        while j < self.items.len()
            invariant
                j <= self.items@.len(),
                m == entries(self.items@),
                found == (index_of(m.take(j as int), target@) >= 0),
            decreases self.items.len() - j,
        {
            assert(m.take(j + 1).drop_last() =~= m.take(j as int));
            if self.items[j].0 == target {
                found = true;
            }
            j = j + 1;
        }
        assert(m.take(j as int) =~= m);
        let key = if found {
            target
        } else {
            self.items[0].0.clone()
        };
        let ghost before = self.items@;
        let mut j: usize = 0;
        while j < self.items.len()
            invariant
                j <= self.items@.len(),
                self.items@.len() == before.len(),
                key@ == old(self).key_for(name@),
                before == old(self).items@,
                old(self).wf(),
                forall|i: int| 0 <= i < before.len() ==> #[trigger] self.items@[i].0 == before[i].0,
                forall|i: int|
                    0 <= i < before.len() ==> (#[trigger] self.items@[i]).1.wf()
                        && self.items@[i].1.item() == before[i].1.item(),
                forall|i: int| j <= i < before.len() ==> #[trigger] self.items@[i] == before[i],
                forall|i: int|
                    0 <= i < j ==> ((#[trigger] self.items@[i]).1.0 is Some <==> self.items@[i].0@
                        == key@),
            decreases self.items.len() - j,
        {
            let flag = self.items[j].0 == key;
            assert(self.items@[j as int].1.wf());
            self.items[j].1.display(flag);
            j = j + 1;
        }
        assert(entries(self.items@) =~= entries(before));
        self.current = key;
    }

    /// The current name.
    pub fn current(&self) -> (r: String)
        ensures
            r@ == self.current@,
    {
        self.current.clone()
    }

    /// The item under the current name.
    pub fn drawable(&mut self) -> (r: &mut Opt<D>)
        requires
            index_of(entries(old(self).items@), old(self).current@) >= 0,
        ensures
            ({
                let j = index_of(entries(old(self).items@), old(self).current@);
                &&& *r == old(self).items@[j].1
                &&& final(self).current == old(self).current
                &&& final(self).items@ == old(self).items@.update(j, (old(self).items@[j].0, *final(r)))
            }),
    {
        let ghost m = entries(self.items@);
        proof {
            lemma_index_of(m, self.current@);
        }
        let mut found: usize = 0;
        let mut j: usize = 0;
        while j < self.items.len()
            invariant
                j <= self.items@.len(),
                m == entries(self.items@),
                index_of(m, self.current@) >= 0,
                index_of(m.take(j as int), self.current@) >= 0 ==> found == index_of(
                    m.take(j as int),
                    self.current@,
                ),
                index_of(m.take(j as int), self.current@) < 0 ==> found == 0,
            decreases self.items.len() - j,
        {
            assert(m.take(j + 1).drop_last() =~= m.take(j as int));
            if self.items[j].0 == self.current {
                found = j;
            }
            j = j + 1;
        }
        assert(m.take(j as int) =~= m);
        &mut self.items[found].1
    }
}

} // verus!
