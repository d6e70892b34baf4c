//! The flexible-space solver: shares spare extent among items that can grow,
//! raising the smallest growable items first.
use vstd::prelude::*;
use crate::layout::min_len;

verus! {

/// Sum of a sequence of lengths.
pub open spec fn sum_seq(s: Seq<u32>) -> int
    decreases s.len(),
{
    if s.len() == 0 {
        0
    } else {
        sum_seq(s.drop_last()) + s.last()
    }
}

/// The minimums of `(min, max)` pairs.
pub open spec fn mins(s: Seq<(u32, u32)>) -> Seq<u32> {
    Seq::new(s.len(), |i: int| s[i].0)
}

/// The maximums of `(min, max)` pairs.
pub open spec fn maxs(s: Seq<(u32, u32)>) -> Seq<u32> {
    Seq::new(s.len(), |i: int| s[i].1)
}

/// Total spacing between `n` items.
pub open spec fn gaps(n: int, spacing: int) -> int {
    if n <= 0 {
        0
    } else {
        (n - 1) * spacing
    }
}

/// Extent left over once every item has its minimum and the gaps are paid.
pub open spec fn room(s: Seq<(u32, u32)>, available: int, spacing: int) -> int {
    available - sum_seq(mins(s)) - gaps(s.len() as int, spacing)
}

/// Every pair has its minimum at most its maximum.
pub open spec fn pairs_wf(s: Seq<(u32, u32)>) -> bool {
    forall|i: int| 0 <= i < s.len() ==> #[trigger] s[i].0 <= s[i].1
}

/// One length per pair, each within its pair's bounds.
pub open spec fn within(cur: Seq<u32>, s: Seq<(u32, u32)>) -> bool {
    &&& cur.len() == s.len()
    &&& forall|i: int| 0 <= i < s.len() ==> s[i].0 <= #[trigger] cur[i] <= s[i].1
}

/// No item that grew stands more than `slack` above an item that can still grow.
pub open spec fn fair(cur: Seq<u32>, s: Seq<(u32, u32)>, slack: int) -> bool {
    forall|i: int, j: int|
        0 <= i < s.len() && 0 <= j < s.len() && #[trigger] cur[j] > s[j].0 && #[trigger] cur[i]
            < s[i].1 ==> cur[i] + slack >= cur[j]
}

/// An item that can still grow stands no lower than any later item that grew:
/// leftover units go to the earliest items.
pub open spec fn ordered(cur: Seq<u32>, s: Seq<(u32, u32)>) -> bool {
    forall|i: int, j: int|
        0 <= i < j < s.len() && #[trigger] cur[j] > s[j].0 && #[trigger] cur[i] < s[i].1 ==> cur[i]
            >= cur[j]
}

/// Item `i` stands at `m` and can still grow.
pub open spec fn in_group(cur: Seq<u32>, s: Seq<(u32, u32)>, m: int, i: int) -> bool {
    cur[i] == m && cur[i] < s[i].1
}

/// How many of the first `k` items stand at `m` and can still grow.
pub open spec fn group_count(cur: Seq<u32>, s: Seq<(u32, u32)>, m: int, k: int) -> int
    decreases k,
{
    if k <= 0 {
        0
    } else {
        group_count(cur, s, m, k - 1) + if in_group(cur, s, m, k - 1) {
            1int
        } else {
            0int
        }
    }
}

proof fn lemma_group_count_mono(cur: Seq<u32>, s: Seq<(u32, u32)>, m: int, a: int, b: int)
    requires
        0 <= a <= b,
    ensures
        group_count(cur, s, m, a) <= group_count(cur, s, m, b),
    decreases b - a,
{
    if a < b {
        lemma_group_count_mono(cur, s, m, a, b - 1);
    }
}

proof fn lemma_group_count_member(cur: Seq<u32>, s: Seq<(u32, u32)>, m: int, w: int, k: int)
    requires
        0 <= w < k,
        in_group(cur, s, m, w),
    ensures
        group_count(cur, s, m, k) >= 1,
    decreases k,
{
    if w < k - 1 {
        lemma_group_count_member(cur, s, m, w, k - 1);
    } else {
        lemma_group_count_mono(cur, s, m, 0, k - 1);
    }
}

proof fn lemma_sum_update(s: Seq<u32>, k: int, v: u32)
    requires
        0 <= k < s.len(),
    ensures
        sum_seq(s.update(k, v)) == sum_seq(s) - s[k] + v,
    decreases s.len(),
{
    let t = s.update(k, v);
    if k == s.len() - 1 {
        assert(t.drop_last() =~= s.drop_last());
    } else {
        assert(t.drop_last() =~= s.drop_last().update(k, v));
        lemma_sum_update(s.drop_last(), k, v);
    }
}

/// A sum of lengths is never negative.
pub proof fn lemma_sum_nonneg(s: Seq<u32>)
    ensures
        sum_seq(s) >= 0,
{
    lemma_sum_bound(s);
}

/// A sum of lengths is at most the count times the largest length.
pub proof fn lemma_sum_bound(s: Seq<u32>)
    ensures
        0 <= sum_seq(s) <= s.len() * 4294967295,
    decreases s.len(),
{
    if s.len() > 0 {
        lemma_sum_bound(s.drop_last());
    }
}

/// Pointwise smaller lengths have a smaller sum.
pub proof fn lemma_sum_le(a: Seq<u32>, b: Seq<u32>)
    requires
        a.len() == b.len(),
        forall|i: int| 0 <= i < a.len() ==> a[i] <= b[i],
    ensures
        sum_seq(a) <= sum_seq(b),
    decreases a.len(),
{
    if a.len() > 0 {
        lemma_sum_le(a.drop_last(), b.drop_last());
    }
}

proof fn lemma_mul_le(a: int, b: int, c: int)
    requires
        0 <= a,
        b <= c,
    ensures
        a * b <= a * c,
{
    assert(a * b <= a * c) by (nonlinear_arith)
        requires
            0 <= a,
            b <= c,
    ;
}

proof fn lemma_step_fits(step: int, count: int, free: int)
    requires
        0 <= step <= free / count,
        count > 0,
        free >= 0,
    ensures
        step * count <= free,
{
    assert(step * count <= free) by (nonlinear_arith)
        requires
            0 <= step <= free / count,
            count > 0,
            free >= 0,
    {
        vstd::arithmetic::div_mod::lemma_fundamental_div_mod(free, count);
        vstd::arithmetic::mul::lemma_mul_inequality(step, free / count, count);
    }
}

proof fn lemma_quotient(free: int, count: int)
    requires
        free >= 0,
        count > 0,
    ensures
        0 <= free / count <= free,
        free / count == 0 ==> free < count,
{
    vstd::arithmetic::div_mod::lemma_fundamental_div_mod(free, count);
    vstd::arithmetic::div_mod::lemma_mod_pos_bound(free, count);
    vstd::arithmetic::div_mod::lemma_div_pos_is_pos(free, count);
    vstd::arithmetic::div_mod::lemma_div_is_ordered_by_denominator(free, 1, count);
    vstd::arithmetic::div_mod::lemma_div_basics(free);
    let q = free / count;
    let r = free % count;
    if q == 0 {
        assert(free == r);
    }
}

proof fn lemma_fair_weaken(cur: Seq<u32>, s: Seq<(u32, u32)>)
    requires
        fair(cur, s, 0),
    ensures
        fair(cur, s, 1),
{
}

/// After the smallest growable group rose by `step`, the items stay within
/// their bounds and no grown item stands above an item that can still grow.
proof fn lemma_after_step(old_cur: Seq<u32>, cur: Seq<u32>, s: Seq<(u32, u32)>, m: int, step: int)
    requires
        within(old_cur, s),
        fair(old_cur, s, 0),
        cur.len() == s.len(),
        step >= 1,
        forall|j: int| 0 <= j < s.len() && old_cur[j] < s[j].1 ==> m <= old_cur[j],
        forall|j: int| 0 <= j < s.len() && in_group(old_cur, s, m, j) ==> step <= s[j].1 - m,
        forall|j: int|
            0 <= j < s.len() && old_cur[j] < s[j].1 && old_cur[j] > m ==> step <= old_cur[j] - m,
        forall|j: int|
            0 <= j < s.len() ==> #[trigger] cur[j] == if in_group(old_cur, s, m, j) {
                old_cur[j] + step
            } else {
                old_cur[j] as int
            },
    ensures
        within(cur, s),
        fair(cur, s, 0),
        fair(cur, s, 1),
        ordered(cur, s),
{
    assert forall|i: int, j: int|
        0 <= i < s.len() && 0 <= j < s.len() && #[trigger] cur[j] > s[j].0 && #[trigger] cur[i]
            < s[i].1 implies cur[i] >= cur[j] by {
        assert(old_cur[i] < s[i].1);
        if in_group(old_cur, s, m, j) {
            if !in_group(old_cur, s, m, i) {
                assert(old_cur[i] > m);
            }
        } else {
            assert(old_cur[j] > s[j].0);
        }
    }
    lemma_fair_weaken(cur, s);
}

/// After the last units went one each to members of the smallest growable
/// group, no grown item stands more than one unit above a growable one.
proof fn lemma_after_remainder(old_cur: Seq<u32>, cur: Seq<u32>, s: Seq<(u32, u32)>, m: int, cut: int)
    requires
        within(old_cur, s),
        fair(old_cur, s, 0),
        cur.len() == s.len(),
        forall|j: int| 0 <= j < s.len() && old_cur[j] < s[j].1 ==> m <= old_cur[j],
        forall|j: int|
            0 <= j < s.len() ==> (#[trigger] cur[j] == old_cur[j] || (cur[j] == old_cur[j] + 1
                && in_group(old_cur, s, m, j))),
        forall|j: int|
            0 <= j < s.len() ==> (#[trigger] cur[j] == old_cur[j] + 1 <==> (in_group(old_cur, s, m, j)
                && j < cut)),
    ensures
        within(cur, s),
        fair(cur, s, 1),
        ordered(cur, s),
{
    assert forall|i: int, j: int|
        0 <= i < j < s.len() && #[trigger] cur[j] > s[j].0 && #[trigger] cur[i] < s[i].1 implies cur[i]
            >= cur[j] by {
        assert(old_cur[i] < s[i].1);
        if cur[j] == old_cur[j] + 1 {
            if in_group(old_cur, s, m, i) {
                assert(cur[i] == old_cur[i] + 1);
            }
        } else {
            assert(old_cur[j] > s[j].0);
        }
    }
    assert forall|i: int, j: int|
        0 <= i < s.len() && 0 <= j < s.len() && #[trigger] cur[j] > s[j].0 && #[trigger] cur[i]
            < s[i].1 implies cur[i] + 1 >= cur[j] by {
        assert(old_cur[i] < s[i].1);
        if cur[j] != old_cur[j] {
        } else {
            assert(old_cur[j] > s[j].0);
        }
    }
}

/// Sum of the minimums of the pairs, as a wide integer.
pub(crate) fn sum_of_mins(sizes: &Vec<(u32, u32)>) -> (r: u128)
    ensures
        r == sum_seq(mins(sizes@)),
{
    let mut acc: u128 = 0;
    let mut k: usize = 0;
    while k < sizes.len()
        invariant
            k <= sizes.len(),
            acc == sum_seq(mins(sizes@).take(k as int)),
        decreases sizes.len() - k,
    {
        proof {
            let t = mins(sizes@).take(k as int + 1);
            assert(t.drop_last() =~= mins(sizes@).take(k as int));
            lemma_sum_bound(mins(sizes@).take(k as int));
            assert(k * 4294967295 <= 18446744073709551615u128 * 4294967295) by (nonlinear_arith)
                requires
                    k <= 18446744073709551615u128,
            ;
        }
        acc = acc + sizes[k].0 as u128;
        k = k + 1;
    }
    assert(mins(sizes@).take(k as int) =~= mins(sizes@));
    acc
}

/// `r` shares `available` among the items as the flexible-space solver does:
/// each item within its bounds; every item at its minimum when nothing is
/// spare; otherwise the spare extent used up as far as the maximums allow;
/// no item that grew more than one unit above an item that can still grow;
/// and leftover units going to the earliest items. These fix the result
/// (`lemma_distribution_unique`).
pub open spec fn distributes(r: Seq<u32>, s: Seq<(u32, u32)>, available: int, spacing: int) -> bool {
    &&& within(r, s)
    &&& room(s, available, spacing) <= 0 ==> r == mins(s)
    &&& room(s, available, spacing) > 0 ==> sum_seq(r) == sum_seq(mins(s)) + if room(
        s,
        available,
        spacing,
    ) <= sum_seq(maxs(s)) - sum_seq(mins(s)) {
        room(s, available, spacing)
    } else {
        sum_seq(maxs(s)) - sum_seq(mins(s))
    }
    &&& fair(r, s, 1)
    &&& ordered(r, s)
}

proof fn lemma_sum_lt(a: Seq<u32>, b: Seq<u32>, k: int)
    requires
        a.len() == b.len(),
        forall|i: int| 0 <= i < a.len() ==> a[i] <= b[i],
        0 <= k < a.len(),
        a[k] < b[k],
    ensures
        sum_seq(a) < sum_seq(b),
    decreases a.len(),
{
    if k < a.len() - 1 {
        lemma_sum_lt(a.drop_last(), b.drop_last(), k);
    } else {
        lemma_sum_le(a.drop_last(), b.drop_last());
    }
}

/// Two fair, ordered distributions over the same items never differ in
/// opposite directions: if `r` is below `q` somewhere, it is nowhere above.
proof fn lemma_no_crossing(r: Seq<u32>, q: Seq<u32>, s: Seq<(u32, u32)>, i: int)
    requires
        within(r, s),
        within(q, s),
        fair(r, s, 1),
        fair(q, s, 1),
        ordered(r, s),
        ordered(q, s),
        0 <= i < s.len(),
        r[i] < q[i],
    ensures
        forall|j: int| 0 <= j < s.len() ==> #[trigger] r[j] <= q[j],
{
    assert forall|j: int| 0 <= j < s.len() implies #[trigger] r[j] <= q[j] by {
        if r[j] > q[j] {
            assert(r[i] < s[i].1 && q[i] > s[i].0);
            assert(r[j] > s[j].0 && q[j] < s[j].1);
            if i < j {
                assert(r[i] >= r[j]);
                assert(q[j] + 1 >= q[i]);
            } else {
                assert(q[j] >= q[i]);
                assert(r[i] + 1 >= r[j]);
            }
        }
    }
}

/// The solver's contract fixes its result: two distributions of the same
/// items over the same extent are equal.
pub proof fn lemma_distribution_unique(
    r: Seq<u32>,
    q: Seq<u32>,
    s: Seq<(u32, u32)>,
    available: int,
    spacing: int,
)
    requires
        distributes(r, s, available, spacing),
        distributes(q, s, available, spacing),
    ensures
        r == q,
{
    if room(s, available, spacing) > 0 {
        assert forall|i: int| 0 <= i < s.len() implies r[i] == q[i] by {
            if r[i] < q[i] {
                lemma_no_crossing(r, q, s, i);
                lemma_sum_lt(r, q, i);
            } else if q[i] < r[i] {
                lemma_no_crossing(q, r, s, i);
                lemma_sum_lt(q, r, i);
            }
        }
        assert(r =~= q);
    }
}

/// More available extent never shrinks an item.
pub proof fn lemma_distribution_monotone(
    r: Seq<u32>,
    q: Seq<u32>,
    s: Seq<(u32, u32)>,
    a1: int,
    a2: int,
    spacing: int,
)
    requires
        distributes(r, s, a1, spacing),
        distributes(q, s, a2, spacing),
        a1 <= a2,
    ensures
        forall|i: int| 0 <= i < s.len() ==> #[trigger] r[i] <= q[i],
{
    if room(s, a1, spacing) > 0 {
        assert forall|i: int| 0 <= i < s.len() implies #[trigger] r[i] <= q[i] by {
            if q[i] < r[i] {
                lemma_no_crossing(q, r, s, i);
                lemma_sum_lt(q, r, i);
            }
        }
    } else {
        assert forall|i: int| 0 <= i < s.len() implies #[trigger] r[i] <= q[i] by {
            assert(r[i] == mins(s)[i]);
        }
    }
}

/// Flexible-space solver over `(min, max)` pairs on one axis.
pub struct UniformExpand;

impl UniformExpand {
    /// One length per item, each within its own `[min, max]`.
    ///
    /// With no spare extent every item keeps its minimum. Otherwise the
    /// spare extent is handed out, smallest growable items first, until it
    /// runs out or every item is at its maximum; items that grew end up
    /// within one unit of every item that could still grow, and units that
    /// cannot be shared equally go to the earliest items.
    pub fn get(sizes: Vec<(u32, u32)>, max_size: u32, spacing: u32) -> (r: Vec<u32>)
        requires
            pairs_wf(sizes@),
        ensures
            distributes(r@, sizes@, max_size as int, spacing as int),
            room(sizes@, max_size as int, spacing as int) >= 0 ==> sum_seq(r@) + gaps(
                sizes.len() as int,
                spacing as int,
            ) <= max_size,
    {
        let n = sizes.len();
        let ghost s = sizes@;
        let total_min = sum_of_mins(&sizes);
        let total_gaps: u128 = if n == 0 {
            0
        } else {
            proof {
                assert((n - 1) * spacing <= 18446744073709551615u128 * 4294967295) by (
                nonlinear_arith)
                    requires
                        n <= 18446744073709551615u128,
                        spacing <= 4294967295u128,
                ;
            }
            (n - 1) as u128 * spacing as u128
        };
        proof {
            lemma_sum_bound(mins(s));
        }
        let mut free: u32 = if (max_size as u128) > total_min + total_gaps {
            (max_size as u128 - total_min - total_gaps) as u32
        } else {
            0
        };
        let ghost free0 = free;
        let mut cur: Vec<u32> = Vec::new();
        let mut k: usize = 0;
        while k < n
            invariant
                k <= n,
                n == s.len(),
                s == sizes@,
                cur@ =~= mins(s).take(k as int),
            decreases n - k,
        {
            cur.push(sizes[k].0);
            k = k + 1;
        }
        assert(cur@ =~= mins(s));
        let mut stuck = false;
        while free > 0 && !stuck
            invariant
                n == s.len(),
                s == sizes@,
                pairs_wf(s),
                within(cur@, s),
                free <= free0,
                sum_seq(cur@) + free == sum_seq(mins(s)) + free0,
                free > 0 ==> fair(cur@, s, 0),
                fair(cur@, s, 1),
                ordered(cur@, s),
                stuck ==> cur@ =~= maxs(s),
                free0 == 0 ==> cur@ == mins(s),
            decreases free, if stuck { 0int } else { 1int },
        {
            // Smallest length among the items that can still grow.
            let mut found = false;
            let mut m: u32 = 0;
            let ghost mut w: int = 0;
            let mut k: usize = 0;
            while k < n
                invariant
                    k <= n,
                    n == s.len(),
                    s == sizes@,
                    cur@.len() == n,
                    found ==> 0 <= w < k && in_group(cur@, s, m as int, w),
                    found ==> forall|j: int| 0 <= j < k && cur@[j] < s[j].1 ==> m <= cur@[j],
                    !found ==> forall|j: int| 0 <= j < k ==> cur@[j] >= s[j].1,
                decreases n - k,
            {
                if cur[k] < sizes[k].1 && (!found || cur[k] < m) {
                    found = true;
                    m = cur[k];
                    proof {
                        w = k as int;
                    }
                }
                k = k + 1;
            }
            if !found {
                proof {
                    assert forall|j: int| 0 <= j < n implies cur@[j] == maxs(s)[j] by {}
                }
                stuck = true;
            } else {
                // Size of that group, and how far it may rise as one.
                let mut count: usize = 0;
                let mut next: u32 = free;
                let mut k: usize = 0;
                while k < n
                    invariant
                        k <= n,
                        n == s.len(),
                        s == sizes@,
                        cur@.len() == n,
                        within(cur@, s),
                        count == group_count(cur@, s, m as int, k as int),
                        count <= k,
                        1 <= next <= free,
                        forall|j: int|
                            0 <= j < k && in_group(cur@, s, m as int, j) ==> next <= s[j].1 - m,
                        forall|j: int|
                            0 <= j < k && cur@[j] < s[j].1 && cur@[j] > m ==> next <= cur@[j]
                                - m,
                    decreases n - k,
                {
                    if cur[k] < sizes[k].1 {
                        if cur[k] == m {
                            count = count + 1;
                            next = min_len(next, sizes[k].1 - m);
                        } else if cur[k] > m {
                            next = min_len(next, cur[k] - m);
                        }
                    }
                    k = k + 1;
                }
                proof {
                    lemma_group_count_member(cur@, s, m as int, w, n as int);
                }
                let ghost old_cur = cur@;
                let ghost free_b = free as int;
                proof {
                    lemma_quotient(free as int, count as int);
                }
                let step = min_len(next, (free as usize / count) as u32);
                if step > 0 {
                    proof {
                        lemma_step_fits(step as int, count as int, free as int);
                    }
                    let mut k: usize = 0;
                    while k < n
                        invariant
                            k <= n,
                            n == s.len(),
                            s == sizes@,
                            cur@.len() == n,
                            old_cur.len() == n,
                            step * group_count(old_cur, s, m as int, n as int) <= free_b,
                            free == free_b - step * group_count(old_cur, s, m as int, k as int),
                            sum_seq(cur@) + free == sum_seq(old_cur) + free_b,
                            forall|j: int|
                                0 <= j < k ==> #[trigger] cur@[j] == if in_group(
                                    old_cur,
                                    s,
                                    m as int,
                                    j,
                                ) {
                                    old_cur[j] + step
                                } else {
                                    old_cur[j] as int
                                },
                            forall|j: int| k <= j < n ==> #[trigger] cur@[j] == old_cur[j],
                            forall|j: int|
                                0 <= j < n && in_group(old_cur, s, m as int, j) ==> step <= s[j].1
                                    - m,
                        decreases n - k,
                    {
                        if cur[k] == m && cur[k] < sizes[k].1 {
                            proof {
                                lemma_group_count_mono(old_cur, s, m as int, k + 1, n as int);
                                lemma_mul_le(
                                    step as int,
                                    group_count(old_cur, s, m as int, k + 1),
                                    group_count(old_cur, s, m as int, n as int),
                                );
                                lemma_sum_update(cur@, k as int, (cur[k as int] + step) as u32);
                                let g = group_count(old_cur, s, m as int, k as int);
                                assert(step * (g + 1) == step * g + step) by (nonlinear_arith);
                            }
                            cur.set(k, cur[k] + step);
                            free = free - step;
                        }
                        k = k + 1;
                    }
                    proof {
                        lemma_after_step(old_cur, cur@, s, m as int, step as int);
                        let g = group_count(old_cur, s, m as int, n as int);
                        assert(step * g >= 1) by (nonlinear_arith)
                            requires
                                step >= 1,
                                g >= 1,
                        ;
                    }
                } else {
                    proof {
                        assert(free < count);
                    }
                    let mut k: usize = 0;
                    let ghost mut cut: int = 0;
                    while k < n
                        invariant
                            k <= n,
                            n == s.len(),
                            s == sizes@,
                            cur@.len() == n,
                            old_cur.len() == n,
                            cut <= k,
                            free > 0 ==> cut == k,
                            forall|j: int|
                                0 <= j < k ==> (#[trigger] cur@[j] == old_cur[j] + 1 <==> (in_group(
                                    old_cur,
                                    s,
                                    m as int,
                                    j,
                                ) && j < cut)),
                            free == if group_count(old_cur, s, m as int, k as int) >= free_b {
                                0
                            } else {
                                free_b - group_count(old_cur, s, m as int, k as int)
                            },
                            sum_seq(cur@) + free == sum_seq(old_cur) + free_b,
                            forall|j: int|
                                0 <= j < k ==> (#[trigger] cur@[j] == old_cur[j] || (cur@[j]
                                    == old_cur[j] + 1 && in_group(old_cur, s, m as int, j))),
                            forall|j: int| k <= j < n ==> #[trigger] cur@[j] == old_cur[j],
                        decreases n - k,
                    {
                        let ghost had = free > 0;
                        if free > 0 && cur[k] == m && cur[k] < sizes[k].1 {
                            proof {
                                lemma_sum_update(cur@, k as int, (cur[k as int] + 1) as u32);
                            }
                            cur.set(k, cur[k] + 1);
                            free = free - 1;
                        }
                        proof {
                            if had {
                                cut = k + 1;
                            }
                        }
                        k = k + 1;
                    }
                    proof {
                        lemma_after_remainder(old_cur, cur@, s, m as int, cut);
                    }
                }
            }
        }
        proof {
            lemma_sum_le(cur@, maxs(s));
        }
        cur
    }
}

} // verus!
