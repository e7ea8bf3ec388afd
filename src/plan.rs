use crate::monitor::Monitor;
use vstd::prelude::*;

verus! {

/// Twice the x coordinate of a monitor's centre on the virtual desktop
/// (doubled so that it stays an integer).
pub open spec fn center2_x(m: Monitor) -> int {
    2 * m.position_x + m.resolution_x
}

/// Twice the y coordinate of a monitor's centre on the virtual desktop.
pub open spec fn center2_y(m: Monitor) -> int {
    2 * m.position_y + m.resolution_y
}

/// Four times the squared Euclidean distance between two monitors' centres;
/// it orders pairs exactly as the distance does.
pub open spec fn dist4(a: Monitor, b: Monitor) -> int {
    let dx = center2_x(a) - center2_x(b);
    let dy = center2_y(a) - center2_y(b);
    dx * dx + dy * dy
}

/// `i` is the first primary monitor among the first `len` entries.
pub open spec fn is_first_primary(ms: Seq<Monitor>, i: int) -> bool {
    0 <= i < ms.len() && ms[i].is_primary && forall|j: int| 0 <= j < i ==> !ms[j].is_primary
}

/// The root of the calibration tree: the first primary monitor, or index 0
/// when none is marked primary.
pub open spec fn primary_index(ms: Seq<Monitor>) -> int {
    if exists|i: int| is_first_primary(ms, i) {
        choose|i: int| is_first_primary(ms, i)
    } else {
        0
    }
}

/// Monitor `i` is bound once the first `k` pairs of the order are done: it is
/// the root or the child of one of those pairs.
pub open spec fn is_bound(root: int, pairs: Seq<(usize, usize)>, k: int, i: int) -> bool
    decreases k,
{
    if k <= 0 {
        i == root
    } else {
        pairs[k - 1].0 == i || is_bound(root, pairs, k - 1, i)
    }
}

proof fn lemma_bound_prefix(root: int, a: Seq<(usize, usize)>, b: Seq<(usize, usize)>, k: int, i: int)
    requires
        k <= a.len(),
        k <= b.len(),
        forall|t: int| 0 <= t < k ==> a[t] == b[t],
    ensures
        is_bound(root, a, k, i) == is_bound(root, b, k, i),
    decreases k,
{
    if k > 0 {
        lemma_bound_prefix(root, a, b, k - 1, i);
    }
}

proof fn lemma_bound_child(root: int, pairs: Seq<(usize, usize)>, t: int, k: int)
    requires
        0 <= t < k,
    ensures
        is_bound(root, pairs, k, pairs[t].0 as int),
    decreases k,
{
    if t < k - 1 {
        lemma_bound_child(root, pairs, t, k - 1);
    }
}

proof fn lemma_bound_root(root: int, pairs: Seq<(usize, usize)>, k: int)
    ensures
        is_bound(root, pairs, k, root),
    decreases k,
{
    if k > 0 {
        lemma_bound_root(root, pairs, k - 1);
    }
}

proof fn lemma_greedy_prefix(ms: Seq<Monitor>, a: Seq<(usize, usize)>, b: Seq<(usize, usize)>, k: int)
    requires
        0 <= k < a.len(),
        k < b.len(),
        forall|t: int| 0 <= t <= k ==> a[t] == b[t],
        is_greedy_choice(ms, a, k),
    ensures
        is_greedy_choice(ms, b, k),
{
    let root = primary_index(ms);
    let c = b[k].0 as int;
    let p = b[k].1 as int;
    lemma_bound_prefix(root, a, b, k, c);
    lemma_bound_prefix(root, a, b, k, p);
    assert forall|i: int, j: int|
        0 <= i < ms.len() && 0 <= j < ms.len() && !is_bound(root, b, k, i) && is_bound(root, b, k, j)
            implies #[trigger] dist4(ms[i], ms[j]) >= dist4(ms[c], ms[p]) && (scans_before(i, j, c, p) ==> dist4(
        ms[i],
        ms[j],
    ) > dist4(ms[c], ms[p])) by {
        lemma_bound_prefix(root, a, b, k, i);
        lemma_bound_prefix(root, a, b, k, j);
    }
}

/// `(i1, j1)` comes before `(i2, j2)` in the scan (unbound index first, then bound index).
pub open spec fn scans_before(i1: int, j1: int, i2: int, j2: int) -> bool {
    i1 < i2 || (i1 == i2 && j1 < j2)
}

/// Pair `k` joins the closest (unbound, bound) pair of monitors, the first in
/// scan order among equally close ones.
pub open spec fn is_greedy_choice(ms: Seq<Monitor>, pairs: Seq<(usize, usize)>, k: int) -> bool {
    let root = primary_index(ms);
    let c = pairs[k].0 as int;
    let p = pairs[k].1 as int;
    &&& c < ms.len() && p < ms.len()
    &&& !is_bound(root, pairs, k, c)
    &&& is_bound(root, pairs, k, p)
    &&& forall|i: int, j: int|
        0 <= i < ms.len() && 0 <= j < ms.len() && !is_bound(root, pairs, k, i) && is_bound(
            root,
            pairs,
            k,
            j,
        ) ==> #[trigger] dist4(ms[i], ms[j]) >= dist4(ms[c], ms[p]) && (scans_before(i, j, c, p) ==> dist4(
            ms[i],
            ms[j],
        ) > dist4(ms[c], ms[p]))
}

/// The calibration order that the nearest-centre greedy construction yields.
pub open spec fn is_greedy_order(ms: Seq<Monitor>, pairs: Seq<(usize, usize)>) -> bool {
    if ms.len() < 2 {
        pairs.len() == 0
    } else {
        &&& pairs.len() == ms.len() - 1
        &&& forall|k: int| 0 <= k < pairs.len() ==> is_greedy_choice(ms, pairs, k)
    }
}

/// The pairs form a spanning tree over `n` monitors rooted at `root`: each
/// non-root monitor is a child exactly once, and each parent is the root or
/// the child of an earlier pair.
pub open spec fn is_spanning_tree_order(n: int, root: int, pairs: Seq<(usize, usize)>) -> bool {
    &&& pairs.len() == n - 1
    &&& forall|k: int|
        0 <= k < pairs.len() ==> {
            &&& pairs[k].0 < n
            &&& pairs[k].1 < n
            &&& pairs[k].0 != root
            &&& is_bound(root, pairs, k, pairs[k].1 as int)
        }
    &&& forall|k1: int, k2: int| 0 <= k1 < k2 < pairs.len() ==> pairs[k1].0 != pairs[k2].0
    &&& forall|i: int| 0 <= i < n ==> #[trigger] is_bound(root, pairs, pairs.len() as int, i)
}

/// Number of `false` entries.
pub open spec fn count_unbound(s: Seq<bool>) -> nat
    decreases s.len(),
{
    if s.len() == 0 {
        0
    } else {
        count_unbound(s.drop_last()) + if s.last() { 0nat } else { 1nat }
    }
}

proof fn lemma_count_set(s: Seq<bool>, i: int)
    requires
        0 <= i < s.len(),
        !s[i],
    ensures
        count_unbound(s.update(i, true)) + 1 == count_unbound(s),
    decreases s.len(),
{
    let u = s.update(i, true);
    if i == s.len() - 1 {
        assert(u.drop_last() =~= s.drop_last());
    } else {
        assert(u.drop_last() =~= s.drop_last().update(i, true));
        lemma_count_set(s.drop_last(), i);
    }
}

proof fn lemma_count_zero(s: Seq<bool>, i: int)
    requires
        count_unbound(s) == 0,
        0 <= i < s.len(),
    ensures
        s[i],
    decreases s.len(),
{
    if i < s.len() - 1 {
        lemma_count_zero(s.drop_last(), i);
    }
}

proof fn lemma_count_positive(s: Seq<bool>) -> (i: int)
    requires
        count_unbound(s) > 0,
    ensures
        0 <= i < s.len(),
        !s[i],
    decreases s.len(),
{
    if !s.last() {
        s.len() - 1
    } else {
        lemma_count_positive(s.drop_last())
    }
}

proof fn lemma_dist4_bounds(a: Monitor, b: Monitor)
    ensures
        0 <= dist4(a, b) <= 0x2_0000_0000_0000_0000_0,
{
    let dx = center2_x(a) - center2_x(b);
    let dy = center2_y(a) - center2_y(b);
    assert(0 <= dx * dx <= 0x1_0000_0000_0000_0000_0) by (nonlinear_arith)
        requires
            -0x4_0000_0000 <= dx <= 0x4_0000_0000,
    ;
    assert(0 <= dy * dy <= 0x1_0000_0000_0000_0000_0) by (nonlinear_arith)
        requires
            -0x4_0000_0000 <= dy <= 0x4_0000_0000,
    ;
}

/// Four times the squared distance between the centres of two monitors.
fn center_dist4(a: &Monitor, b: &Monitor) -> (r: i128)
    ensures
        r == dist4(*a, *b),
{
    let dx: i128 = (2 * (a.position_x as i128) + a.resolution_x as i128) - (2 * (b.position_x as i128)
        + b.resolution_x as i128);
    let dy: i128 = (2 * (a.position_y as i128) + a.resolution_y as i128) - (2 * (b.position_y as i128)
        + b.resolution_y as i128);
    proof {
        assert(dx * dx <= 0x1_0000_0000_0000_0000_0) by (nonlinear_arith)
            requires -0x4_0000_0000 <= dx <= 0x4_0000_0000;
        assert(dy * dy <= 0x1_0000_0000_0000_0000_0) by (nonlinear_arith)
            requires -0x4_0000_0000 <= dy <= 0x4_0000_0000;
        assert(0 <= dx * dx) by (nonlinear_arith);
        assert(0 <= dy * dy) by (nonlinear_arith);
    }
    dx * dx + dy * dy
}

/// Index of the first primary monitor, or 0 when none is primary.
pub(crate) fn find_primary(monitors: &[Monitor]) -> (r: usize)
    ensures
        r == primary_index(monitors@),
{
    let mut i: usize = 0;
    while i < monitors.len()
        invariant
            0 <= i <= monitors@.len(),
            forall|j: int| 0 <= j < i ==> !monitors@[j].is_primary,
        decreases monitors.len() - i,
    {
        if monitors[i].is_primary {
            assert(is_first_primary(monitors@, i as int));
            let ghost c = choose|c: int| is_first_primary(monitors@, c);
            assert(c == i) by {
                if c < i {
                } else if c > i {
                    assert(!monitors@[i as int].is_primary);
                }
            }
            return i;
        }
        i += 1;
    }
    assert(!exists|c: int| is_first_primary(monitors@, c));
    0
}

/// Best pair found so far while scanning every (unbound, bound) pair up to `(si, sj)`.
spec fn best_so_far(ms: Seq<Monitor>, bound: Seq<bool>, best: Option<(usize, usize, i128)>, si: int, sj: int) -> bool {
    match best {
        None => forall|i: int, j: int|
            0 <= i < ms.len() && 0 <= j < ms.len() && #[trigger] scans_before(i, j, si, sj) ==> !(!bound[i]
                && bound[j]),
        Some((c, p, d)) => {
            &&& c < ms.len() && p < ms.len()
            &&& !bound[c as int] && bound[p as int]
            &&& d == dist4(ms[c as int], ms[p as int])
            &&& scans_before(c as int, p as int, si, sj)
            &&& forall|i: int, j: int|
                0 <= i < ms.len() && 0 <= j < ms.len() && #[trigger] scans_before(i, j, si, sj) && !bound[i]
                    && bound[j] ==> dist4(ms[i], ms[j]) >= d && (scans_before(i, j, c as int, p as int)
                    ==> dist4(ms[i], ms[j]) > d)
        },
    }
}

proof fn lemma_best_step(
    ms: Seq<Monitor>,
    bound: Seq<bool>,
    old_best: Option<(usize, usize, i128)>,
    best: Option<(usize, usize, i128)>,
    si: int,
    sj: int,
)
    requires
        bound.len() == ms.len(),
        ms.len() <= usize::MAX,
        0 <= si < ms.len(),
        0 <= sj < ms.len(),
        best_so_far(ms, bound, old_best, si, sj),
        !(!bound[si] && bound[sj]) ==> best == old_best,
        !bound[si] && bound[sj] ==> match old_best {
            None => best == Some((si as usize, sj as usize, dist4(ms[si], ms[sj]) as i128)),
            Some((_, _, bd)) => if dist4(ms[si], ms[sj]) < bd {
                best == Some((si as usize, sj as usize, dist4(ms[si], ms[sj]) as i128))
            } else {
                best == old_best
            },
        },
    ensures
        best_so_far(ms, bound, best, si, sj + 1),
{
    let valid = !bound[si] && bound[sj];
    let dn = dist4(ms[si], ms[sj]);
    lemma_dist4_bounds(ms[si], ms[sj]);
    let improves = match old_best {
        None => true,
        Some((_, _, bd)) => dn < bd,
    };
    if valid && improves {
        // the new pair becomes the best
        assert(best == Some((si as usize, sj as usize, dn as i128)));
        assert forall|i: int, j: int|
            0 <= i < ms.len() && 0 <= j < ms.len() && #[trigger] scans_before(i, j, si, sj + 1) && !bound[i]
                && bound[j] implies dist4(ms[i], ms[j]) >= dn && (scans_before(i, j, si, sj) ==> dist4(
            ms[i],
            ms[j],
        ) > dn) by {
            if !(i == si && j == sj) {
                assert(scans_before(i, j, si, sj));
            }
        }
    } else {
        assert(best == old_best);
        match best {
            None => {
                assert forall|i: int, j: int|
                    0 <= i < ms.len() && 0 <= j < ms.len() && #[trigger] scans_before(i, j, si, sj + 1) implies !(
                    !bound[i] && bound[j]) by {
                    if !(i == si && j == sj) {
                        assert(scans_before(i, j, si, sj));
                    }
                }
            },
            Some((c, p, d)) => {
                assert forall|i: int, j: int|
                    0 <= i < ms.len() && 0 <= j < ms.len() && #[trigger] scans_before(i, j, si, sj + 1) && !bound[i]
                        && bound[j] implies dist4(ms[i], ms[j]) >= d && (scans_before(
                    i,
                    j,
                    c as int,
                    p as int,
                ) ==> dist4(ms[i], ms[j]) > d) by {
                    if !(i == si && j == sj) {
                        assert(scans_before(i, j, si, sj));
                    }
                }
            },
        }
    }
}

proof fn lemma_best_next_row(ms: Seq<Monitor>, bound: Seq<bool>, best: Option<(usize, usize, i128)>, si: int)
    requires
        bound.len() == ms.len(),
        0 <= si < ms.len(),
        best_so_far(ms, bound, best, si, ms.len() as int),
    ensures
        best_so_far(ms, bound, best, si + 1, 0),
{
    match best {
        None => {
            assert forall|i: int, j: int|
                0 <= i < ms.len() && 0 <= j < ms.len() && #[trigger] scans_before(i, j, si + 1, 0) implies !(!bound[i]
                    && bound[j]) by {
                assert(scans_before(i, j, si, ms.len() as int));
            }
        },
        Some((c, p, d)) => {
            assert(scans_before(c as int, p as int, si, ms.len() as int));
            assert forall|i: int, j: int|
                0 <= i < ms.len() && 0 <= j < ms.len() && #[trigger] scans_before(i, j, si + 1, 0) && !bound[i]
                    && bound[j] implies dist4(ms[i], ms[j]) >= d && (scans_before(i, j, c as int, p as int)
                    ==> dist4(ms[i], ms[j]) > d) by {
                assert(scans_before(i, j, si, ms.len() as int));
                assert(dist4(ms[i], ms[j]) >= d);
            }
            assert(best_so_far(ms, bound, best, si + 1, 0));
        },
    }
}

/// The closest (unbound, bound) pair, the first in scan order among ties.
fn closest_pair(monitors: &[Monitor], bound: &Vec<bool>) -> (r: (usize, usize))
    requires
        bound@.len() == monitors@.len(),
        exists|i: int| 0 <= i < bound@.len() && !bound@[i],
        exists|j: int| 0 <= j < bound@.len() && bound@[j],
    ensures
        r.0 < monitors@.len() && r.1 < monitors@.len(),
        !bound@[r.0 as int] && bound@[r.1 as int],
        forall|i: int, j: int|
            0 <= i < monitors@.len() && 0 <= j < monitors@.len() && !bound@[i] && bound@[j] ==> #[trigger] dist4(
                monitors@[i],
                monitors@[j],
            ) >= dist4(monitors@[r.0 as int], monitors@[r.1 as int]) && (scans_before(
                i,
                j,
                r.0 as int,
                r.1 as int,
            ) ==> dist4(monitors@[i], monitors@[j]) > dist4(
                monitors@[r.0 as int],
                monitors@[r.1 as int],
            )),
{
    let n = monitors.len();
    let mut best: Option<(usize, usize, i128)> = None;
    let mut i: usize = 0;
    while i < n
        invariant
            n == monitors@.len(),
            bound@.len() == n,
            0 <= i <= n,
            best_so_far(monitors@, bound@, best, i as int, 0),
        decreases n - i,
    {
        let mut j: usize = 0;
        while j < n
            invariant
                n == monitors@.len(),
                bound@.len() == n,
                0 <= i < n,
                0 <= j <= n,
                best_so_far(monitors@, bound@, best, i as int, j as int),
            decreases n - j,
        {
            let ghost old_best = best;
            if !bound[i] && bound[j] {
                let d = center_dist4(&monitors[i], &monitors[j]);
                let better = match best {
                    None => true,
                    Some((_, _, bd)) => d < bd,
                };
                if better {
                    best = Some((i, j, d));
                }
            }
            proof {
                lemma_best_step(monitors@, bound@, old_best, best, i as int, j as int);
            }
            j += 1;
        }
        proof {
            lemma_best_next_row(monitors@, bound@, best, i as int);
        }
        i += 1;
    }
    match best {
        Some((c, p, _)) => {
            proof {
                assert forall|a: int, b: int|
                    0 <= a < n && 0 <= b < n && !bound@[a] && bound@[b] implies #[trigger] dist4(monitors@[a], monitors@[b])
                        >= dist4(monitors@[c as int], monitors@[p as int]) && (scans_before(a, b, c as int, p as int)
                        ==> dist4(monitors@[a], monitors@[b]) > dist4(monitors@[c as int], monitors@[p as int])) by {
                    assert(scans_before(a, b, n as int, 0));
                }
            }
            (c, p)
        },
        None => {
            proof {
                let a = choose|a: int| 0 <= a < bound@.len() && !bound@[a];
                let b = choose|b: int| 0 <= b < bound@.len() && bound@[b];
                assert(scans_before(a, b, n as int, 0));
            }
            (0, 0)
        },
    }
}

/// Orders the monitors into calibration pairs `(child, parent)`: starting from
/// the primary monitor, each step binds the unbound monitor whose centre is
/// closest to that of a bound one. Fewer than two monitors give no pairs.
pub fn compute_calibration_order(monitors: &[Monitor]) -> (pairs: Vec<(usize, usize)>)
    ensures
        is_greedy_order(monitors@, pairs@),
        monitors@.len() >= 2 ==> is_spanning_tree_order(
            monitors@.len() as int,
            primary_index(monitors@),
            pairs@,
        ),
{
    let n = monitors.len();
    if n < 2 {
        return Vec::new();
    }
    let root = find_primary(monitors);
    let ghost ms = monitors@;
    let mut bound: Vec<bool> = Vec::new();
    let mut k: usize = 0;
    while k < n
        invariant
            0 <= k <= n,
            root < n,
            bound@.len() == k,
            forall|i: int| 0 <= i < k ==> bound@[i] == (i == root),
            count_unbound(bound@) == if root < k { k - 1 } else { k as int },
        decreases n - k,
    {
        proof {
            assert(bound@.push(k == root).drop_last() =~= bound@);
        }
        bound.push(k == root);
        k += 1;
    }
    let mut pairs: Vec<(usize, usize)> = Vec::new();
    let mut left: usize = n - 1;
    while left > 0
        invariant
            n == ms.len(),
            n >= 2,
            ms == monitors@,
            root == primary_index(ms),
            root < n,
            bound@.len() == n,
            forall|i: int| 0 <= i < n ==> bound@[i] == is_bound(root as int, pairs@, pairs@.len() as int, i),
            count_unbound(bound@) == left,
            left + pairs@.len() == n - 1,
            forall|t: int| 0 <= t < pairs@.len() ==> is_greedy_choice(ms, pairs@, t),
        decreases left,
    {
        proof {
            let a = lemma_count_positive(bound@);
            lemma_bound_root(root as int, pairs@, pairs@.len() as int);
            assert(bound@[root as int]);
        }
        let (c, p) = closest_pair(monitors, &bound);
        let ghost old_pairs = pairs@;
        let ghost old_bound = bound@;
        proof {
            lemma_count_set(bound@, c as int);
        }
        bound.set(c, true);
        pairs.push((c, p));
        left -= 1;
        proof {
            let kk = old_pairs.len() as int;
            assert forall|i: int| 0 <= i < n implies bound@[i] == is_bound(
                root as int,
                pairs@,
                pairs@.len() as int,
                i,
            ) by {
                lemma_bound_prefix(root as int, old_pairs, pairs@, kk, i);
            }
            assert forall|t: int| 0 <= t < pairs@.len() implies is_greedy_choice(ms, pairs@, t) by {
                if t < kk {
                    lemma_greedy_prefix(ms, old_pairs, pairs@, t);
                } else {
                    let pq = pairs@;
                    assert forall|i: int| 0 <= i < n implies #[trigger] is_bound(root as int, pq, kk, i) == old_bound[i] by {
                        lemma_bound_prefix(root as int, old_pairs, pq, kk, i);
                    }
                    assert(pq[kk] == (c, p));
                    assert forall|i: int, j: int|
                        0 <= i < n && 0 <= j < n && !is_bound(root as int, pq, kk, i) && is_bound(root as int, pq, kk, j)
                            implies #[trigger] dist4(ms[i], ms[j]) >= dist4(ms[c as int], ms[p as int]) && (scans_before(i, j, c as int, p as int) ==> dist4(
                        ms[i],
                        ms[j],
                    ) > dist4(ms[c as int], ms[p as int])) by {
                        assert(!old_bound[i] && old_bound[j]);
                    }
                    assert(is_greedy_choice(ms, pq, kk));
                }
            }
        }
    }
    proof {
        let pp = pairs@;
        assert forall|i: int| 0 <= i < n implies #[trigger] is_bound(root as int, pp, pp.len() as int, i) by {
            lemma_count_zero(bound@, i);
        }
        assert forall|k1: int, k2: int| 0 <= k1 < k2 < pp.len() implies pp[k1].0 != pp[k2].0 by {
            assert(is_greedy_choice(ms, pp, k2));
            lemma_bound_child(root as int, pp, k1, k2);
        }
        assert forall|k: int| 0 <= k < pp.len() implies pp[k].0 < n && pp[k].1 < n && pp[k].0 != root && is_bound(root as int, pp, k, pp[k].1 as int) by {
            assert(is_greedy_choice(ms, pp, k));
            lemma_bound_root(root as int, pp, k);
        }
    }
    pairs
}

/// Length of the overlap of the intervals `[a0, a1)` and `[b0, b1)`, or 0.
pub open spec fn overlap(a0: int, a1: int, b0: int, b1: int) -> int {
    let lo = if a0 >= b0 { a0 } else { b0 };
    let hi = if a1 <= b1 { a1 } else { b1 };
    if hi - lo > 0 { hi - lo } else { 0 }
}

/// How far the two monitors' spans overlap along y.
pub open spec fn vertical_overlap(a: Monitor, b: Monitor) -> int {
    overlap(a.position_y as int, a.position_y + a.resolution_y, b.position_y as int, b.position_y + b.resolution_y)
}

/// How far the two monitors' spans overlap along x.
pub open spec fn horizontal_overlap(a: Monitor, b: Monitor) -> int {
    overlap(a.position_x as int, a.position_x + a.resolution_x, b.position_x as int, b.position_x + b.resolution_x)
}

/// The monitors are judged side by side when they share at least as much
/// height as width.
pub open spec fn bind_horizontal_spec(a: Monitor, b: Monitor) -> bool {
    vertical_overlap(a, b) >= horizontal_overlap(a, b)
}

fn overlap_exec(a0: i64, a1: i64, b0: i64, b1: i64) -> (r: i64)
    requires
        -0x1_0000_0000 <= a0 <= 0x1_0000_0000,
        -0x1_0000_0000 <= b0 <= 0x1_0000_0000,
        -0x1_0000_0000 <= a1 <= 0x2_0000_0000,
        -0x1_0000_0000 <= b1 <= 0x2_0000_0000,
    ensures
        r == overlap(a0 as int, a1 as int, b0 as int, b1 as int),
{
    let lo = if a0 >= b0 { a0 } else { b0 };
    let hi = if a1 <= b1 { a1 } else { b1 };
    if hi - lo > 0 { hi - lo } else { 0 }
}

/// Whether two monitors are side by side (`true`, calibrated along y) or
/// stacked (`false`, calibrated along x): side by side when their vertical
/// overlap is at least their horizontal overlap.
pub fn determine_bind_horizontal(m1: &Monitor, m2: &Monitor) -> (r: bool)
    ensures
        r == bind_horizontal_spec(*m1, *m2),
{
    let v = overlap_exec(
        m1.position_y as i64,
        m1.position_y as i64 + m1.resolution_y as i64,
        m2.position_y as i64,
        m2.position_y as i64 + m2.resolution_y as i64,
    );
    let h = overlap_exec(
        m1.position_x as i64,
        m1.position_x as i64 + m1.resolution_x as i64,
        m2.position_x as i64,
        m2.position_x as i64 + m2.resolution_x as i64,
    );
    v >= h
}

/// The orientation of a pair does not depend on which monitor comes first.
pub proof fn lemma_bind_orientation_symmetric(a: Monitor, b: Monitor)
    ensures
        bind_horizontal_spec(a, b) == bind_horizontal_spec(b, a),
{
}

} // verus!
