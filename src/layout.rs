use crate::calibration::CalibrationResult;
use crate::monitor::Monitor;
use crate::solver::SCALE_ONE;
use vstd::arithmetic::div_mod::{lemma_fundamental_div_mod, lemma_hoist_over_denominator};
use vstd::prelude::*;

verus! {

/// Density of the child of an edge from its parent's: `parent × scale`.
/// Densities are in thousandths of a pixel per inch; `None` when the result
/// is zero or does not fit in 64 bits.
pub open spec fn child_density(parent_ppi: u64, scale: u64) -> Option<u64> {
    let v = parent_ppi as int * scale as int / SCALE_ONE as int;
    if 0 < v <= u64::MAX { Some(v as u64) } else { None }
}

/// Density of the parent of an edge from its child's: `child / scale`.
pub open spec fn parent_density(child_ppi: u64, scale: u64) -> Option<u64> {
    if scale == 0 {
        None
    } else {
        let v = child_ppi as int * SCALE_ONE as int / scale as int;
        if 0 < v <= u64::MAX { Some(v as u64) } else { None }
    }
}

/// Every result's two monitors lie within the first `n`.
pub open spec fn edges_within(rs: Seq<CalibrationResult>, n: int) -> bool {
    forall|k: int| 0 <= k < rs.len() ==> (#[trigger] rs[k]).monitor_id < n && rs[k].bound_to < n
}

/// One relaxation over one edge: a known density on one side fills an
/// unknown one on the other.
pub open spec fn relax_edge(ppi: Seq<Option<u64>>, r: CalibrationResult) -> Seq<Option<u64>> {
    let c = r.monitor_id as int;
    let p = r.bound_to as int;
    let a = if ppi[c] is None && ppi[p] is Some && child_density(ppi[p]->Some_0, r.scale) is Some {
        ppi.update(c, child_density(ppi[p]->Some_0, r.scale))
    } else {
        ppi
    };
    if a[p] is None && a[c] is Some && parent_density(a[c]->Some_0, r.scale) is Some {
        a.update(p, parent_density(a[c]->Some_0, r.scale))
    } else {
        a
    }
}

/// One round: every edge relaxed once, in order.
pub open spec fn relax_round(ppi: Seq<Option<u64>>, rs: Seq<CalibrationResult>) -> Seq<Option<u64>>
    decreases rs.len(),
{
    if rs.len() == 0 {
        ppi
    } else {
        relax_edge(relax_round(ppi, rs.drop_last()), rs.last())
    }
}

/// `t` rounds of relaxation.
pub open spec fn relax_rounds(ppi: Seq<Option<u64>>, rs: Seq<CalibrationResult>, t: nat) -> Seq<Option<u64>>
    decreases t,
{
    if t == 0 {
        ppi
    } else {
        relax_round(relax_rounds(ppi, rs, (t - 1) as nat), rs)
    }
}

/// The densities after propagation: as many rounds as there are edges.
pub open spec fn propagated(ppi: Seq<Option<u64>>, rs: Seq<CalibrationResult>) -> Seq<Option<u64>> {
    relax_rounds(ppi, rs, rs.len())
}

/// Known densities of the monitors: a positive recorded density, else unknown.
pub open spec fn seed_density(ms: Seq<Monitor>) -> Seq<Option<u64>> {
    Seq::new(ms.len(), |i: int| if ms[i].ppi_milli is Some && ms[i].ppi_milli->Some_0 > 0 { ms[i].ppi_milli } else { None })
}

/// `b` keeps every density that `a` knows.
pub open spec fn extends(a: Seq<Option<u64>>, b: Seq<Option<u64>>) -> bool {
    a.len() == b.len() && forall|i: int| 0 <= i < a.len() && (#[trigger] a[i]) is Some ==> b[i] == a[i]
}

/// An edge with a side of unknown density.
pub open spec fn is_open(ppi: Seq<Option<u64>>, r: CalibrationResult) -> bool {
    ppi[r.monitor_id as int] is None || ppi[r.bound_to as int] is None
}

/// Number of open edges.
pub open spec fn open_edges(ppi: Seq<Option<u64>>, rs: Seq<CalibrationResult>) -> nat
    decreases rs.len(),
{
    if rs.len() == 0 {
        0
    } else {
        open_edges(ppi, rs.drop_last()) + if is_open(ppi, rs.last()) { 1nat } else { 0nat }
    }
}

proof fn lemma_edge_extends(ppi: Seq<Option<u64>>, r: CalibrationResult)
    requires
        r.monitor_id < ppi.len(),
        r.bound_to < ppi.len(),
    ensures
        extends(ppi, relax_edge(ppi, r)),
        relax_edge(ppi, r) != ppi ==> !is_open(relax_edge(ppi, r), r),
{
}

proof fn lemma_extends_trans(a: Seq<Option<u64>>, b: Seq<Option<u64>>, c: Seq<Option<u64>>)
    requires
        extends(a, b),
        extends(b, c),
    ensures
        extends(a, c),
{
    assert forall|i: int| 0 <= i < a.len() && (#[trigger] a[i]) is Some implies c[i] == a[i] by {
        assert(b[i] == a[i]);
    }
}

proof fn lemma_round_extends(ppi: Seq<Option<u64>>, rs: Seq<CalibrationResult>)
    requires
        edges_within(rs, ppi.len() as int),
    ensures
        extends(ppi, relax_round(ppi, rs)),
        relax_round(ppi, rs).len() == ppi.len(),
    decreases rs.len(),
{
    if rs.len() > 0 {
        let rs0 = rs.drop_last();
        assert(edges_within(rs0, ppi.len() as int)) by {
            assert forall|k: int| 0 <= k < rs0.len() implies (#[trigger] rs0[k]).monitor_id < ppi.len() && rs0[k].bound_to < ppi.len() by {
                assert(rs0[k] == rs[k]);
            }
        }
        lemma_round_extends(ppi, rs0);
        let mid = relax_round(ppi, rs0);
        assert(rs[rs.len() - 1] == rs.last());
        lemma_edge_extends(mid, rs.last());
        lemma_extends_trans(ppi, mid, relax_round(ppi, rs));
    }
}

/// A round that changes anything closes an edge that was open before it.
proof fn lemma_round_closes(ppi: Seq<Option<u64>>, rs: Seq<CalibrationResult>) -> (k: int)
    requires
        edges_within(rs, ppi.len() as int),
        relax_round(ppi, rs) != ppi,
    ensures
        0 <= k < rs.len(),
        is_open(ppi, rs[k]),
        !is_open(relax_round(ppi, rs), rs[k]),
    decreases rs.len(),
{
    let rs0 = rs.drop_last();
    assert(edges_within(rs0, ppi.len() as int)) by {
        assert forall|k: int| 0 <= k < rs0.len() implies (#[trigger] rs0[k]).monitor_id < ppi.len() && rs0[k].bound_to < ppi.len() by {
            assert(rs0[k] == rs[k]);
        }
    }
    let mid = relax_round(ppi, rs0);
    lemma_round_extends(ppi, rs0);
    assert(rs[rs.len() - 1] == rs.last());
    lemma_edge_extends(mid, rs.last());
    let full = relax_round(ppi, rs);
    if mid != ppi {
        let k = lemma_round_closes(ppi, rs0);
        assert(rs[k] == rs0[k]);
        let c = rs[k].monitor_id as int;
        let p = rs[k].bound_to as int;
        assert(mid[c] is Some && mid[p] is Some);
        assert(full[c] == mid[c] && full[p] == mid[p]);
        k
    } else {
        rs.len() - 1
    }
}

/// Closing an edge, and opening none, lowers the count of open edges.
proof fn lemma_open_edges_drop(a: Seq<Option<u64>>, b: Seq<Option<u64>>, rs: Seq<CalibrationResult>, k: int)
    requires
        extends(a, b),
        edges_within(rs, a.len() as int),
        0 <= k < rs.len(),
        is_open(a, rs[k]),
        !is_open(b, rs[k]),
    ensures
        open_edges(b, rs) < open_edges(a, rs),
    decreases rs.len(),
{
    let rs0 = rs.drop_last();
    assert(edges_within(rs0, a.len() as int)) by {
        assert forall|j: int| 0 <= j < rs0.len() implies (#[trigger] rs0[j]).monitor_id < a.len() && rs0[j].bound_to < a.len() by {
            assert(rs0[j] == rs[j]);
        }
    }
    let last = rs.last();
    assert(rs[rs.len() - 1] == last);
    assert(is_open(b, last) ==> is_open(a, last)) by {
        if is_open(b, last) && !is_open(a, last) {
            assert(a[last.monitor_id as int] is Some);
            assert(a[last.bound_to as int] is Some);
        }
    }
    if k == rs.len() - 1 {
        lemma_open_edges_le(a, b, rs0);
    } else {
        assert(rs0[k] == rs[k]);
        lemma_open_edges_drop(a, b, rs0, k);
    }
}

proof fn lemma_open_edges_le(a: Seq<Option<u64>>, b: Seq<Option<u64>>, rs: Seq<CalibrationResult>)
    requires
        extends(a, b),
        edges_within(rs, a.len() as int),
    ensures
        open_edges(b, rs) <= open_edges(a, rs),
    decreases rs.len(),
{
    if rs.len() > 0 {
        let rs0 = rs.drop_last();
        assert(edges_within(rs0, a.len() as int)) by {
            assert forall|j: int| 0 <= j < rs0.len() implies (#[trigger] rs0[j]).monitor_id < a.len() && rs0[j].bound_to < a.len() by {
                assert(rs0[j] == rs[j]);
            }
        }
        let last = rs.last();
        assert(rs[rs.len() - 1] == last);
        assert(is_open(b, last) ==> is_open(a, last)) by {
            if is_open(b, last) && !is_open(a, last) {
                assert(a[last.monitor_id as int] is Some);
                assert(a[last.bound_to as int] is Some);
            }
        }
        lemma_open_edges_le(a, b, rs0);
    }
}

proof fn lemma_open_edges_max(a: Seq<Option<u64>>, rs: Seq<CalibrationResult>)
    ensures
        open_edges(a, rs) <= rs.len(),
    decreases rs.len(),
{
    if rs.len() > 0 {
        lemma_open_edges_max(a, rs.drop_last());
    }
}

proof fn lemma_rounds_len(ppi: Seq<Option<u64>>, rs: Seq<CalibrationResult>, t: nat)
    requires
        edges_within(rs, ppi.len() as int),
    ensures
        relax_rounds(ppi, rs, t).len() == ppi.len(),
    decreases t,
{
    if t > 0 {
        lemma_rounds_len(ppi, rs, (t - 1) as nat);
        lemma_round_extends(relax_rounds(ppi, rs, (t - 1) as nat), rs);
    }
}

/// After `t` rounds the densities are settled, or `t` edges have closed.
proof fn lemma_rounds_progress(ppi: Seq<Option<u64>>, rs: Seq<CalibrationResult>, t: nat)
    requires
        edges_within(rs, ppi.len() as int),
    ensures
        relax_round(relax_rounds(ppi, rs, t), rs) == relax_rounds(ppi, rs, t) || open_edges(
            relax_rounds(ppi, rs, t),
            rs,
        ) + t <= open_edges(ppi, rs),
    decreases t,
{
    if t > 0 {
        let prev = relax_rounds(ppi, rs, (t - 1) as nat);
        lemma_rounds_progress(ppi, rs, (t - 1) as nat);
        lemma_rounds_len(ppi, rs, (t - 1) as nat);
        let cur = relax_round(prev, rs);
        lemma_round_extends(prev, rs);
        if cur != prev {
            let k = lemma_round_closes(prev, rs);
            lemma_open_edges_drop(prev, cur, rs, k);
        }
    }
}

/// A settled set of densities stays as it is.
proof fn lemma_settled_stays(ppi: Seq<Option<u64>>, rs: Seq<CalibrationResult>, t: nat)
    requires
        relax_round(ppi, rs) == ppi,
    ensures
        relax_rounds(ppi, rs, t) == ppi,
    decreases t,
{
    if t > 0 {
        lemma_settled_stays(ppi, rs, (t - 1) as nat);
    }
}

/// Propagation settles within as many rounds as there are edges: one more
/// round changes nothing, and propagating the result again gives it back.
pub proof fn lemma_propagation_converges(ppi: Seq<Option<u64>>, rs: Seq<CalibrationResult>)
    requires
        edges_within(rs, ppi.len() as int),
    ensures
        relax_round(propagated(ppi, rs), rs) == propagated(ppi, rs),
        propagated(propagated(ppi, rs), rs) == propagated(ppi, rs),
{
    let t = rs.len();
    lemma_rounds_progress(ppi, rs, t);
    lemma_open_edges_max(ppi, rs);
    let fin = relax_rounds(ppi, rs, t);
    lemma_rounds_len(ppi, rs, t);
    if relax_round(fin, rs) != fin {
        let k = lemma_round_closes(fin, rs);
        assert(open_edges(fin, rs) == 0);
        lemma_round_extends(fin, rs);
        lemma_open_edges_drop(fin, relax_round(fin, rs), rs, k);
    }
    lemma_settled_stays(fin, rs, t);
}

fn child_density_exec(parent_ppi: u64, scale: u64) -> (r: Option<u64>)
    ensures
        r == child_density(parent_ppi, scale),
{
    proof {
        assert(parent_ppi as int * scale as int <= 0xFFFF_FFFF_FFFF_FFFF * 0xFFFF_FFFF_FFFF_FFFF) by (nonlinear_arith)
            requires parent_ppi <= 0xFFFF_FFFF_FFFF_FFFF, scale <= 0xFFFF_FFFF_FFFF_FFFF;
    }
    let v: u128 = (parent_ppi as u128) * (scale as u128) / (SCALE_ONE as u128);
    if 0 < v && v <= u64::MAX as u128 {
        Some(v as u64)
    } else {
        None
    }
}

fn parent_density_exec(child_ppi: u64, scale: u64) -> (r: Option<u64>)
    ensures
        r == parent_density(child_ppi, scale),
{
    if scale == 0 {
        return None;
    }
    proof {
        assert(child_ppi as int * 1_000_000 <= 0xFFFF_FFFF_FFFF_FFFF * 1_000_000) by (nonlinear_arith)
            requires child_ppi <= 0xFFFF_FFFF_FFFF_FFFF;
    }
    let v: u128 = (child_ppi as u128) * (SCALE_ONE as u128) / (scale as u128);
    if 0 < v && v <= u64::MAX as u128 {
        Some(v as u64)
    } else {
        None
    }
}

proof fn lemma_extends_differs(a: Seq<Option<u64>>, b: Seq<Option<u64>>)
    requires
        extends(a, b),
    ensures
        (a != b) == exists|i: int| 0 <= i < a.len() && a[i] is None && (#[trigger] b[i]) is Some,
{
    if !exists|i: int| 0 <= i < a.len() && a[i] is None && (#[trigger] b[i]) is Some {
        assert forall|i: int| 0 <= i < a.len() implies a[i] == b[i] by {
            if a[i] is None {
                assert(!(b[i] is Some));
            }
        }
        assert(a =~= b);
    }
}

fn relax_edge_exec(ppi: &mut Vec<Option<u64>>, r: &CalibrationResult) -> (changed: bool)
    requires
        r.monitor_id < old(ppi)@.len(),
        r.bound_to < old(ppi)@.len(),
    ensures
        final(ppi)@ == relax_edge(old(ppi)@, *r),
        changed == (final(ppi)@ != old(ppi)@),
{
    let c = r.monitor_id;
    let p = r.bound_to;
    let mut changed = false;
    if ppi[c].is_none() {
        if let Some(pp) = ppi[p] {
            let d = child_density_exec(pp, r.scale);
            if d.is_some() {
                ppi.set(c, d);
                changed = true;
            }
        }
    }
    let ghost mid = ppi@;
    if ppi[p].is_none() {
        if let Some(cp) = ppi[c] {
            let d = parent_density_exec(cp, r.scale);
            if d.is_some() {
                ppi.set(p, d);
                changed = true;
                proof {
                    assert(ppi@[p as int] != old(ppi)@[p as int]);
                }
            }
        }
    }
    proof {
        if changed && ppi@ == mid {
            assert(ppi@[c as int] != old(ppi)@[c as int]);
        }
    }
    changed
}

fn relax_round_exec(ppi: &mut Vec<Option<u64>>, results: &[CalibrationResult]) -> (changed: bool)
    requires
        edges_within(results@, old(ppi)@.len() as int),
    ensures
        final(ppi)@ == relax_round(old(ppi)@, results@),
        changed == (final(ppi)@ != old(ppi)@),
{
    let ghost start = ppi@;
    let mut changed = false;
    let mut j: usize = 0;
    while j < results.len()
        invariant
            0 <= j <= results@.len(),
            edges_within(results@, start.len() as int),
            ppi@.len() == start.len(),
            ppi@ == relax_round(start, results@.subrange(0, j as int)),
            extends(start, ppi@),
            changed == (ppi@ != start),
        decreases results.len() - j,
    {
        let ghost before = ppi@;
        assert(results@[j as int].monitor_id < start.len());
        let ch = relax_edge_exec(ppi, &results[j]);
        proof {
            assert(results@.subrange(0, j + 1).drop_last() =~= results@.subrange(0, j as int));
            lemma_edge_extends(before, results@[j as int]);
            lemma_extends_trans(start, before, ppi@);
            lemma_extends_differs(start, before);
            lemma_extends_differs(before, ppi@);
            lemma_extends_differs(start, ppi@);
            if changed {
                let i = choose|i: int| 0 <= i < start.len() && start[i] is None && before[i] is Some;
                assert(ppi@[i] == before[i]);
            }
            if ch {
                let i = choose|i: int| 0 <= i < before.len() && before[i] is None && ppi@[i] is Some;
                assert(start[i] is None);
            }
        }
        changed = changed || ch;
        j += 1;
    }
    proof {
        assert(results@.subrange(0, results@.len() as int) =~= results@);
    }
    changed
}

/// Pixel densities of all monitors after propagation over the calibration
/// edges, in thousandths of a pixel per inch; `None` where none reaches.
pub fn propagate_density(monitors: &[Monitor], results: &[CalibrationResult]) -> (r: Vec<Option<u64>>)
    requires
        edges_within(results@, monitors@.len() as int),
    ensures
        r@ == propagated(seed_density(monitors@), results@),
{
    let mut ppi: Vec<Option<u64>> = Vec::new();
    let mut i: usize = 0;
    while i < monitors.len()
        invariant
            0 <= i <= monitors@.len(),
            ppi@ == seed_density(monitors@).subrange(0, i as int),
        decreases monitors.len() - i,
    {
        let v = match monitors[i].ppi_milli {
            Some(d) => if d > 0 { Some(d) } else { None },
            None => None,
        };
        ppi.push(v);
        i += 1;
        proof {
            assert(ppi@ =~= seed_density(monitors@).subrange(0, i as int));
        }
    }
    let ghost seed = seed_density(monitors@);
    proof {
        assert(ppi@ =~= seed);
    }
    let mut t: usize = 0;
    while t < results.len()
        invariant
            0 <= t <= results@.len(),
            edges_within(results@, seed.len() as int),
            seed == seed_density(monitors@),
            ppi@ == relax_rounds(seed, results@, t as nat),
        decreases results.len() - t,
    {
        let ghost before = ppi@;
        proof {
            lemma_rounds_len(seed, results@, t as nat);
        }
        let changed = relax_round_exec(&mut ppi, results);
        t += 1;
        if !changed {
            proof {
                assert(ppi@ == before);
                assert(relax_round(before, results@) == before);
                assert(((t - 1) as nat + (results@.len() - (t - 1)) as nat) == results@.len());
                lemma_settled_stays(before, results@, (results@.len() - (t - 1)) as nat);
                lemma_rounds_split(seed, results@, (t - 1) as nat, (results@.len() - (t - 1)) as nat);
                assert(before == relax_rounds(seed, results@, (t - 1) as nat));
                assert(relax_rounds(before, results@, (results@.len() - (t - 1)) as nat) == before);
                assert(relax_rounds(seed, results@, results@.len()) == before);
            }
            return ppi;
        }
    }
    ppi
}

proof fn lemma_rounds_split(ppi: Seq<Option<u64>>, rs: Seq<CalibrationResult>, a: nat, b: nat)
    ensures
        relax_rounds(relax_rounds(ppi, rs, a), rs, b) == relax_rounds(ppi, rs, a + b),
    decreases b,
{
    if b > 0 {
        lemma_rounds_split(ppi, rs, a, (b - 1) as nat);
    }
}

/// Where a monitor sits on the physical layout: position and size in
/// millionths of an inch.
#[derive(Clone, Copy, Debug, PartialEq, Eq, Structural)]
pub struct PhysicalPlacement {
    pub monitor_idx: usize,
    pub x: i128,
    pub y: i128,
    pub w: i128,
    pub h: i128,
}

/// Why a layout could not be reconstructed.
#[derive(Clone, Copy, Debug, PartialEq, Eq, Structural)]
pub enum LayoutError {
    /// The reference monitor's pixel density is unknown after propagation.
    NoReferenceDensity,
    /// A position grew past `COORD_LIMIT` millionths of an inch.
    OutOfRange,
    /// A calibrated monitor's parent is not placed, or a density of the pair
    /// is unknown, when its turn comes.
    UnplacedMonitor,
}

/// Largest position, in millionths of an inch, that a placement may take.
pub const COORD_LIMIT: i128 = 0x10_0000_0000_0000_0000_0000_0000;

/// Millionths of an inch per pixel at one thousandth of a pixel per inch.
pub const MICRO_INCH_SCALE: i128 = 1_000_000_000;

/// `a / b` rounded toward zero.
pub open spec fn div_toward_zero(a: int, b: int) -> int {
    if a >= 0 { a / b } else { -((-a) / b) }
}

/// A length of `pixels` at a density of `ppi` thousandths of a pixel per
/// inch, in millionths of an inch, rounded toward zero.
pub open spec fn to_micro_inches(pixels: int, ppi: u64) -> int {
    div_toward_zero(pixels * MICRO_INCH_SCALE, ppi as int)
}

fn to_micro_inches_exec(pixels: i64, ppi: u64) -> (r: i128)
    requires
        ppi > 0,
    ensures
        r == to_micro_inches(pixels as int, ppi),
        -0x8000_0000_0000_0000 * MICRO_INCH_SCALE <= r <= 0x8000_0000_0000_0000 * MICRO_INCH_SCALE,
        pixels >= 0 ==> r >= 0,
        0 <= pixels <= 0xFFFF_FFFF ==> r <= 0xFFFF_FFFF * MICRO_INCH_SCALE,
{
    proof {
        assert(-0x8000_0000_0000_0000 * MICRO_INCH_SCALE <= pixels * MICRO_INCH_SCALE <= 0x8000_0000_0000_0000 * MICRO_INCH_SCALE) by (nonlinear_arith)
            requires -0x8000_0000_0000_0000 <= pixels <= 0x8000_0000_0000_0000;
    }
    let v: i128 = pixels as i128 * MICRO_INCH_SCALE;
    if v >= 0 {
        proof {
            assert(0 <= (v as int) / (ppi as int) <= v as int) by (nonlinear_arith) requires v >= 0, ppi >= 1;
            assert(pixels <= 0xFFFF_FFFF ==> v <= 0xFFFF_FFFF * MICRO_INCH_SCALE) by (nonlinear_arith)
                requires v == pixels * MICRO_INCH_SCALE;
        }
        v / (ppi as i128)
    } else {
        proof {
            assert(0 <= (-(v as int)) / (ppi as int) <= -(v as int)) by (nonlinear_arith) requires v < 0, ppi >= 1;
        }
        -((-v) / (ppi as i128))
    }
}

/// Monitor `i` is the child of some calibration result.
pub open spec fn is_calibrated(rs: Seq<CalibrationResult>, i: int) -> bool {
    exists|k: int| 0 <= k < rs.len() && rs[k].monitor_id == i
}

/// `i` is the first monitor that is no calibration child and has a known density.
pub open spec fn is_first_anchor(ppi: Seq<Option<u64>>, rs: Seq<CalibrationResult>, i: int) -> bool {
    &&& 0 <= i < ppi.len()
    &&& !is_calibrated(rs, i) && ppi[i] is Some
    &&& forall|j: int| 0 <= j < i ==> is_calibrated(rs, j) || ppi[j] is None
}

/// The monitor placed first: the first anchor, or monitor 0 when there is none.
pub open spec fn reference_index(ppi: Seq<Option<u64>>, rs: Seq<CalibrationResult>) -> int {
    if exists|i: int| is_first_anchor(ppi, rs, i) {
        choose|i: int| is_first_anchor(ppi, rs, i)
    } else {
        0
    }
}

/// The reference monitor at the origin with its size at its density.
pub open spec fn reference_placement(m: Monitor, idx: int, ppi: u64) -> PhysicalPlacement {
    PhysicalPlacement {
        monitor_idx: idx as usize,
        x: 0,
        y: 0,
        w: to_micro_inches(m.resolution_x as int, ppi) as i128,
        h: to_micro_inches(m.resolution_y as int, ppi) as i128,
    }
}

/// Millionths of an inch per millionth of a pixel at one thousandth of a
/// pixel per inch.
pub const MICRO_INCH_PER_MICRO_PIXEL: i128 = 1000;

/// An offset in millionths of a pixel, in millionths of an inch at a
/// density of `ppi` thousandths of a pixel per inch, rounded toward zero.
pub open spec fn cross_offset(offset: int, ppi: u64) -> int {
    div_toward_zero(offset * MICRO_INCH_PER_MICRO_PIXEL, ppi as int)
}

/// The alignment offset of a pair split between the two monitors' local
/// origins, in millionths of each side's own pixels: `(bound, unbound)`.
/// The result stores one relative offset, measured in the parent's frame
/// (`relative_y` for side-by-side pairs, `relative_x` for stacked ones), so
/// it falls wholly on the parent's side and the child's side is its own
/// origin.
pub open spec fn alignment_sides(r: CalibrationResult) -> (int, int) {
    (if r.bind_horizontal { r.relative_y as int } else { r.relative_x as int }, 0)
}

/// The cross-axis shift of the child: each side of the alignment in inches
/// at that side's own density, the child's side taken from the parent's.
pub open spec fn alignment_inches(r: CalibrationResult, ppi_c: u64, ppi_p: u64) -> int {
    let (bound, unbound) = alignment_sides(r);
    cross_offset(bound, ppi_p) - cross_offset(unbound, ppi_c)
}

/// The child of `r` placed against its parent's placement: beside or below
/// it, on the side its desktop position puts it, the gap between them, and
/// shifted along the cross axis by `alignment_inches`.
pub open spec fn child_placement(
    parent: PhysicalPlacement,
    m: Monitor,
    mb: Monitor,
    r: CalibrationResult,
    ppi_c: u64,
    ppi_p: u64,
) -> (int, int, int, int) {
    let w = to_micro_inches(m.resolution_x as int, ppi_c);
    let h = to_micro_inches(m.resolution_y as int, ppi_c);
    let g = r.gap as int;
    let gap = to_micro_inches(if g >= 0 { g } else { -g }, ppi_p);
    let offset = alignment_inches(r, ppi_c, ppi_p);
    if r.bind_horizontal {
        let x = if m.position_x < mb.position_x {
            parent.x - w - gap
        } else {
            parent.x + parent.w + gap
        };
        (x, parent.y + offset, w, h)
    } else {
        let y = if m.position_y < mb.position_y {
            parent.y - h - gap
        } else {
            parent.y + parent.h + gap
        };
        (parent.x + offset, y, w, h)
    }
}

/// A position within `COORD_LIMIT` either way.
pub open spec fn within_limit(v: int) -> bool {
    -COORD_LIMIT <= v <= COORD_LIMIT
}

/// The placements after the first `k` results, indexed by monitor.
pub open spec fn placements_after(
    ms: Seq<Monitor>,
    rs: Seq<CalibrationResult>,
    ppi: Seq<Option<u64>>,
    k: nat,
) -> Result<Seq<Option<PhysicalPlacement>>, LayoutError>
    decreases k,
{
    if k == 0 {
        let rf = reference_index(ppi, rs);
        Ok(Seq::new(ms.len(), |i: int| if i == rf { Some(reference_placement(ms[rf], rf, ppi[rf]->Some_0)) } else { None }))
    } else {
        match placements_after(ms, rs, ppi, (k - 1) as nat) {
            Err(e) => Err(e),
            Ok(pl) => {
                let r = rs[k - 1];
                let c = r.monitor_id as int;
                let p = r.bound_to as int;
                if pl[p] is Some && ppi[c] is Some && ppi[p] is Some {
                    let (x, y, w, h) = child_placement(pl[p]->Some_0, ms[c], ms[p], r, ppi[c]->Some_0, ppi[p]->Some_0);
                    if within_limit(x) && within_limit(y) {
                        Ok(pl.update(c, Some(PhysicalPlacement { monitor_idx: c as usize, x: x as i128, y: y as i128, w: w as i128, h: h as i128 })))
                    } else {
                        Err(LayoutError::OutOfRange)
                    }
                } else {
                    Err(LayoutError::UnplacedMonitor)
                }
            },
        }
    }
}

/// The placed monitors in index order.
pub open spec fn flatten(pl: Seq<Option<PhysicalPlacement>>) -> Seq<PhysicalPlacement>
    decreases pl.len(),
{
    if pl.len() == 0 {
        Seq::empty()
    } else {
        let rest = flatten(pl.drop_last());
        match pl.last() {
            Some(p) => rest.push(p),
            None => rest,
        }
    }
}

/// The layout that reconstruction yields, before centring.
pub open spec fn layout_spec(ms: Seq<Monitor>, rs: Seq<CalibrationResult>) -> Result<Seq<PhysicalPlacement>, LayoutError> {
    let ppi = propagated(seed_density(ms), rs);
    let rf = reference_index(ppi, rs);
    if ppi[rf] is None {
        Err(LayoutError::NoReferenceDensity)
    } else {
        match placements_after(ms, rs, ppi, rs.len()) {
            Ok(pl) => Ok(flatten(pl)),
            Err(e) => Err(e),
        }
    }
}


/// Largest monitor size, in millionths of an inch: a 32-bit resolution at
/// the lowest density.
pub open spec fn size_bound() -> int {
    0xFFFF_FFFF * MICRO_INCH_SCALE
}

/// Every known density is positive.
pub open spec fn all_positive(ppi: Seq<Option<u64>>) -> bool {
    forall|i: int| 0 <= i < ppi.len() && (#[trigger] ppi[i]) is Some ==> ppi[i]->Some_0 > 0
}

proof fn lemma_round_positive(ppi: Seq<Option<u64>>, rs: Seq<CalibrationResult>)
    requires
        edges_within(rs, ppi.len() as int),
        all_positive(ppi),
    ensures
        all_positive(relax_round(ppi, rs)),
    decreases rs.len(),
{
    if rs.len() > 0 {
        let rs0 = rs.drop_last();
        assert(edges_within(rs0, ppi.len() as int)) by {
            assert forall|k: int| 0 <= k < rs0.len() implies (#[trigger] rs0[k]).monitor_id < ppi.len() && rs0[k].bound_to < ppi.len() by {
                assert(rs0[k] == rs[k]);
            }
        }
        lemma_round_positive(ppi, rs0);
        lemma_round_extends(ppi, rs0);
        assert(rs[rs.len() - 1] == rs.last());
    }
}

proof fn lemma_rounds_positive(ppi: Seq<Option<u64>>, rs: Seq<CalibrationResult>, t: nat)
    requires
        edges_within(rs, ppi.len() as int),
        all_positive(ppi),
    ensures
        all_positive(relax_rounds(ppi, rs, t)),
    decreases t,
{
    if t > 0 {
        lemma_rounds_positive(ppi, rs, (t - 1) as nat);
        lemma_rounds_len(ppi, rs, (t - 1) as nat);
        lemma_round_positive(relax_rounds(ppi, rs, (t - 1) as nat), rs);
    }
}

/// Every placement's position lies within the limit and its size within one step.
pub open spec fn placements_bounded(pl: Seq<Option<PhysicalPlacement>>) -> bool {
    forall|i: int|
        0 <= i < pl.len() && (#[trigger] pl[i]) is Some ==> {
            let q = pl[i]->Some_0;
            &&& within_limit(q.x as int) && within_limit(q.y as int)
            &&& 0 <= q.w <= size_bound() && 0 <= q.h <= size_bound()
            &&& q.monitor_idx == i
        }
}

/// Bound on a cross offset that can still keep a position within the limit.
pub open spec fn offset_bound() -> int {
    0x10_0000_0000_0000_0000_0000_0000int * 1000 + 999
}

fn cross_offset_exec(relative: i128, ppi_p: u64) -> (r: Option<i128>)
    requires
        ppi_p > 0,
    ensures
        match r {
            Some(v) => v == cross_offset(relative as int, ppi_p) && -offset_bound() <= v <= offset_bound(),
            None => cross_offset(relative as int, ppi_p) > offset_bound() || cross_offset(relative as int, ppi_p)
                < -offset_bound(),
        },
{
    let m: u128 = if relative >= 0 { relative as u128 } else { (-(relative + 1)) as u128 + 1 };
    let p: u128 = ppi_p as u128;
    let q: u128 = m / p;
    let rem: u128 = m % p;
    let ghost mi = m as int;
    proof {
        lemma_fundamental_div_mod(mi, p as int);
        lemma_hoist_over_denominator(rem as int * 1000, q as int * 1000, p as nat);
        assert(rem as int * 1000 + (q as int * 1000) * (p as int) == mi * 1000) by (nonlinear_arith)
            requires mi == p * q + rem;
        assert(0 <= (rem as int * 1000) / (p as int) <= rem as int * 1000) by (nonlinear_arith)
            requires 0 <= rem, p >= 1;
        assert(mi * 1000 / (p as int) == q as int * 1000 + (rem as int * 1000) / (p as int));
        assert(mi == if relative >= 0 { relative as int } else { -(relative as int) });
    }
    if q > 0x10_0000_0000_0000_0000_0000_0000 {
        proof {
            assert(q as int * 1000 > 0x10_0000_0000_0000_0000_0000_0000 * 1000 + 999);
        }
        return None;
    }
    proof {
        assert((rem as int * 1000) / (p as int) < 1000) by (nonlinear_arith)
            requires 0 <= rem < p, p >= 1;
    }
    let v: i128 = (q * 1000 + rem * 1000 / p) as i128;
    if relative >= 0 {
        Some(v)
    } else {
        Some(-v)
    }
}

fn place_child(parent: &PhysicalPlacement, m: &Monitor, mb: &Monitor, r: &CalibrationResult, ppi_c: u64, ppi_p: u64) -> (q: Option<(i128, i128, i128, i128)>)
    requires
        ppi_c > 0,
        ppi_p > 0,
        within_limit(parent.x as int),
        within_limit(parent.y as int),
        0 <= parent.w <= size_bound(),
        0 <= parent.h <= size_bound(),
    ensures
        match q {
            Some(q) => (q.0 as int, q.1 as int, q.2 as int, q.3 as int) == child_placement(*parent, *m, *mb, *r, ppi_c, ppi_p)
                && 0 <= q.2 <= size_bound() && 0 <= q.3 <= size_bound(),
            None => {
                let (x, y, w, h) = child_placement(*parent, *m, *mb, *r, ppi_c, ppi_p);
                !(within_limit(x) && within_limit(y))
            },
        },
{
    let w = to_micro_inches_exec(m.resolution_x as i64, ppi_c);
    let h = to_micro_inches_exec(m.resolution_y as i64, ppi_c);
    let g: i64 = r.gap as i64;
    let gap = to_micro_inches_exec(if g >= 0 { g } else { -g }, ppi_p);
    let offset = match cross_offset_exec(if r.bind_horizontal { r.relative_y } else { r.relative_x }, ppi_p) {
        Some(v) => v,
        None => return None,
    };
    if r.bind_horizontal {
        let x = if m.position_x < mb.position_x {
            parent.x - w - gap
        } else {
            parent.x + parent.w + gap
        };
        Some((x, parent.y + offset, w, h))
    } else {
        let y = if m.position_y < mb.position_y {
            parent.y - h - gap
        } else {
            parent.y + parent.h + gap
        };
        Some((parent.x + offset, y, w, h))
    }
}

fn is_calibrated_exec(results: &[CalibrationResult], i: usize) -> (r: bool)
    ensures
        r == is_calibrated(results@, i as int),
{
    let mut k: usize = 0;
    while k < results.len()
        invariant
            0 <= k <= results@.len(),
            forall|j: int| 0 <= j < k ==> results@[j].monitor_id != i,
        decreases results.len() - k,
    {
        if results[k].monitor_id == i {
            return true;
        }
        k += 1;
    }
    false
}

fn find_reference(ppi: &Vec<Option<u64>>, results: &[CalibrationResult]) -> (r: usize)
    ensures
        r == reference_index(ppi@, results@),
{
    let mut i: usize = 0;
    while i < ppi.len()
        invariant
            0 <= i <= ppi@.len(),
            forall|j: int| 0 <= j < i ==> is_calibrated(results@, j) || ppi@[j] is None,
        decreases ppi.len() - i,
    {
        if ppi[i].is_some() && !is_calibrated_exec(results, i) {
            proof {
                assert(is_first_anchor(ppi@, results@, i as int));
                let c = choose|c: int| is_first_anchor(ppi@, results@, c);
                if c < i {
                    assert(is_calibrated(results@, c) || ppi@[c] is None);
                } else if c > i {
                    assert(!is_calibrated(results@, i as int) && ppi@[i as int] is Some);
                }
            }
            return i;
        }
        i += 1;
    }
    proof {
        assert(!exists|c: int| is_first_anchor(ppi@, results@, c));
    }
    0
}

/// Reconstructs the physical layout: pixel densities propagated over the
/// calibration edges, a reference monitor at the origin, and every other
/// monitor placed against its parent in calibration order. A calibrated
/// monitor whose parent is not placed, or whose pair lacks a density, when
/// its turn comes fails with `UnplacedMonitor`.
pub fn compute_physical_placements(monitors: &[Monitor], results: &[CalibrationResult]) -> (r: Result<Vec<PhysicalPlacement>, LayoutError>)
    requires
        monitors@.len() > 0,
        edges_within(results@, monitors@.len() as int),
    ensures
        match r {
            Ok(v) => layout_spec(monitors@, results@) == Ok::<Seq<PhysicalPlacement>, LayoutError>(v@),
            Err(e) => layout_spec(monitors@, results@) == Err::<Seq<PhysicalPlacement>, LayoutError>(e),
        },
        r is Ok ==> placements_fit(r->Ok_0@),
        r is Ok ==> indices_below(r->Ok_0@, monitors@.len() as int),
{
    let ppi = propagate_density(monitors, results);
    let ghost ms = monitors@;
    let ghost rs = results@;
    proof {
        let seed = seed_density(ms);
        assert(all_positive(seed));
        lemma_rounds_positive(seed, rs, rs.len());
        lemma_rounds_len(seed, rs, rs.len());
    }
    let rf = find_reference(&ppi, results);
    let ref_ppi = match ppi[rf] {
        Some(d) => d,
        None => return Err(LayoutError::NoReferenceDensity),
    };
    let m = &monitors[rf];
    let first = PhysicalPlacement {
        monitor_idx: rf,
        x: 0,
        y: 0,
        w: to_micro_inches_exec(m.resolution_x as i64, ref_ppi),
        h: to_micro_inches_exec(m.resolution_y as i64, ref_ppi),
    };
    let mut placed: Vec<Option<PhysicalPlacement>> = Vec::new();
    let mut i: usize = 0;
    while i < monitors.len()
        invariant
            0 <= i <= monitors@.len(),
            rf < monitors@.len(),
            placed@.len() == i,
            forall|j: int| 0 <= j < i ==> placed@[j] == if j == rf { Some(first) } else { None::<PhysicalPlacement> },
        decreases monitors.len() - i,
    {
        placed.push(if i == rf { Some(first) } else { None });
        i += 1;
    }
    proof {
        assert(placed@ =~= placements_after(ms, rs, ppi@, 0)->Ok_0);
    }
    let mut k: usize = 0;
    while k < results.len()
        invariant
            0 <= k <= rs.len(),
            ms == monitors@,
            rs == results@,
            edges_within(rs, ms.len() as int),
            ppi@.len() == ms.len(),
            ppi@ == propagated(seed_density(ms), rs),
            rf == reference_index(ppi@, rs),
            ppi@[rf as int] is Some,
            placed@.len() == ms.len(),
            all_positive(ppi@),
            placements_after(ms, rs, ppi@, k as nat) == Ok::<Seq<Option<PhysicalPlacement>>, LayoutError>(placed@),
            placements_bounded(placed@),
        decreases results.len() - k,
    {
        let r = &results[k];
        proof {
            assert(rs[k as int] == *r);
        }
        let c = r.monitor_id;
        let p = r.bound_to;
        let placeable = match (placed[p], ppi[c], ppi[p]) {
            (Some(parent), Some(dc), Some(dp)) => Some((parent, dc, dp)),
            _ => None,
        };
        let (parent, dc, dp) = match placeable {
            Some(t) => t,
            None => {
                proof {
                    assert(placements_after(ms, rs, ppi@, (k + 1) as nat) == Err::<Seq<Option<PhysicalPlacement>>, LayoutError>(LayoutError::UnplacedMonitor));
                    lemma_placements_err_stays(ms, rs, ppi@, (k + 1) as nat, rs.len());
                }
                return Err(LayoutError::UnplacedMonitor);
            },
        };
        let placed_child = place_child(&parent, &monitors[c], &monitors[p], r, dc, dp);
        let fits = match placed_child {
            Some((x, _, _, _)) => -COORD_LIMIT <= x && x <= COORD_LIMIT && -COORD_LIMIT <= placed_child.unwrap().1
                && placed_child.unwrap().1 <= COORD_LIMIT,
            None => false,
        };
        if !fits {
            proof {
                assert(placements_after(ms, rs, ppi@, (k + 1) as nat) == Err::<Seq<Option<PhysicalPlacement>>, LayoutError>(LayoutError::OutOfRange));
                lemma_placements_err_stays(ms, rs, ppi@, (k + 1) as nat, rs.len());
            }
            return Err(LayoutError::OutOfRange);
        }
        let (x, y, w, h) = placed_child.unwrap();
        placed.set(c, Some(PhysicalPlacement { monitor_idx: c, x, y, w, h }));
        k += 1;
    }
    let mut out: Vec<PhysicalPlacement> = Vec::new();
    let mut j: usize = 0;
    while j < placed.len()
        invariant
            0 <= j <= placed@.len(),
            out@ == flatten(placed@.subrange(0, j as int)),
        decreases placed.len() - j,
    {
        proof {
            assert(placed@.subrange(0, j + 1).drop_last() =~= placed@.subrange(0, j as int));
        }
        if let Some(q) = placed[j] {
            out.push(q);
        }
        j += 1;
    }
    proof {
        assert(placed@.subrange(0, placed@.len() as int) =~= placed@);
        lemma_flatten_fits(placed@);
        lemma_flatten_indices(placed@);
    }
    Ok(out)
}

proof fn lemma_placements_err_stays(ms: Seq<Monitor>, rs: Seq<CalibrationResult>, ppi: Seq<Option<u64>>, k: nat, t: nat)
    requires
        k <= t,
        placements_after(ms, rs, ppi, k) is Err,
    ensures
        placements_after(ms, rs, ppi, t) == placements_after(ms, rs, ppi, k),
    decreases t - k,
{
    if k < t {
        lemma_placements_err_stays(ms, rs, ppi, k, (t - 1) as nat);
    }
}

/// Every placement lies within the limit, with a size within bounds.
pub open spec fn placements_fit(ps: Seq<PhysicalPlacement>) -> bool {
    forall|i: int|
        0 <= i < ps.len() ==> {
            let q = #[trigger] ps[i];
            &&& within_limit(q.x as int) && within_limit(q.y as int)
            &&& 0 <= q.w <= size_bound() && 0 <= q.h <= size_bound()
        }
}

proof fn lemma_flatten_fits(pl: Seq<Option<PhysicalPlacement>>)
    requires
        placements_bounded(pl),
    ensures
        placements_fit(flatten(pl)),
    decreases pl.len(),
{
    if pl.len() > 0 {
        let pl0 = pl.drop_last();
        assert(placements_bounded(pl0)) by {
            assert forall|i: int| 0 <= i < pl0.len() && (#[trigger] pl0[i]) is Some implies {
                let q = pl0[i]->Some_0;
                &&& within_limit(q.x as int) && within_limit(q.y as int)
                &&& 0 <= q.w <= size_bound() && 0 <= q.h <= size_bound()
                &&& q.monitor_idx == i
            } by {
                assert(pl0[i] == pl[i]);
            }
        }
        lemma_flatten_fits(pl0);
        assert(pl[pl.len() - 1] == pl.last());
    }
}

/// Every placement names a monitor below `n`.
pub open spec fn indices_below(ps: Seq<PhysicalPlacement>, n: int) -> bool {
    forall|i: int| 0 <= i < ps.len() ==> (#[trigger] ps[i]).monitor_idx < n
}

proof fn lemma_flatten_indices(pl: Seq<Option<PhysicalPlacement>>)
    requires
        placements_bounded(pl),
    ensures
        indices_below(flatten(pl), pl.len() as int),
    decreases pl.len(),
{
    if pl.len() > 0 {
        let pl0 = pl.drop_last();
        assert(placements_bounded(pl0)) by {
            assert forall|i: int| 0 <= i < pl0.len() && (#[trigger] pl0[i]) is Some implies {
                let q = pl0[i]->Some_0;
                &&& within_limit(q.x as int) && within_limit(q.y as int)
                &&& 0 <= q.w <= size_bound() && 0 <= q.h <= size_bound()
                &&& q.monitor_idx == i
            } by {
                assert(pl0[i] == pl[i]);
            }
        }
        lemma_flatten_indices(pl0);
        assert(pl[pl.len() - 1] == pl.last());
    }
}

/// Centre of the canvas that the layout is exported onto (144 by 96
/// inches), in millionths of an inch.
pub const CANVAS_CENTER_X: i128 = 72_000_000;
pub const CANVAS_CENTER_Y: i128 = 48_000_000;

pub open spec fn min_left(ps: Seq<PhysicalPlacement>) -> int
    decreases ps.len(),
{
    if ps.len() <= 1 {
        if ps.len() == 0 { 0 } else { ps[0].x as int }
    } else {
        let m = min_left(ps.drop_last());
        if ps.last().x < m { ps.last().x as int } else { m }
    }
}

pub open spec fn max_right(ps: Seq<PhysicalPlacement>) -> int
    decreases ps.len(),
{
    if ps.len() <= 1 {
        if ps.len() == 0 { 0 } else { ps[0].x + ps[0].w }
    } else {
        let m = max_right(ps.drop_last());
        if ps.last().x + ps.last().w > m { ps.last().x + ps.last().w } else { m }
    }
}

pub open spec fn min_top(ps: Seq<PhysicalPlacement>) -> int
    decreases ps.len(),
{
    if ps.len() <= 1 {
        if ps.len() == 0 { 0 } else { ps[0].y as int }
    } else {
        let m = min_top(ps.drop_last());
        if ps.last().y < m { ps.last().y as int } else { m }
    }
}

pub open spec fn max_bottom(ps: Seq<PhysicalPlacement>) -> int
    decreases ps.len(),
{
    if ps.len() <= 1 {
        if ps.len() == 0 { 0 } else { ps[0].y + ps[0].h }
    } else {
        let m = max_bottom(ps.drop_last());
        if ps.last().y + ps.last().h > m { ps.last().y + ps.last().h } else { m }
    }
}

/// The layout moved so that its bounding box's centre (rounded toward
/// zero) is the canvas centre; relative positions are kept.
pub open spec fn centered(ps: Seq<PhysicalPlacement>) -> Seq<PhysicalPlacement> {
    let dx = CANVAS_CENTER_X - div_toward_zero(min_left(ps) + max_right(ps), 2);
    let dy = CANVAS_CENTER_Y - div_toward_zero(min_top(ps) + max_bottom(ps), 2);
    Seq::new(ps.len(), |i: int| PhysicalPlacement { x: (ps[i].x + dx) as i128, y: (ps[i].y + dy) as i128, ..ps[i] })
}

proof fn lemma_extent_bounds(ps: Seq<PhysicalPlacement>)
    requires
        placements_fit(ps),
    ensures
        within_limit(min_left(ps)),
        within_limit(min_top(ps)),
        -COORD_LIMIT <= max_right(ps) <= COORD_LIMIT + size_bound(),
        -COORD_LIMIT <= max_bottom(ps) <= COORD_LIMIT + size_bound(),
    decreases ps.len(),
{
    if ps.len() > 1 {
        let ps0 = ps.drop_last();
        assert(placements_fit(ps0)) by {
            assert forall|i: int| 0 <= i < ps0.len() implies {
                let q = #[trigger] ps0[i];
                &&& within_limit(q.x as int) && within_limit(q.y as int)
                &&& 0 <= q.w <= size_bound() && 0 <= q.h <= size_bound()
            } by {
                assert(ps0[i] == ps[i]);
            }
        }
        lemma_extent_bounds(ps0);
        assert(ps[ps.len() - 1] == ps.last());
    } else if ps.len() == 1 {
        assert(ps[0] == ps[0]);
    }
}

fn div2_toward_zero(a: i128) -> (r: i128)
    requires
        a > i128::MIN,
    ensures
        r == div_toward_zero(a as int, 2),
{
    if a >= 0 { a / 2 } else { -((-a) / 2) }
}

/// Moves the layout so that its bounding box is centred on the canvas.
pub fn center_on_canvas(ps: &Vec<PhysicalPlacement>) -> (r: Vec<PhysicalPlacement>)
    requires
        placements_fit(ps@),
    ensures
        r@ == centered(ps@),
{
    proof {
        lemma_extent_bounds(ps@);
    }
    let n = ps.len();
    let mut left: i128 = 0;
    let mut right: i128 = 0;
    let mut top: i128 = 0;
    let mut bottom: i128 = 0;
    let mut i: usize = 0;
    while i < n
        invariant
            n == ps@.len(),
            0 <= i <= n,
            placements_fit(ps@),
            left == min_left(ps@.subrange(0, i as int)),
            right == max_right(ps@.subrange(0, i as int)),
            top == min_top(ps@.subrange(0, i as int)),
            bottom == max_bottom(ps@.subrange(0, i as int)),
        decreases n - i,
    {
        let q = ps[i];
        let ghost pre = ps@.subrange(0, i as int);
        let ghost cur = ps@.subrange(0, i + 1);
        proof {
            assert(cur.drop_last() =~= pre);
            assert(cur.last() == q);
            assert(i > 0 ==> pre[0] == cur[0]);
            assert(placements_fit(pre)) by {
                assert forall|j: int| 0 <= j < pre.len() implies {
                    let q = #[trigger] pre[j];
                    &&& within_limit(q.x as int) && within_limit(q.y as int)
                    &&& 0 <= q.w <= size_bound() && 0 <= q.h <= size_bound()
                } by {
                    assert(pre[j] == ps@[j]);
                }
            }
            lemma_extent_bounds(pre);
            assert(ps@[i as int] == q);
        }
        if i == 0 {
            left = q.x;
            right = q.x + q.w;
            top = q.y;
            bottom = q.y + q.h;
        } else {
            if q.x < left {
                left = q.x;
            }
            if q.x + q.w > right {
                right = q.x + q.w;
            }
            if q.y < top {
                top = q.y;
            }
            if q.y + q.h > bottom {
                bottom = q.y + q.h;
            }
        }
        i += 1;
    }
    proof {
        assert(ps@.subrange(0, n as int) =~= ps@);
    }
    let dx: i128 = CANVAS_CENTER_X - div2_toward_zero(left + right);
    let dy: i128 = CANVAS_CENTER_Y - div2_toward_zero(top + bottom);
    let mut out: Vec<PhysicalPlacement> = Vec::new();
    let mut j: usize = 0;
    while j < n
        invariant
            n == ps@.len(),
            0 <= j <= n,
            placements_fit(ps@),
            -0x100_0000_0000_0000_0000_0000_0000 <= dx <= 0x100_0000_0000_0000_0000_0000_0000,
            -0x100_0000_0000_0000_0000_0000_0000 <= dy <= 0x100_0000_0000_0000_0000_0000_0000,
            dx == CANVAS_CENTER_X - div_toward_zero(min_left(ps@) + max_right(ps@), 2),
            dy == CANVAS_CENTER_Y - div_toward_zero(min_top(ps@) + max_bottom(ps@), 2),
            out@.len() == j,
            forall|k: int| 0 <= k < j ==> out@[k] == centered(ps@)[k],
        decreases n - j,
    {
        let q = ps[j];
        proof {
            assert(ps@[j as int] == q);
        }
        out.push(PhysicalPlacement { x: q.x + dx, y: q.y + dy, ..q });
        j += 1;
    }
    proof {
        assert(out@ =~= centered(ps@));
    }
    out
}

/// Reconstruction is a function of its inputs: two runs on the same
/// monitors and results yield the same placements.
pub proof fn lemma_reconstruction_deterministic(
    ms: Seq<Monitor>,
    rs: Seq<CalibrationResult>,
    first: Result<Seq<PhysicalPlacement>, LayoutError>,
    second: Result<Seq<PhysicalPlacement>, LayoutError>,
)
    requires
        first == layout_spec(ms, rs),
        second == layout_spec(ms, rs),
    ensures
        first == second,
        first is Ok ==> centered(first->Ok_0) == centered(second->Ok_0),
{
}

/// Two monitor lists with the same geometry.
pub open spec fn same_geometry(a: Seq<Monitor>, b: Seq<Monitor>) -> bool {
    &&& a.len() == b.len()
    &&& forall|i: int|
        0 <= i < a.len() ==> {
            &&& (#[trigger] a[i]).resolution_x == b[i].resolution_x && a[i].resolution_y == b[i].resolution_y
            &&& a[i].position_x == b[i].position_x && a[i].position_y == b[i].position_y
        }
}

proof fn lemma_placements_geometry(a: Seq<Monitor>, b: Seq<Monitor>, rs: Seq<CalibrationResult>, ppi: Seq<Option<u64>>, k: nat)
    requires
        same_geometry(a, b),
        edges_within(rs, a.len() as int),
        k <= rs.len(),
        ppi.len() == a.len(),
        reference_index(ppi, rs) < a.len(),
    ensures
        placements_after(a, rs, ppi, k) == placements_after(b, rs, ppi, k),
    decreases k,
{
    if k == 0 {
        let rf = reference_index(ppi, rs);
        assert(a[rf] .resolution_x == b[rf].resolution_x);
        assert(placements_after(a, rs, ppi, 0)->Ok_0 =~= placements_after(b, rs, ppi, 0)->Ok_0);
    } else {
        lemma_placements_geometry(a, b, rs, ppi, (k - 1) as nat);
        let r = rs[k - 1];
        let c = r.monitor_id as int;
        let p = r.bound_to as int;
        assert(a[c].resolution_x == b[c].resolution_x);
        assert(a[p].resolution_x == b[p].resolution_x);
    }
}

/// Re-running reconstruction on monitors re-seeded with the densities that
/// propagation settled on gives the same layout.
pub proof fn lemma_reseeded_layout_unchanged(ms: Seq<Monitor>, ms2: Seq<Monitor>, rs: Seq<CalibrationResult>)
    requires
        ms.len() > 0,
        edges_within(rs, ms.len() as int),
        ms2.len() == ms.len(),
        forall|i: int|
            0 <= i < ms.len() ==> #[trigger] ms2[i] == (Monitor {
                ppi_milli: propagated(seed_density(ms), rs)[i],
                ..ms[i]
            }),
    ensures
        layout_spec(ms2, rs) == layout_spec(ms, rs),
{
    let seed = seed_density(ms);
    let fixed = propagated(seed, rs);
    lemma_rounds_positive(seed, rs, rs.len());
    lemma_rounds_len(seed, rs, rs.len());
    assert(seed_density(ms2) =~= fixed) by {
        assert forall|i: int| 0 <= i < ms.len() implies seed_density(ms2)[i] == fixed[i] by {
            assert(ms2[i].ppi_milli == fixed[i]);
            if fixed[i] is Some {
                assert(fixed[i]->Some_0 > 0);
            }
        }
    }
    lemma_propagation_converges(seed, rs);
    assert(same_geometry(ms2, ms)) by {
        assert forall|i: int| 0 <= i < ms2.len() implies {
            &&& (#[trigger] ms2[i]).resolution_x == ms[i].resolution_x && ms2[i].resolution_y == ms[i].resolution_y
            &&& ms2[i].position_x == ms[i].position_x && ms2[i].position_y == ms[i].position_y
        } by {
            assert(ms2[i] == Monitor { ppi_milli: fixed[i], ..ms[i] });
        }
    }
    let rf = reference_index(fixed, rs);
    if exists|i: int| is_first_anchor(fixed, rs, i) {
        let c = choose|i: int| is_first_anchor(fixed, rs, i);
        assert(rf < ms.len());
    }
    lemma_placements_geometry(ms2, ms, rs, fixed, rs.len());
}

/// When reconstruction succeeds up to result `k`, the reference monitor and
/// the child of every one of those results hold a placement.
pub proof fn lemma_calibrated_monitors_placed(ms: Seq<Monitor>, rs: Seq<CalibrationResult>, ppi: Seq<Option<u64>>, k: nat)
    requires
        edges_within(rs, ms.len() as int),
        k <= rs.len(),
        reference_index(ppi, rs) < ms.len(),
        placements_after(ms, rs, ppi, k) is Ok,
    ensures
        ({
            let pl = placements_after(ms, rs, ppi, k)->Ok_0;
            &&& pl.len() == ms.len()
            &&& pl[reference_index(ppi, rs)] is Some
            &&& forall|j: int| 0 <= j < k ==> pl[(#[trigger] rs[j]).monitor_id as int] is Some
        }),
    decreases k,
{
    if k > 0 {
        lemma_calibrated_monitors_placed(ms, rs, ppi, (k - 1) as nat);
        let prev = placements_after(ms, rs, ppi, (k - 1) as nat)->Ok_0;
        let pl = placements_after(ms, rs, ppi, k)->Ok_0;
        let c = rs[k - 1].monitor_id as int;
        assert(pl == prev.update(c, pl[c]));
        assert forall|j: int| 0 <= j < k implies pl[(#[trigger] rs[j]).monitor_id as int] is Some by {
            if j < k - 1 {
                assert(prev[rs[j].monitor_id as int] is Some);
            }
        }
    }
}

} // verus!
