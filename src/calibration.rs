use crate::monitor::Monitor;
use crate::plan::{
    bind_horizontal_spec, compute_calibration_order, determine_bind_horizontal, find_primary, is_greedy_order,
    primary_index,
};
use crate::solver::{
    chained_scale, gap_position, gap_position_spec, scale_solution_spec, solve_scale, span_child, span_parent,
    MonitorRect, ScaleSolution, SCALE_ONE,
};
use vstd::prelude::*;

verus! {

/// The two steps of the interaction for one pair.
#[derive(Clone, Copy, Debug, PartialEq, Eq, Structural)]
pub enum OverlayStep {
    Scale,
    Gap,
}

/// What the interactive surface is asked to show for one step.
#[derive(Clone, Debug)]
pub struct OverlayConfig {
    pub step: OverlayStep,
    /// The monitor being calibrated.
    pub m1_idx: usize,
    /// The already bound monitor it is calibrated against.
    pub m2_idx: usize,
    pub monitors: Vec<MonitorRect>,
    pub bind_horizontal: bool,
    /// Midpoints of each monitor's two lines from the scale step, `[child, parent]`.
    pub temp_middles: Option<[i32; 2]>,
}

/// What the interactive surface hands back: four line positions
/// `[near child, near parent, far child, far parent]` after a scale step,
/// the gap after a gap step.
#[derive(Clone, Copy, Debug)]
pub struct OverlayResult {
    pub cancelled: bool,
    pub segments: [i32; 4],
    pub gap: i32,
}

/// Why a calibration run ended without results.
#[derive(Clone, Copy, Debug, PartialEq, Eq, Structural)]
pub enum CalibrationError {
    /// Fewer than two monitors.
    InsufficientMonitors,
    /// The user aborted a step; the whole run is discarded.
    InteractionCancelled,
    /// The interactive surface could not be started or reached.
    InteractionSurfaceFailure,
    /// A chained scale grew past what 64 bits hold.
    ScaleOutOfRange,
    /// A chained scale came out as zero (the child's lines coincide, or the
    /// ratio is below one millionth); scales must be positive.
    ScaleCollapsed,
}

/// The calibration of one non-primary monitor against its parent.
#[derive(Clone, Copy, Debug, PartialEq, Eq, Structural)]
pub struct CalibrationResult {
    pub monitor_id: usize,
    /// Scale relative to the primary monitor, in millionths.
    pub scale: u64,
    /// Position relative to the parent, in millionths of a parent pixel.
    /// Along the calibration axis it is where the gap puts the child; across
    /// it (`relative_y` for side-by-side pairs, `relative_x` for stacked
    /// ones) it is the alignment offset, the only one that reconstruction
    /// reads.
    pub relative_x: i128,
    pub relative_y: i128,
    pub gap: i32,
    pub bound_to: usize,
    pub bind_horizontal: bool,
}

/// The scale step of the current pair, done and waiting for its gap step.
#[derive(Clone, Copy, Debug)]
pub struct PendingPair {
    pub solution: ScaleSolution,
    pub middles: [i32; 2],
}

/// A monitor's rectangle relative to the virtual screen's origin.
pub open spec fn rect_of(m: Monitor, vx: i32, vy: i32) -> MonitorRect {
    MonitorRect {
        x: (m.position_x - vx) as i64,
        y: (m.position_y - vy) as i64,
        w: m.resolution_x as i64,
        h: m.resolution_y as i64,
    }
}

/// The midpoint of two positions, rounded toward zero.
pub open spec fn midpoint(a: int, b: int) -> int {
    let s = a + b;
    if s >= 0 { s / 2 } else { -((-s) / 2) }
}

/// The result recorded for pair `(c, p)` once both of its steps are done.
pub open spec fn pair_result(
    rects: Seq<MonitorRect>,
    c: usize,
    p: usize,
    horizontal: bool,
    parent_scale: u64,
    sol: ScaleSolution,
    gap: i32,
) -> CalibrationResult {
    let rc = rects[c as int];
    let rp = rects[p as int];
    let along = if horizontal {
        gap_position_spec(rc.x < rp.x, rc.w as int, rp.w as int, sol.scale as int, parent_scale as int, gap as int)
    } else {
        gap_position_spec(rc.y < rp.y, rc.h as int, rp.h as int, sol.scale as int, parent_scale as int, gap as int)
    };
    CalibrationResult {
        monitor_id: c,
        scale: sol.scale,
        relative_x: if horizontal { along as i128 } else { sol.offset },
        relative_y: if horizontal { sol.offset } else { along as i128 },
        gap,
        bound_to: p,
        bind_horizontal: horizontal,
    }
}

/// The decisions of one calibration run: which pair and step the
/// interactive surface shows next, and what each answer contributes.
/// The caller shows each requested step and submits what came back.
pub struct CalibrationSession {
    pub rects: Vec<MonitorRect>,
    pub pairs: Vec<(usize, usize)>,
    pub orientations: Vec<bool>,
    /// Each monitor's scale so far, in millionths; the primary's is one.
    pub scales: Vec<u64>,
    pub results: Vec<CalibrationResult>,
    pub pending: Option<PendingPair>,
    /// The primary monitor, root of the pairs.
    pub root: usize,
}

impl CalibrationSession {
    /// The session's vectors agree in length, pairs name known monitors,
    /// the results so far are those of the first pairs, in order, and
    /// rectangles stay clear of overflow.
    pub open spec fn wf(&self) -> bool {
        &&& self.rects@.len() >= 2
        &&& self.pairs@.len() == self.orientations@.len()
        &&& self.scales@.len() == self.rects@.len()
        &&& self.results@.len() <= self.pairs@.len()
        &&& self.pending is Some ==> self.results@.len() < self.pairs@.len()
        &&& self.root < self.rects@.len()
        &&& self.scales@[self.root as int] == SCALE_ONE
        &&& forall|i: int| 0 <= i < self.scales@.len() ==> #[trigger] self.scales@[i] > 0
        &&& forall|k: int| 0 <= k < self.results@.len() ==> (#[trigger] self.results@[k]).scale > 0
        &&& forall|k: int| 0 <= k < self.pairs@.len() ==> (#[trigger] self.pairs@[k]).0 != self.root
        &&& forall|k1: int, k2: int|
            0 <= k1 < k2 < self.pairs@.len() ==> (#[trigger] self.pairs@[k1]).0 != (#[trigger] self.pairs@[k2]).0
        &&& forall|k: int|
            0 <= k < self.results@.len() ==> self.scales@[self.pairs@[k].0 as int] == (#[trigger] self.results@[k]).scale
        &&& self.pending is Some ==> self.scales@[self.pairs@[self.results@.len() as int].0 as int]
            == self.pending->Some_0.solution.scale
        &&& forall|k: int|
            0 <= k < self.pairs@.len() ==> self.pairs@[k].0 < self.rects@.len() && self.pairs@[k].1
                < self.rects@.len()
        &&& forall|k: int|
            0 <= k < self.results@.len() ==> {
                let r = #[trigger] self.results@[k];
                &&& r.monitor_id == self.pairs@[k].0
                &&& r.bound_to == self.pairs@[k].1
                &&& r.bind_horizontal == self.orientations@[k]
            }
        &&& forall|i: int|
            0 <= i < self.rects@.len() ==> {
                let r = #[trigger] self.rects@[i];
                &&& -0x1_0000_0000 <= r.x <= 0x1_0000_0000
                &&& -0x1_0000_0000 <= r.y <= 0x1_0000_0000
                &&& 0 <= r.w <= 0xFFFF_FFFF
                &&& 0 <= r.h <= 0xFFFF_FFFF
            }
    }

    /// Every pair has both of its steps.
    pub open spec fn finished(&self) -> bool {
        self.results@.len() == self.pairs@.len()
    }

    /// Starts a run over the given monitors, placed relative to the virtual
    /// screen's origin `(vx, vy)`. Fewer than two monitors fail at once.
    pub fn start(monitors: &[Monitor], vx: i32, vy: i32) -> (r: Result<CalibrationSession, CalibrationError>)
        ensures
            monitors@.len() < 2 <==> r is Err,
            r is Err ==> r == Err::<CalibrationSession, CalibrationError>(CalibrationError::InsufficientMonitors),
            r is Ok ==> {
                let s = r->Ok_0;
                &&& s.wf()
                &&& s.rects@.len() == monitors@.len()
                &&& forall|i: int| 0 <= i < monitors@.len() ==> s.rects@[i] == rect_of(monitors@[i], vx, vy)
                &&& is_greedy_order(monitors@, s.pairs@)
                &&& forall|k: int|
                    0 <= k < s.pairs@.len() ==> s.orientations@[k] == bind_horizontal_spec(
                        monitors@[s.pairs@[k].0 as int],
                        monitors@[s.pairs@[k].1 as int],
                    )
                &&& forall|i: int| 0 <= i < monitors@.len() ==> s.scales@[i] == SCALE_ONE
                &&& s.results@.len() == 0
                &&& s.pending is None
                &&& s.root == primary_index(monitors@)
            },
    {
        if monitors.len() < 2 {
            return Err(CalibrationError::InsufficientMonitors);
        }
        let pairs = compute_calibration_order(monitors);
        let root = find_primary(monitors);
        let mut rects: Vec<MonitorRect> = Vec::new();
        let mut scales: Vec<u64> = Vec::new();
        let mut i: usize = 0;
        while i < monitors.len()
            invariant
                0 <= i <= monitors@.len(),
                rects@.len() == i,
                scales@.len() == i,
                forall|j: int| 0 <= j < i ==> rects@[j] == rect_of(monitors@[j], vx, vy),
                forall|j: int| 0 <= j < i ==> scales@[j] == SCALE_ONE,
            decreases monitors.len() - i,
        {
            let m = &monitors[i];
            rects.push(MonitorRect {
                x: m.position_x as i64 - vx as i64,
                y: m.position_y as i64 - vy as i64,
                w: m.resolution_x as i64,
                h: m.resolution_y as i64,
            });
            scales.push(SCALE_ONE);
            i += 1;
        }
        let mut orientations: Vec<bool> = Vec::new();
        let mut k: usize = 0;
        while k < pairs.len()
            invariant
                0 <= k <= pairs@.len(),
                orientations@.len() == k,
                monitors@.len() >= 2,
                crate::plan::is_spanning_tree_order(monitors@.len() as int, crate::plan::primary_index(monitors@), pairs@),
                forall|j: int|
                    0 <= j < k ==> orientations@[j] == bind_horizontal_spec(
                        monitors@[pairs@[j].0 as int],
                        monitors@[pairs@[j].1 as int],
                    ),
            decreases pairs.len() - k,
        {
            let (c, p) = pairs[k];
            orientations.push(determine_bind_horizontal(&monitors[c], &monitors[p]));
            k += 1;
        }
        Ok(CalibrationSession { rects, pairs, orientations, scales, results: Vec::new(), pending: None, root })
    }
    /// The step the interactive surface is to show next; `None` once every
    /// pair is done.
    pub fn next_request(&self) -> (r: Option<OverlayConfig>)
        requires
            self.wf(),
        ensures
            self.finished() <==> r is None,
            r is Some ==> {
                let cfg = r->Some_0;
                let k = self.results@.len() as int;
                &&& cfg.m1_idx == self.pairs@[k].0
                &&& cfg.m2_idx == self.pairs@[k].1
                &&& cfg.bind_horizontal == self.orientations@[k]
                &&& cfg.monitors@ == self.rects@
                &&& match self.pending {
                    None => cfg.step == OverlayStep::Scale && cfg.temp_middles is None,
                    Some(pp) => cfg.step == OverlayStep::Gap && cfg.temp_middles == Some(pp.middles),
                }
            },
    {
        let k = self.results.len();
        if k == self.pairs.len() {
            return None;
        }
        let (c, p) = self.pairs[k];
        let mut monitors: Vec<MonitorRect> = Vec::new();
        let mut i: usize = 0;
        while i < self.rects.len()
            invariant
                0 <= i <= self.rects@.len(),
                monitors@ == self.rects@.subrange(0, i as int),
            decreases self.rects.len() - i,
        {
            monitors.push(self.rects[i]);
            i += 1;
            proof {
                assert(monitors@ =~= self.rects@.subrange(0, i as int));
            }
        }
        proof {
            assert(monitors@ =~= self.rects@);
        }
        let (step, temp_middles) = match self.pending {
            None => (OverlayStep::Scale, None),
            Some(pp) => (OverlayStep::Gap, Some(pp.middles)),
        };
        Some(OverlayConfig { step, m1_idx: c, m2_idx: p, monitors, bind_horizontal: self.orientations[k], temp_middles })
    }

    /// Takes what the interactive surface handed back for the requested step.
    /// A cancelled step ends the whole run with `InteractionCancelled`, and the
    /// results of earlier pairs go with the session.
    pub fn submit(self, answer: OverlayResult) -> (r: Result<CalibrationSession, CalibrationError>)
        requires
            self.wf(),
            !self.finished(),
        ensures
            r is Ok ==> r->Ok_0.root == self.root,
            ({
                let k = self.results@.len() as int;
                let c = self.pairs@[k].0;
                let p = self.pairs@[k].1;
                let horizontal = self.orientations@[k];
                if answer.cancelled {
                    r == Err::<CalibrationSession, CalibrationError>(CalibrationError::InteractionCancelled)
                } else {
                    match self.pending {
                        None => {
                            let (scale, offset, nc, np) = scale_solution_spec(
                                answer.segments,
                                self.rects@[c as int],
                                self.rects@[p as int],
                                horizontal,
                                self.scales@[p as int],
                            );
                            if scale > u64::MAX {
                                r == Err::<CalibrationSession, CalibrationError>(
                                    CalibrationError::ScaleOutOfRange,
                                )
                            } else if scale == 0 {
                                r == Err::<CalibrationSession, CalibrationError>(
                                    CalibrationError::ScaleCollapsed,
                                )
                            } else {
                                &&& r is Ok
                                &&& r->Ok_0.wf()
                                &&& r->Ok_0.rects == self.rects
                                &&& r->Ok_0.pairs == self.pairs
                                &&& r->Ok_0.orientations == self.orientations
                                &&& r->Ok_0.results == self.results
                                &&& r->Ok_0.scales@ == self.scales@.update(c as int, scale as u64)
                                &&& r->Ok_0.pending == Some(
                                    PendingPair {
                                        solution: ScaleSolution {
                                            scale: scale as u64,
                                            offset: offset as i128,
                                            near_child: nc as i64,
                                            near_parent: np as i64,
                                        },
                                        middles: [
                                            midpoint(answer.segments[0] as int, answer.segments[2] as int) as i32,
                                            midpoint(answer.segments[1] as int, answer.segments[3] as int) as i32,
                                        ],
                                    },
                                )
                            }
                        },
                        Some(pp) => {
                            &&& r is Ok
                            &&& r->Ok_0.wf()
                            &&& r->Ok_0.rects == self.rects
                            &&& r->Ok_0.pairs == self.pairs
                            &&& r->Ok_0.orientations == self.orientations
                            &&& r->Ok_0.scales == self.scales
                            &&& r->Ok_0.pending is None
                            &&& r->Ok_0.results@ == self.results@.push(
                                pair_result(self.rects@, c, p, horizontal, self.scales@[p as int], pp.solution, answer.gap),
                            )
                        },
                    }
                }
            }),
    {
        if answer.cancelled {
            return Err(CalibrationError::InteractionCancelled);
        }
        let k = self.results.len();
        let (c, p) = self.pairs[k];
        let horizontal = self.orientations[k];
        let CalibrationSession { rects, pairs, orientations, mut scales, mut results, pending, root } = self;
        match pending {
            None => {
                let seg = answer.segments;
                let sol = match solve_scale(seg, rects[c], rects[p], horizontal, scales[p]) {
                    Some(sol) => sol,
                    None => return Err(CalibrationError::ScaleOutOfRange),
                };
                if sol.scale == 0 {
                    return Err(CalibrationError::ScaleCollapsed);
                }
                scales.set(c, sol.scale);
                let middles = [half_sum(seg[0], seg[2]), half_sum(seg[1], seg[3])];
                Ok(CalibrationSession {
                    rects,
                    pairs,
                    orientations,
                    scales,
                    results,
                    pending: Some(PendingPair { solution: sol, middles }),
                    root,
                })
            },
            Some(pp) => {
                let rc = rects[c];
                let rp = rects[p];
                let sol = pp.solution;
                let along = if horizontal {
                    gap_position(rc.x < rp.x, rc.w, rp.w, sol.scale, scales[p], answer.gap)
                } else {
                    gap_position(rc.y < rp.y, rc.h, rp.h, sol.scale, scales[p], answer.gap)
                };
                let result = CalibrationResult {
                    monitor_id: c,
                    scale: sol.scale,
                    relative_x: if horizontal { along } else { sol.offset },
                    relative_y: if horizontal { sol.offset } else { along },
                    gap: answer.gap,
                    bound_to: p,
                    bind_horizontal: horizontal,
                };
                results.push(result);
                Ok(CalibrationSession { rects, pairs, orientations, scales, results, pending: None, root })
            },
        }
    }

    /// The results of a finished run, one per non-primary monitor, in
    /// calibration order.
    pub fn into_results(self) -> (r: Vec<CalibrationResult>)
        requires
            self.wf(),
            self.finished(),
        ensures
            r@ == self.results@,
    {
        self.results
    }
}

/// The midpoint of two line positions, rounded toward zero.
fn half_sum(a: i32, b: i32) -> (r: i32)
    ensures
        r == midpoint(a as int, b as int),
{
    let s: i64 = a as i64 + b as i64;
    if s >= 0 {
        (s / 2) as i32
    } else {
        (-((-s) / 2)) as i32
    }
}

/// A child's scale chains through its parent's own result: the scale step
/// of the next pair multiplies the scale recorded for the parent (whose
/// result is `j`) by the ratio of the spans, rather than starting afresh.
pub proof fn lemma_scale_chains_through_parent(s: CalibrationSession, answer: OverlayResult, j: int)
    requires
        s.wf(),
        !s.finished(),
        s.pending is None,
        0 <= j < s.results@.len(),
        s.results@[j].monitor_id == s.pairs@[s.results@.len() as int].1,
    ensures
        ({
            let k = s.results@.len() as int;
            let c = s.pairs@[k].0 as int;
            let p = s.pairs@[k].1 as int;
            scale_solution_spec(answer.segments, s.rects@[c], s.rects@[p], s.orientations@[k], s.scales@[p]).0
                == chained_scale(s.results@[j].scale as int, span_child(answer.segments), span_parent(answer.segments))
        }),
{
    assert(s.scales@[s.pairs@[j].0 as int] == s.results@[j].scale);
}

/// The pair of the primary monitor's direct child starts from a scale of one.
pub proof fn lemma_scale_starts_at_one(s: CalibrationSession, answer: OverlayResult)
    requires
        s.wf(),
        !s.finished(),
        s.pending is None,
        s.pairs@[s.results@.len() as int].1 == s.root,
    ensures
        ({
            let k = s.results@.len() as int;
            let c = s.pairs@[k].0 as int;
            let p = s.pairs@[k].1 as int;
            scale_solution_spec(answer.segments, s.rects@[c], s.rects@[p], s.orientations@[k], s.scales@[p]).0
                == chained_scale(SCALE_ONE as int, span_child(answer.segments), span_parent(answer.segments))
        }),
{
}

} // verus!
