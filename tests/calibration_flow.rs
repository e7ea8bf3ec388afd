use calibrator::calibration::{CalibrationError, CalibrationResult, CalibrationSession, OverlayResult, OverlayStep};
use calibrator::layout::{compute_physical_placements, propagate_density};
use calibrator::monitor::Monitor;
use calibrator::plan::{compute_calibration_order, determine_bind_horizontal};
use calibrator::solver::{solve_scale, MonitorRect, SCALE_ONE};

fn scale_answer(segments: [i32; 4]) -> OverlayResult {
    OverlayResult { cancelled: false, segments, gap: 0 }
}

fn gap_answer(gap: i32) -> OverlayResult {
    OverlayResult { cancelled: false, segments: [0; 4], gap }
}

fn cancelled() -> OverlayResult {
    OverlayResult { cancelled: true, segments: [0; 4], gap: 0 }
}

fn run_all(session: CalibrationSession, answers: &[OverlayResult]) -> Result<CalibrationSession, CalibrationError> {
    let mut s = session;
    for a in answers {
        s = s.submit(*a)?;
    }
    Ok(s)
}

#[test]
fn two_monitors_side_by_side_place_exactly_one_width_apart() {
    let mut a = Monitor::new(0, true, 1920, 1080, 0, 0);
    a.ppi_milli = Some(96_000);
    let b = Monitor::new(1, false, 1920, 1080, 1920, 0);
    let monitors = vec![a, b];
    let session = CalibrationSession::start(&monitors, 0, 0).unwrap();
    let req = session.next_request().unwrap();
    assert_eq!(req.step, OverlayStep::Scale);
    assert_eq!((req.m1_idx, req.m2_idx), (1, 0));
    assert!(req.bind_horizontal);
    let session = session.submit(scale_answer([270, 270, 810, 810])).unwrap();
    let req = session.next_request().unwrap();
    assert_eq!(req.step, OverlayStep::Gap);
    assert_eq!(req.temp_middles, Some([540, 540]));
    let session = session.submit(gap_answer(0)).unwrap();
    assert!(session.next_request().is_none());
    let results = session.into_results();
    assert_eq!(results.len(), 1);
    assert_eq!(results[0].scale, SCALE_ONE);
    assert_eq!(results[0].bound_to, 0);
    assert_eq!(results[0].monitor_id, 1);

    let placements = compute_physical_placements(&monitors, &results).unwrap();
    assert_eq!(placements.len(), 2);
    let width_of_primary = 1920i128 * 1_000_000_000 / 96_000;
    assert_eq!(placements[0].x, 0);
    assert_eq!(placements[0].w, width_of_primary);
    assert_eq!(placements[1].x - placements[0].x, width_of_primary);
    assert_eq!(placements[1].y - placements[0].y, 0);
}

#[test]
fn chained_scale_multiplies_along_the_tree() {
    let a = Monitor::new(0, true, 1000, 1000, 0, 0);
    let b = Monitor::new(1, false, 1000, 1000, 1000, 0);
    let c = Monitor::new(2, false, 1000, 1000, 2000, 0);
    let monitors = vec![a, b, c];
    let pairs = compute_calibration_order(&monitors);
    assert_eq!(pairs, vec![(1, 0), (2, 1)]);
    let s = CalibrationSession::start(&monitors, 0, 0).unwrap();
    // B against A: child span 600, parent span 400 -> 1.5
    let s = s.submit(scale_answer([100, 100, 700, 500])).unwrap();
    let s = s.submit(gap_answer(0)).unwrap();
    // C against B: child span 300, parent span 400 -> 1.5 * 0.75
    let s = s.submit(scale_answer([100, 100, 400, 500])).unwrap();
    let s = s.submit(gap_answer(0)).unwrap();
    let results = s.into_results();
    let scale_b = results[0].scale;
    assert_eq!(scale_b, 1_500_000);
    assert_eq!(results[1].scale, scale_b * 300 / 400);
    assert_eq!(results[1].scale, 1_125_000);
}

#[test]
fn cancelling_a_gap_step_discards_the_whole_run() {
    let monitors = vec![
        Monitor::new(0, true, 1000, 1000, 0, 0),
        Monitor::new(1, false, 1000, 1000, 1000, 0),
        Monitor::new(2, false, 1000, 1000, 2000, 0),
        Monitor::new(3, false, 1000, 1000, 3000, 0),
    ];
    let s = CalibrationSession::start(&monitors, 0, 0).unwrap();
    let r = run_all(
        s,
        &[scale_answer([100, 100, 500, 500]), gap_answer(3), scale_answer([100, 100, 500, 500]), cancelled()],
    );
    assert_eq!(r.err(), Some(CalibrationError::InteractionCancelled));
}

#[test]
fn cancelling_a_scale_step_fails_the_run() {
    let monitors = vec![Monitor::new(0, true, 800, 600, 0, 0), Monitor::new(1, false, 800, 600, 0, 600)];
    let s = CalibrationSession::start(&monitors, 0, 0).unwrap();
    assert_eq!(s.submit(cancelled()).err(), Some(CalibrationError::InteractionCancelled));
}

#[test]
fn a_single_monitor_is_insufficient() {
    let monitors = vec![Monitor::new(0, true, 1920, 1080, 0, 0)];
    assert_eq!(CalibrationSession::start(&monitors, 0, 0).err(), Some(CalibrationError::InsufficientMonitors));
    assert!(compute_calibration_order(&monitors).is_empty());
    let none: Vec<Monitor> = Vec::new();
    assert_eq!(CalibrationSession::start(&none, 0, 0).err(), Some(CalibrationError::InsufficientMonitors));
}

#[test]
fn planner_binds_nearest_first_and_starts_at_primary() {
    let monitors = vec![
        Monitor::new(0, false, 1920, 1080, -1920, 0),
        Monitor::new(1, true, 1920, 1080, 0, 0),
        Monitor::new(2, false, 1920, 1080, 1920, 0),
        Monitor::new(3, false, 1920, 1080, 0, -1080),
    ];
    let pairs = compute_calibration_order(&monitors);
    assert_eq!(pairs.len(), 3);
    // centres: 0 and 2 are 1920 away from 1, 3 is 1080 away.
    assert_eq!(pairs[0], (3, 1));
    // equal distances: the first in scan order (lower unbound index) wins.
    assert_eq!(pairs[1], (0, 1));
    assert_eq!(pairs[2], (2, 1));
}

#[test]
fn planner_uses_first_monitor_when_none_is_primary() {
    let monitors = vec![Monitor::new(0, false, 100, 100, 0, 0), Monitor::new(1, false, 100, 100, 500, 0)];
    assert_eq!(compute_calibration_order(&monitors), vec![(1, 0)]);
}

#[test]
fn orientation_is_symmetric_and_follows_overlap() {
    let a = Monitor::new(0, true, 1920, 1080, 0, 0);
    let b = Monitor::new(1, false, 1920, 1080, 1920, 200);
    let c = Monitor::new(2, false, 1920, 1080, 300, 1080);
    assert!(determine_bind_horizontal(&a, &b));
    assert!(determine_bind_horizontal(&b, &a));
    assert!(!determine_bind_horizontal(&a, &c));
    assert!(!determine_bind_horizontal(&c, &a));
    // no overlap either way: both overlaps are 0, judged side by side
    let d = Monitor::new(3, false, 100, 100, 5000, 5000);
    assert!(determine_bind_horizontal(&a, &d));
}

fn rect(x: i64, y: i64, w: i64, h: i64) -> MonitorRect {
    MonitorRect { x, y, w, h }
}

#[test]
fn equal_spans_keep_the_parent_scale() {
    let s = solve_scale([10, 20, 110, 120], rect(0, 0, 500, 500), rect(500, 0, 500, 500), true, 1_234_567).unwrap();
    assert_eq!(s.scale, 1_234_567);
    // offset = near_parent * ONE - near_child * scale
    assert_eq!(s.offset, 20 * 1_000_000 - 10 * 1_234_567);
    assert_eq!(s.near_child, 10);
    assert_eq!(s.near_parent, 20);
}

#[test]
fn collapsed_parent_span_keeps_the_parent_scale() {
    let s = solve_scale([0, 50, 900, 51], rect(0, 0, 500, 500), rect(500, 0, 500, 500), true, 2_000_000).unwrap();
    assert_eq!(s.scale, 2_000_000);
    let s = solve_scale([0, 50, 900, 50], rect(0, 0, 500, 500), rect(500, 0, 500, 500), false, 2_000_000).unwrap();
    assert_eq!(s.scale, 2_000_000);
}

#[test]
fn scale_is_measured_from_each_monitors_origin() {
    // vertical binding: offsets along x, relative to each rect's x
    let s = solve_scale([110, 1020, 310, 1120], rect(100, 0, 500, 500), rect(1000, 0, 500, 500), false, SCALE_ONE)
        .unwrap();
    assert_eq!(s.scale, 2_000_000);
    assert_eq!(s.near_child, 10);
    assert_eq!(s.near_parent, 20);
    assert_eq!(s.offset, 20 * 1_000_000 - 10 * 2_000_000);
}

#[test]
fn oversized_scale_is_reported() {
    let r = solve_scale([0, 0, i32::MAX, 2], rect(0, 0, 10, 10), rect(0, 0, 10, 10), true, u64::MAX / 2);
    assert!(r.is_none());
    // each pair multiplies the scale by (2^32 - 1) / 2; the second overflows
    let monitors = vec![
        Monitor::new(0, true, 10, 10, 0, 0),
        Monitor::new(1, false, 10, 10, 10, 0),
        Monitor::new(2, false, 10, 10, 20, 0),
    ];
    let s = CalibrationSession::start(&monitors, 0, 0).unwrap();
    let s = s.submit(scale_answer([i32::MIN, 0, i32::MAX, 2])).unwrap();
    let s = s.submit(gap_answer(0)).unwrap();
    assert_eq!(s.scales[1], 1_000_000 * (u32::MAX as u64) / 2);
    let r = s.submit(scale_answer([i32::MIN, 0, i32::MAX, 2]));
    assert_eq!(r.err(), Some(CalibrationError::ScaleOutOfRange));
}

#[test]
fn gap_moves_a_trailing_child_and_a_leading_child() {
    // child left of parent: relative x = -(2 gap) - width * scale
    let monitors = vec![Monitor::new(0, true, 1000, 800, 0, 0), Monitor::new(1, false, 1200, 800, -1200, 0)];
    let s = CalibrationSession::start(&monitors, 0, 0).unwrap();
    let s = s.submit(scale_answer([100, 100, 500, 500])).unwrap();
    let s = s.submit(gap_answer(7)).unwrap();
    let r = s.into_results();
    assert_eq!(r[0].relative_x, -(2 * 7 * 1_000_000) - 1200 * 1_000_000);
    assert_eq!(r[0].relative_y, 0);
    assert_eq!(r[0].gap, 7);
    // child right of parent: relative x = parent width * parent scale + 2 gap
    let monitors = vec![Monitor::new(0, true, 1000, 800, 0, 0), Monitor::new(1, false, 1200, 800, 1000, 0)];
    let s = CalibrationSession::start(&monitors, 0, 0).unwrap();
    let s = s.submit(scale_answer([100, 100, 500, 500])).unwrap();
    let s = s.submit(gap_answer(7)).unwrap();
    let r = s.into_results();
    assert_eq!(r[0].relative_x, 1000 * 1_000_000 + 2 * 7 * 1_000_000);
}

#[test]
fn density_propagates_both_ways_and_settles() {
    let mut a = Monitor::new(0, true, 1000, 1000, 0, 0);
    let b = Monitor::new(1, false, 1000, 1000, 1000, 0);
    let c = Monitor::new(2, false, 1000, 1000, 2000, 0);
    a.ppi_milli = None;
    let mut c2 = c.clone();
    c2.ppi_milli = Some(120_000);
    let monitors = vec![a, b, c2];
    let s = CalibrationSession::start(&monitors, 0, 0).unwrap();
    let s = s.submit(scale_answer([100, 100, 700, 500])).unwrap();
    let s = s.submit(gap_answer(0)).unwrap();
    let s = s.submit(scale_answer([100, 100, 400, 500])).unwrap();
    let s = s.submit(gap_answer(0)).unwrap();
    let results = s.into_results();
    let ppi = propagate_density(&monitors, &results);
    // C is known; its parent B gets C / scale_C, and A gets B / scale_B
    let b_ppi = 120_000u64 * 1_000_000 / 1_125_000;
    let a_ppi = b_ppi * 1_000_000 / 1_500_000;
    assert_eq!(ppi, vec![Some(a_ppi), Some(b_ppi), Some(120_000)]);
    // running it again on the settled densities changes nothing
    let mut settled = monitors.clone();
    for (m, p) in settled.iter_mut().zip(ppi.iter()) {
        m.ppi_milli = *p;
    }
    assert_eq!(propagate_density(&settled, &results), ppi);
}

#[test]
fn reconstruction_without_any_density_fails() {
    let monitors = vec![Monitor::new(0, true, 1000, 1000, 0, 0), Monitor::new(1, false, 1000, 1000, 1000, 0)];
    let s = CalibrationSession::start(&monitors, 0, 0).unwrap();
    let s = s.submit(scale_answer([100, 100, 500, 500])).unwrap();
    let s = s.submit(gap_answer(0)).unwrap();
    let results = s.into_results();
    assert_eq!(compute_physical_placements(&monitors, &results).err(), Some(calibrator::layout::LayoutError::NoReferenceDensity));
}

#[test]
fn reconstruction_is_deterministic() {
    let mut a = Monitor::new(0, true, 2560, 1440, 0, 0);
    a.ppi_milli = Some(108_790);
    let b = Monitor::new(1, false, 1920, 1080, 2560, 100);
    let c = Monitor::new(2, false, 1920, 1080, 0, 1440);
    let monitors = vec![a, b, c];
    let mut s = CalibrationSession::start(&monitors, 0, 0).unwrap();
    while let Some(req) = s.next_request() {
        let answer = if req.step == OverlayStep::Scale { scale_answer([130, 90, 610, 457]) } else { gap_answer(-4) };
        s = s.submit(answer).unwrap();
    }
    let results = s.into_results();
    let first = compute_physical_placements(&monitors, &results).unwrap();
    let second = compute_physical_placements(&monitors, &results).unwrap();
    assert_eq!(first, second);
    assert_eq!(first.len(), 3);
}

fn two_by_scale(segments: [i32; 4]) -> (Vec<Monitor>, Vec<CalibrationResult>) {
    let mut a = Monitor::new(0, true, 1920, 1080, 0, 0);
    a.ppi_milli = Some(96_000);
    let b = Monitor::new(1, false, 1920, 1080, 1920, 0);
    let monitors = vec![a, b];
    let s = CalibrationSession::start(&monitors, 0, 0).unwrap();
    let s = s.submit(scale_answer(segments)).unwrap();
    let s = s.submit(gap_answer(0)).unwrap();
    (monitors, s.into_results())
}

#[test]
fn zero_relative_offset_keeps_the_child_level() {
    // near lines at 100 on the child and 200 on the parent, spans 200 and 100
    let (monitors, results) = two_by_scale([100, 200, 300, 300]);
    assert_eq!(results[0].scale, 2_000_000);
    assert_eq!(results[0].relative_y, 0);
    let p = compute_physical_placements(&monitors, &results).unwrap();
    assert_eq!(p[1].y, p[0].y);
}

#[test]
fn relative_offset_converts_at_the_parent_density() {
    // relative_y = 250 px - 100 px * 2 = 50 parent pixels = 50 / 96 in
    let (monitors, results) = two_by_scale([100, 250, 300, 350]);
    assert_eq!(results[0].relative_y, 50_000_000);
    let p = compute_physical_placements(&monitors, &results).unwrap();
    assert_eq!(p[1].y - p[0].y, 520_833);
}

#[test]
fn a_child_whose_parent_is_not_placed_yet_is_an_error() {
    let mut a = Monitor::new(0, true, 1000, 1000, 0, 0);
    a.ppi_milli = Some(100_000);
    let monitors = vec![a, Monitor::new(1, false, 1000, 1000, 1000, 0), Monitor::new(2, false, 1000, 1000, 2000, 0)];
    let edge = |c: usize, p: usize| CalibrationResult {
        monitor_id: c,
        scale: 1_000_000,
        relative_x: 0,
        relative_y: 0,
        gap: 0,
        bound_to: p,
        bind_horizontal: true,
    };
    let results = vec![edge(2, 1), edge(1, 0)];
    assert_eq!(
        compute_physical_placements(&monitors, &results).err(),
        Some(calibrator::layout::LayoutError::UnplacedMonitor)
    );
    let ordered = vec![edge(1, 0), edge(2, 1)];
    assert_eq!(compute_physical_placements(&monitors, &ordered).unwrap().len(), 3);
}

#[test]
fn coinciding_child_lines_collapse_the_scale() {
    let monitors = vec![Monitor::new(0, true, 1000, 1000, 0, 0), Monitor::new(1, false, 1000, 1000, 1000, 0)];
    let s = CalibrationSession::start(&monitors, 0, 0).unwrap();
    // child span 0 against a parent span of 100
    let r = s.submit(scale_answer([300, 100, 300, 200]));
    assert_eq!(r.err(), Some(CalibrationError::ScaleCollapsed));
    // a ratio below one millionth also collapses
    let s = CalibrationSession::start(&monitors, 0, 0).unwrap();
    let r = s.submit(scale_answer([0, i32::MIN, 1, i32::MAX]));
    assert_eq!(r.err(), Some(CalibrationError::ScaleCollapsed));
}
