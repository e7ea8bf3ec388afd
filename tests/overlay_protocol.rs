use calibrator::calibration::{OverlayConfig, OverlayStep};
use calibrator::overlay::{OverlayKey, OverlayState};
use calibrator::solver::MonitorRect;

fn config(step: OverlayStep, horizontal: bool, middles: Option<[i32; 2]>) -> OverlayConfig {
    OverlayConfig {
        step,
        m1_idx: 1,
        m2_idx: 0,
        monitors: vec![MonitorRect { x: 0, y: 0, w: 1920, h: 1080 }, MonitorRect { x: 1920, y: 100, w: 2560, h: 1440 }],
        bind_horizontal: horizontal,
        temp_middles: middles,
    }
}

#[test]
fn scale_lines_start_at_quarters_of_the_smaller_monitor() {
    let s = OverlayState::new(&config(OverlayStep::Scale, true, None));
    assert_eq!(s.segments, [100 + 270, 270, 100 + 810, 810]);
    assert_eq!([s.mid_m1, s.mid_m2], [100 + 720, 540]);
    let s = OverlayState::new(&config(OverlayStep::Scale, false, None));
    assert_eq!(s.segments, [1920 + 480, 480, 1920 + 1440, 1440]);
    let s = OverlayState::new(&config(OverlayStep::Gap, true, Some([5, 6])));
    assert_eq!(s.segments, [0; 4]);
    assert_eq!([s.mid_m1, s.mid_m2], [5, 6]);
}

#[test]
fn hit_test_needs_the_other_extent_and_tolerance() {
    let s = OverlayState::new(&config(OverlayStep::Scale, true, None));
    // line 0 is on m1 (x 1920..4480) at y 370
    assert_eq!(s.hit_test_scale(2000, 390), Some(0));
    assert_eq!(s.hit_test_scale(2000, 391), None);
    // line 1 is on m2 (x 0..1920) at y 270
    assert_eq!(s.hit_test_scale(100, 250), Some(1));
    assert_eq!(s.hit_test_scale(100, 249), None);
    assert_eq!(s.hit_test_scale(1920, 810), Some(3));
}

#[test]
fn dragging_moves_a_line_without_clamping() {
    let mut s = OverlayState::new(&config(OverlayStep::Scale, true, None));
    s.button_down(2000, 375);
    assert!(s.dragging);
    assert_eq!(s.selected, Some(0));
    s.mouse_move(0, -5000);
    assert_eq!(s.segments[0], 370 + (-5000 - 375));
    s.button_up();
    assert!(!s.dragging);
    assert_eq!(s.selected, None);
    s.mouse_move(0, 0);
    assert_eq!(s.segments[0], 370 + (-5000 - 375));
    // arrows nudge the last line touched
    s.key_down(OverlayKey::Down);
    s.key_down(OverlayKey::Down);
    s.key_down(OverlayKey::Up);
    assert_eq!(s.segments[0], 370 + (-5000 - 375) + 1);
    s.key_down(OverlayKey::Enter);
    let r = s.result();
    assert!(!r.cancelled);
    assert_eq!(r.segments[0], 370 + (-5000 - 375) + 1);
}

#[test]
fn arrows_do_nothing_before_a_line_is_touched() {
    let mut s = OverlayState::new(&config(OverlayStep::Scale, true, None));
    s.key_down(OverlayKey::Right);
    assert_eq!(s.segments, [370, 270, 910, 810]);
    s.button_down(-50, -50);
    assert!(!s.dragging);
    assert_eq!(s.selected, None);
}

#[test]
fn gap_drag_and_nudge() {
    let mut s = OverlayState::new(&config(OverlayStep::Gap, true, None));
    s.button_down(10, 10);
    s.mouse_move(17, 500);
    assert_eq!(s.gap, 7);
    s.button_up();
    s.key_down(OverlayKey::Left);
    assert_eq!(s.gap, 6);
    s.key_down(OverlayKey::Escape);
    assert!(s.result().cancelled);
    assert_eq!(s.result().gap, 6);
}
