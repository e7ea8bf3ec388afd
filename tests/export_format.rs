use calibrator::calibration::{CalibrationSession, OverlayResult};
use calibrator::export::{aspect_ratio, build_spanright_config, format_resolution, gcd, generate_uuid, isqrt};
use calibrator::layout::{center_on_canvas, compute_physical_placements, PhysicalPlacement};
use calibrator::monitor::Monitor;

#[test]
fn gcd_reduces_resolutions() {
    assert_eq!(gcd(1920, 1080), 120);
    assert_eq!(gcd(0, 7), 7);
    assert_eq!(gcd(7, 0), 7);
    assert_eq!(gcd(0, 0), 0);
}

#[test]
fn aspect_ratio_is_reduced_or_defaults_to_16_9() {
    assert_eq!(aspect_ratio(1920, 1080), [16, 9]);
    assert_eq!(aspect_ratio(3440, 1440), [43, 18]);
    assert_eq!(aspect_ratio(1920, 1200), [8, 5]);
    assert_eq!(aspect_ratio(0, 0), [16, 9]);
    assert_eq!(aspect_ratio(0, 5), [0, 1]);
}

#[test]
fn resolution_names() {
    assert_eq!(format_resolution(1920, 1080), "FHD");
    assert_eq!(format_resolution(3840, 2160), "4K");
    assert_eq!(format_resolution(5120, 2160), "5K UW");
    assert_eq!(format_resolution(1366, 768), "");
}

#[test]
fn uuid_has_the_version_four_shape() {
    let id = generate_uuid(0);
    assert_eq!(id, "00000000-0000-4000-8000-000000000000");
    let id = generate_uuid(0x0123_4567_89ab_cdef_0011_2233_4455_6677);
    assert_eq!(id.len(), 36);
    assert_eq!(&id[0..8], "44556677");
    assert_eq!(&id[9..13], "2233");
    assert_eq!(&id[14..15], "4");
    assert_eq!(&id[15..18], "011");
    let n: u128 = 0x0123_4567_89ab_cdef_0011_2233_4455_6677;
    let d = 0x8000 | ((n >> 60) & 0x3FFF);
    assert_eq!(&id[19..23], format!("{:04x}", d));
    let e = n.wrapping_mul(6364136223846793005) & 0xFFFF_FFFF_FFFF;
    assert_eq!(&id[24..36], format!("{:012x}", e));
}

#[test]
fn integer_square_root() {
    assert_eq!(isqrt(0), 0);
    assert_eq!(isqrt(15), 3);
    assert_eq!(isqrt(16), 4);
    assert_eq!(isqrt(u128::MAX), u64::MAX);
}

#[test]
fn layout_is_centred_on_the_canvas() {
    let ps = vec![
        PhysicalPlacement { monitor_idx: 0, x: 0, y: 0, w: 20_000_000, h: 10_000_000 },
        PhysicalPlacement { monitor_idx: 1, x: 20_000_000, y: 2_000_000, w: 20_000_000, h: 10_000_000 },
    ];
    let c = center_on_canvas(&ps);
    // bounding box 0..40 by 0..12 inches, centre (20, 6) -> (72, 48)
    assert_eq!(c[0].x, 52_000_000);
    assert_eq!(c[0].y, 42_000_000);
    assert_eq!(c[1].x, 72_000_000);
    assert_eq!(c[1].y, 44_000_000);
    assert_eq!(c[1].w, 20_000_000);
}

#[test]
fn saved_config_describes_each_placed_monitor() {
    let mut a = Monitor::new(0, true, 1920, 1080, 0, 0);
    a.ppi_milli = Some(96_000);
    a.diagonal_milli_in = Some(23_500);
    a.friendly_name = "Left".to_string();
    let mut b = Monitor::new(1, false, 1920, 1080, 1920, 0);
    b.orientation = 1;
    let monitors = vec![a, b];
    let s = CalibrationSession::start(&monitors, 0, 0).unwrap();
    let s = s.submit(OverlayResult { cancelled: false, segments: [270, 270, 810, 810], gap: 0 }).unwrap();
    let s = s.submit(OverlayResult { cancelled: false, segments: [0; 4], gap: 0 }).unwrap();
    let results = s.into_results();
    let placements = compute_physical_placements(&monitors, &results).unwrap();
    let cfg = build_spanright_config(&monitors, &results, 1234, 0).unwrap();
    assert_eq!(cfg.name, "Calibrated Layout");
    assert_eq!(cfg.saved_at, 1234);
    assert_eq!(cfg.id, generate_uuid(0));
    assert_eq!(cfg.monitors.len(), 2);
    let m0 = &cfg.monitors[0];
    assert_eq!(m0.preset.name, "24\" FHD");
    assert_eq!(m0.preset.diagonal_centi_in, 2_350);
    assert_eq!(m0.preset.aspect_ratio, [16, 9]);
    assert_eq!(m0.rotation, None);
    assert_eq!(m0.display_name, Some("Left".to_string()));
    let m1 = &cfg.monitors[1];
    assert_eq!(m1.rotation, Some(90));
    assert_eq!(m1.display_name, None);
    // 20 x 11.25 inches -> diagonal 22.9469... inches
    let w = placements[1].w as u128;
    let h = placements[1].h as u128;
    assert_eq!(m1.preset.diagonal_centi_in, (isqrt(w * w + h * h) as u64 + 5_000) / 10_000);
    assert_eq!(m1.preset.diagonal_centi_in, 2_295);
    assert_eq!(m1.preset.name, "23\" FHD");
    // centred: the pair spans 40 inches, so it starts at 72 - 20 = 52
    assert_eq!(m0.physical_x, 52_000_000);
    assert_eq!(m1.physical_x, 72_000_000);
    assert_eq!(m0.physical_y, 48_000_000 - 5_625_000);
}
