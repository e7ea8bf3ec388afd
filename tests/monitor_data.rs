use calibrator::discovery::{connection_type_name, extract_hardware_id_fragment};
use calibrator::edid::{apply_edid_to_monitors, insert_or_replace};
use calibrator::edid::{
    decode_manufacturer_id, parse_descriptor_string, parse_detailed_timing_resolution, parse_edid_full,
    parse_edid_physical_size, EdidPhysicalSize,
};
use calibrator::monitor::{
    complete_physical_size, extract_diagonal_from_string, guess_diagonal_from_names, set_physical_from_diagonal,
    Monitor,
};

#[test]
fn derived_diagonal_and_density_from_millimetres() {
    let mut m = Monitor::new(0, true, 2560, 1440, 0, 0);
    m.physical_width_mm = Some(527);
    m.physical_height_mm = Some(296);
    m.compute_derived();
    // 604.437755 mm = 23.796 in; 2937.2 px / 23.796 in = 123.428 ppi
    assert_eq!(m.diagonal_milli_in, Some(23_796));
    assert_eq!(m.physical_width_milli_in, Some(20_748));
    assert_eq!(m.physical_height_milli_in, Some(11_653));
    assert_eq!(m.ppi_milli, Some(123_428));
}

#[test]
fn derived_values_need_both_sides() {
    let mut m = Monitor::new(0, true, 2560, 1440, 0, 0);
    m.physical_width_mm = Some(527);
    m.physical_height_mm = Some(0);
    m.compute_derived();
    assert_eq!(m.diagonal_milli_in, None);
    assert_eq!(m.ppi_milli, None);
    m.physical_height_mm = None;
    m.compute_derived();
    assert_eq!(m.ppi_milli, None);
}

#[test]
fn size_from_diagonal_uses_the_aspect_ratio() {
    let mut m = Monitor::new(0, true, 1920, 1080, 0, 0);
    set_physical_from_diagonal(&mut m, 27_000);
    assert_eq!(m.physical_width_mm, Some(598));
    assert_eq!(m.physical_height_mm, Some(336));
    let mut z = Monitor::new(0, true, 0, 1080, 0, 0);
    set_physical_from_diagonal(&mut z, 24_000);
    assert_eq!(z.physical_width_mm, Some(531));
    assert_eq!(z.physical_height_mm, Some(299));
}

#[test]
fn diagonal_from_names() {
    assert_eq!(extract_diagonal_from_string("DELL U2723QE 27 inch"), Some(27));
    assert_eq!(extract_diagonal_from_string("LG 34GN850"), Some(34));
    assert_eq!(extract_diagonal_from_string("Model 1920x1080"), None);
    assert_eq!(extract_diagonal_from_string("9 and 66 then 012"), Some(12));
    assert_eq!(extract_diagonal_from_string(""), None);
    assert_eq!(extract_diagonal_from_string("99999999999999999999 24"), Some(24));
    let mut m = Monitor::new(0, true, 1920, 1080, 0, 0);
    m.friendly_name = "Generic PnP".to_string();
    m.monitor_name = "Acer 5".to_string();
    m.adapter_name = "Laptop 15 panel".to_string();
    assert_eq!(guess_diagonal_from_names(&m), Some(15));
    m.monitor_name = "Acer 32".to_string();
    assert_eq!(guess_diagonal_from_names(&m), Some(32));
}

#[test]
fn guessed_size_fills_a_missing_size() {
    let mut m = Monitor::new(0, true, 1920, 1080, 0, 0);
    m.friendly_name = "Office 27".to_string();
    complete_physical_size(&mut m);
    assert_eq!(m.size_source, "guessed");
    assert_eq!(m.physical_width_mm, Some(598));
    assert_eq!(m.physical_height_mm, Some(336));
    assert!(m.ppi_milli.is_some());
    let mut k = Monitor::new(0, true, 1920, 1080, 0, 0);
    k.friendly_name = "Office 27".to_string();
    k.physical_width_mm = Some(600);
    k.physical_height_mm = Some(340);
    k.size_source = "edid".to_string();
    complete_physical_size(&mut k);
    assert_eq!(k.size_source, "edid");
    assert_eq!(k.physical_width_mm, Some(600));
}

fn sample_edid() -> Vec<u8> {
    let mut e = vec![0u8; 128];
    e[0..8].copy_from_slice(&[0x00, 0xFF, 0xFF, 0xFF, 0xFF, 0xFF, 0xFF, 0x00]);
    // "DEL": D=4, E=5, L=12 -> 00100 00101 01100
    let raw: u16 = (4 << 10) | (5 << 5) | 12;
    e[8] = (raw >> 8) as u8;
    e[9] = raw as u8;
    e[10] = 0x34;
    e[11] = 0x12;
    e[12..16].copy_from_slice(&[1, 2, 3, 4]);
    e[16] = 12;
    e[17] = 33;
    e[18] = 1;
    e[19] = 4;
    e[20] = 0xA5; // digital, 8 bits
    e[21] = 60;
    e[22] = 34;
    e[23] = 120;
    e[24] = 0xEA; // standby, suspend, off; type code 1
    // first detailed timing: 2560 x 1440, 597 x 336 mm
    e[54] = 0x01;
    e[55] = 0x02;
    e[56] = 0x00;
    e[58] = 0xA0;
    e[59] = 0xA0;
    e[61] = 0x50;
    e[66] = (597 & 0xFF) as u8;
    e[67] = (336 & 0xFF) as u8;
    e[68] = (((597 >> 8) << 4) | (336 >> 8)) as u8;
    // descriptor: name
    e[75] = 0xFC;
    e[77..90].copy_from_slice(b" DELL S2721 \n");
    // descriptor: range limits
    e[93] = 0xFD;
    e[95] = 48;
    e[96] = 75;
    e[97] = 30;
    e[98] = 160;
    e[99] = 30;
    // descriptor: serial
    e[111] = 0xFF;
    e[113..126].copy_from_slice(b"ABC123\0xxxxxx");
    e
}

#[test]
fn physical_size_prefers_the_detailed_timing() {
    let e = sample_edid();
    assert_eq!(parse_edid_physical_size(&e), Some(EdidPhysicalSize { width_mm: 597, height_mm: 336 }));
    let mut coarse = e.clone();
    coarse[66] = 0;
    coarse[67] = 0;
    coarse[68] = 0;
    assert_eq!(parse_edid_physical_size(&coarse), Some(EdidPhysicalSize { width_mm: 600, height_mm: 340 }));
    coarse[21] = 0;
    assert_eq!(parse_edid_physical_size(&coarse), None);
    let mut bad = e.clone();
    bad[0] = 1;
    assert_eq!(parse_edid_physical_size(&bad), None);
    assert_eq!(parse_edid_physical_size(&e[0..127]), None);
}

#[test]
fn full_identification_data() {
    let e = sample_edid();
    let info = parse_edid_full(&e).unwrap();
    assert_eq!(info.manufacturer, "DEL");
    assert_eq!(info.product_code, 0x1234);
    assert_eq!(info.serial_number, 0x0403_0201);
    assert_eq!(info.manufacture_week, 12);
    assert_eq!(info.manufacture_year, 2023);
    assert_eq!(info.edid_version, "1.4");
    assert_eq!((info.width_mm, info.height_mm), (597, 336));
    assert_eq!(info.gamma_hundredths, Some(220));
    assert_eq!(info.display_type, "RGB 4:4:4 + YCrCb 4:4:4");
    assert!(info.dpms_standby && info.dpms_suspend && info.dpms_off);
    assert_eq!(info.bit_depth, Some(8));
    assert_eq!(info.monitor_name, Some("DELL S2721".to_string()));
    assert_eq!(info.monitor_serial, Some("ABC123".to_string()));
    assert_eq!(info.min_v_rate_hz, Some(48));
    assert_eq!(info.max_v_rate_hz, Some(75));
    assert_eq!(info.min_h_rate_khz, Some(30));
    assert_eq!(info.max_h_rate_khz, Some(160));
    assert_eq!(info.max_pixel_clock_mhz, Some(300));
    assert_eq!(info.native_resolution, Some([2560, 1440]));
    assert!(parse_edid_full(&e[0..100]).is_none());
}

#[test]
fn timing_and_text_helpers() {
    let e = sample_edid();
    assert_eq!(parse_detailed_timing_resolution(&e, 54), Some([2560, 1440]));
    assert_eq!(parse_detailed_timing_resolution(&e, 72), None);
    assert_eq!(parse_detailed_timing_resolution(&e, 120), None);
    assert_eq!(decode_manufacturer_id(0x10AC), "DEL");
    assert_eq!(parse_descriptor_string(b"  Hello \n junk"), "Hello");
    assert_eq!(parse_descriptor_string(b"\0abc"), "");
}

#[test]
fn edid_sizes_go_to_the_first_matching_monitor_path() {
    let mut a = Monitor::new(0, true, 1920, 1080, 0, 0);
    a.monitor_device_id = "MONITOR\\DEL4321\\{4d36e96e}\\0001".to_string();
    let mut b = Monitor::new(1, false, 1920, 1080, 1920, 0);
    b.monitor_device_id = "MONITOR\\GSM5B7F\\{4d36e96e}\\0002".to_string();
    b.physical_width_mm = Some(1);
    b.physical_height_mm = Some(2);
    b.size_source = "manual".to_string();
    let mut c = Monitor::new(2, false, 1920, 1080, 3840, 0);
    c.monitor_device_id = "MONITOR\\ACR0001\\x".to_string();
    let mut monitors = vec![a, b, c];
    let sizes = vec![
        ("DEL4321".to_string(), EdidPhysicalSize { width_mm: 597, height_mm: 336 }),
        ("GSM5B7F".to_string(), EdidPhysicalSize { width_mm: 700, height_mm: 390 }),
        ("GSM".to_string(), EdidPhysicalSize { width_mm: 1, height_mm: 1 }),
    ];
    apply_edid_to_monitors(&mut monitors, &sizes);
    assert_eq!((monitors[0].physical_width_mm, monitors[0].physical_height_mm), (Some(597), Some(336)));
    assert_eq!(monitors[0].size_source, "edid");
    assert_eq!((monitors[1].physical_width_mm, monitors[1].physical_height_mm), (Some(700), Some(390)));
    assert_eq!(monitors[1].size_source, "edid");
    assert_eq!(monitors[2].physical_width_mm, None);
    assert_eq!(monitors[2].size_source, "");
}

#[test]
fn connection_type_names() {
    assert_eq!(connection_type_name(5), "HDMI");
    assert_eq!(connection_type_name(10), "DisplayPort (External)");
    assert_eq!(connection_type_name(i32::MIN), "Internal");
    assert_eq!(connection_type_name(7), "Unknown");
}

#[test]
fn hardware_id_fragment_is_the_second_path_part() {
    assert_eq!(extract_hardware_id_fragment("MONITOR\\DEL4321\\{4d36e96e}\\0001"), "DEL4321");
    assert_eq!(extract_hardware_id_fragment("DISPLAY\\GSM5B7F"), "GSM5B7F");
    assert_eq!(extract_hardware_id_fragment("no-separator"), "no-separator");
    assert_eq!(extract_hardware_id_fragment("A\\"), "");
    assert_eq!(extract_hardware_id_fragment("é\\ü\\x"), "ü");
}

#[test]
fn keyed_entries_stay_unique_and_the_last_value_wins() {
    let mut list: Vec<(String, EdidPhysicalSize)> = Vec::new();
    insert_or_replace(&mut list, "DEL1".to_string(), EdidPhysicalSize { width_mm: 1, height_mm: 1 });
    insert_or_replace(&mut list, "GSM2".to_string(), EdidPhysicalSize { width_mm: 2, height_mm: 2 });
    insert_or_replace(&mut list, "DEL1".to_string(), EdidPhysicalSize { width_mm: 3, height_mm: 3 });
    assert_eq!(list.len(), 2);
    assert_eq!(list[0], ("DEL1".to_string(), EdidPhysicalSize { width_mm: 3, height_mm: 3 }));
    assert_eq!(list[1].0, "GSM2");
}
