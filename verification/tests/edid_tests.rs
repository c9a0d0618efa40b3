use display_analyzer::edid::{
    decode_manufacturer, find_descriptor_string, parse_edid, parse_first_detailed_timing,
};

/// A 128-byte EDID like the one of the panel in the README: BOE NE135A1M-NY1,
/// 2880x1920, 8-bit digital, 29cm x 19cm, EDID 1.4, week 52 of 2023.
fn sample_edid() -> Vec<u8> {
    let mut e = vec![0u8; 128];
    e[..8].copy_from_slice(&[0x00, 0xFF, 0xFF, 0xFF, 0xFF, 0xFF, 0xFF, 0x00]);
    // "BOE": B=2, O=15, E=5 -> 0b0_00010_01111_00101 = 0x09E5
    e[8] = 0x09;
    e[9] = 0xE5;
    e[10] = 0x34; // product code 0x1234, little endian
    e[11] = 0x12;
    e[12] = 0x78; // serial 0x12345678, little endian
    e[13] = 0x56;
    e[14] = 0x34;
    e[15] = 0x12;
    e[16] = 52;
    e[17] = 33;
    e[18] = 1;
    e[19] = 4;
    e[20] = 0xA0; // digital, 8 bits per colour
    e[21] = 29;
    e[22] = 19;
    // first detailed timing: pixel clock non-zero, 2880 x 1920
    e[54] = 0x01;
    e[55] = 0x02;
    e[56] = 0x40;
    e[58] = 0xB0;
    e[59] = 0x80;
    e[61] = 0x70;
    // second descriptor: display name
    e[72..77].copy_from_slice(&[0, 0, 0, 0xFC, 0]);
    e[77..90].copy_from_slice(b"NE135A1M-NY1\n");
    // third descriptor: serial text, padded with spaces after the line feed
    e[90..95].copy_from_slice(&[0, 0, 0, 0xFF, 0]);
    e[95..108].copy_from_slice(b"  SN-42 \n    ");
    e
}

#[test]
fn parses_the_readme_panel() {
    let e = sample_edid();
    let info = parse_edid(&e).expect("valid EDID");
    assert_eq!(info.manufacturer, "BOE");
    assert_eq!(info.product_code, 0x1234);
    assert_eq!(info.display_name.as_deref(), Some("NE135A1M-NY1"));
    assert_eq!(info.serial_string.as_deref(), Some("SN-42"));
    assert_eq!(info.serial_number, 0x12345678);
    assert_eq!(info.year, 2023);
    assert_eq!(info.week, 52);
    assert_eq!(info.version, "1.4");
    assert_eq!(info.width_cm, 29);
    assert_eq!(info.height_cm, 19);
    assert_eq!(info.max_width, Some(2880));
    assert_eq!(info.max_height, Some(1920));
    assert_eq!(info.bit_depth, Some(8));
    assert!(info.digital);
}

#[test]
fn rejects_short_input() {
    let e = sample_edid();
    assert!(parse_edid(&e[..127]).is_none());
    assert!(parse_edid(&[]).is_none());
}

#[test]
fn rejects_bad_header() {
    let mut e = sample_edid();
    e[7] = 0x01;
    assert!(parse_edid(&e).is_none());
    let mut e = sample_edid();
    e[0] = 0xFF;
    assert!(parse_edid(&e).is_none());
}

#[test]
fn accepts_longer_input() {
    let mut e = sample_edid();
    e.extend_from_slice(&[0u8; 128]);
    assert!(parse_edid(&e).is_some());
}

#[test]
fn analog_input_has_no_depth() {
    let mut e = sample_edid();
    e[20] = 0x20;
    let info = parse_edid(&e).unwrap();
    assert!(!info.digital);
    assert_eq!(info.bit_depth, None);
}

#[test]
fn depth_codes() {
    let expected = [None, Some(6), Some(8), Some(10), Some(12), Some(14), Some(16), None];
    for (code, want) in expected.iter().enumerate() {
        let mut e = sample_edid();
        e[20] = 0x80 | ((code as u8) << 4);
        assert_eq!(parse_edid(&e).unwrap().bit_depth, *want, "code {code}");
    }
}

#[test]
fn year_and_version_extremes() {
    let mut e = sample_edid();
    e[17] = 255;
    e[18] = 255;
    e[19] = 0;
    let info = parse_edid(&e).unwrap();
    assert_eq!(info.year, 2245);
    assert_eq!(info.version, "255.0");
}

#[test]
fn manufacturer_letters() {
    let mut e = sample_edid();
    // "DEL": D=4, E=5, L=12 -> 0x10AC
    e[8] = 0x10;
    e[9] = 0xAC;
    assert_eq!(decode_manufacturer(&e), "DEL");
    e[8] = 0;
    e[9] = 0;
    assert_eq!(decode_manufacturer(&e), "@@@");
    e[8] = 0xFF;
    e[9] = 0xFF;
    assert_eq!(decode_manufacturer(&e), "___");
}

#[test]
fn missing_name_descriptor() {
    let mut e = sample_edid();
    e[75] = 0xFE;
    let info = parse_edid(&e).unwrap();
    assert_eq!(info.display_name, None);
    assert_eq!(info.serial_string.as_deref(), Some("SN-42"));
}

#[test]
fn descriptor_text_stops_at_nul_and_uses_latin1() {
    let mut e = sample_edid();
    e[77..90].copy_from_slice(&[b'A', 0xE9, b'B', 0, b'C', b'C', b'C', b'C', b'C', b'C', b'C', b'C', b'C']);
    assert_eq!(find_descriptor_string(&e, 0xFC).as_deref(), Some("A\u{e9}B"));
}

#[test]
fn descriptor_text_trims_unicode_white_space() {
    let mut e = sample_edid();
    e[77..90].copy_from_slice(&[0xA0, b' ', b'x', b' ', b'y', 0x85, b'\n', b'z', b'z', b'z', b'z', b'z', b'z']);
    assert_eq!(find_descriptor_string(&e, 0xFC).as_deref(), Some("x y"));
}

#[test]
fn first_matching_descriptor_wins() {
    let mut e = sample_edid();
    e[108..113].copy_from_slice(&[0, 0, 0, 0xFC, 0]);
    e[113..126].copy_from_slice(b"OTHER\n       ");
    assert_eq!(find_descriptor_string(&e, 0xFC).as_deref(), Some("NE135A1M-NY1"));
}

#[test]
fn descriptor_search_stops_where_the_buffer_ends() {
    let e = sample_edid();
    // only the first two descriptors fit
    assert_eq!(find_descriptor_string(&e[..90], 0xFC).as_deref(), Some("NE135A1M-NY1"));
    assert_eq!(find_descriptor_string(&e[..89], 0xFC), None);
    assert_eq!(find_descriptor_string(&e[..50], 0xFC), None);
}

#[test]
fn timing_descriptor() {
    let e = sample_edid();
    assert_eq!(parse_first_detailed_timing(&e), (Some(2880), Some(1920)));
    assert_eq!(parse_first_detailed_timing(&e[..71]), (None, None));
    let mut d = sample_edid();
    d[54] = 0;
    d[55] = 0;
    assert_eq!(parse_first_detailed_timing(&d), (None, None));
    let mut m = sample_edid();
    m[54] = 0;
    m[56] = 0xFF;
    m[58] = 0xFF;
    m[59] = 0xFF;
    m[61] = 0xFF;
    assert_eq!(parse_first_detailed_timing(&m), (Some(4095), Some(4095)));
}
