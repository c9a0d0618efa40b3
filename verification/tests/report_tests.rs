use display_analyzer::dp_info::get_dp_info;
use display_analyzer::drm_info::{connector_from_sysfs, ConnectorInfo};
use display_analyzer::gpu::gpu_info_from_sysfs;
use display_analyzer::report::{
    connector_block, connector_header, detail_rows, diagonal_tenths, gpu_header, group_by_card,
    shows_details, size_value,
};

fn s(x: &str) -> String {
    x.to_string()
}

fn readme_edid() -> Vec<u8> {
    let mut e = vec![0u8; 128];
    e[..8].copy_from_slice(&[0x00, 0xFF, 0xFF, 0xFF, 0xFF, 0xFF, 0xFF, 0x00]);
    e[8] = 0x09;
    e[9] = 0xE5;
    e[16] = 52;
    e[17] = 33;
    e[18] = 1;
    e[19] = 4;
    e[20] = 0xA0;
    e[21] = 29;
    e[22] = 19;
    e[54] = 0x01;
    e[56] = 0x40;
    e[58] = 0xB0;
    e[59] = 0x80;
    e[61] = 0x70;
    e[72..77].copy_from_slice(&[0, 0, 0, 0xFC, 0]);
    e[77..90].copy_from_slice(b"NE135A1M-NY1\n");
    e
}

fn edp() -> ConnectorInfo {
    connector_from_sysfs(
        s("card1-eDP-1"),
        Some(s("connected\n")),
        Some(s("enabled\n")),
        Some(s("On\n")),
        Some(s("2880x1920\n2880x1920\n")),
        Some(readme_edid()),
    )
    .unwrap()
}

fn dp(name: &str, card: &str) -> ConnectorInfo {
    let full = format!("{card}-{name}");
    connector_from_sysfs(full, Some(s("disconnected\n")), Some(s("disabled")), Some(s("Off")), None, None)
        .unwrap()
}

#[test]
fn readme_connector_block() {
    let c = edp();
    let d = get_dp_info(&c.connector_type, None, None);
    let lines = connector_block(&c, &d, true);
    let want = vec![
        "└── card1-eDP-1 [connected, enabled]",
        "    ├── Display: BOE NE135A1M-NY1",
        "    ├── Native: 2880x1920",
        "    ├── Color: 8-bit, digital",
        "    ├── Size: 29cm x 19cm (13.6\")",
        "    ├── EDID: v1.4, year 2023, week 52",
        "    ├── Protocol: eDP",
        "    ├── DPMS: On",
        "    └── Modes: 2880x1920, 2880x1920",
    ];
    assert_eq!(lines, want);
}

#[test]
fn disconnected_block_has_only_its_header() {
    let c = dp("DP-1", "card1");
    let d = get_dp_info(&c.connector_type, None, None);
    assert!(!shows_details(&c));
    assert_eq!(connector_block(&c, &d, false), vec![s("├── card1-DP-1 [disconnected]")]);
    assert_eq!(connector_header(&c), "card1-DP-1 [disconnected]");
}

#[test]
fn dp_rows_and_missing_modes() {
    let c = connector_from_sysfs(
        s("card0-DP-3"),
        Some(s("connected")),
        None,
        Some(s("Off")),
        None,
        None,
    )
    .unwrap();
    let d = get_dp_info(&c.connector_type, Some(s("5.4\n")), Some(s("4\n")));
    let lines = connector_block(&c, &d, false);
    let want = vec![
        "├── card0-DP-3 [connected]",
        "│   ├── Protocol: DP",
        "│   ├── DP Link Rate: 5.4",
        "│   ├── DP Lanes: 4",
        "│   ├── DPMS: Off",
        "│   └── Modes: (none)",
    ];
    assert_eq!(lines, want);
    let window_rows = detail_rows(&c, &d, false);
    let last = window_rows.last().unwrap();
    assert_eq!(last.label, "Modes");
    assert_eq!(last.value, "");
}

#[test]
fn unnamed_display_shows_product_code() {
    let mut e = readme_edid();
    e[75] = 0xFE;
    e[10] = 0x2A;
    e[11] = 0x0B;
    let c = connector_from_sysfs(s("card1-eDP-1"), Some(s("connected")), None, None, None, Some(e))
        .unwrap();
    let d = get_dp_info(&c.connector_type, None, None);
    let term = detail_rows(&c, &d, true);
    assert_eq!(term[0].label, "Display");
    assert_eq!(term[0].value, "BOE (product 0x0b2a)");
    let window = detail_rows(&c, &d, false);
    assert_eq!(window[0].label, "Native");
}

#[test]
fn diagonals() {
    assert_eq!(diagonal_tenths(29, 19), 136);
    assert_eq!(diagonal_tenths(1, 1), 6);
    assert_eq!(diagonal_tenths(255, 255), 1420);
    assert_eq!(size_value(60, 34), "60cm x 34cm (27.2\")");
    assert_eq!(size_value(1, 1), "1cm x 1cm (0.6\")");
}

#[test]
fn diagonal_agrees_with_floating_point() {
    for w in 1..=255u8 {
        for h in 1..=255u8 {
            let d = ((w as f64).powi(2) + (h as f64).powi(2)).sqrt() / 2.54;
            assert_eq!(size_value(w, h), format!("{w}cm x {h}cm ({d:.1}\")"));
        }
    }
}

#[test]
fn gpu_headers() {
    let g = gpu_info_from_sysfs(s("card1"), Some(s("i915")), Some(s("0x8086\n")), Some(s("0x7dd5\n")));
    assert_eq!(
        gpu_header(&Some(g), "card1"),
        "GPU: Intel (Intel i915) [card1] (vendor=0x8086, device=0x7dd5)"
    );
    assert_eq!(gpu_header(&None, "card2"), "GPU: card2");
}

#[test]
fn grouping_by_card() {
    let conns = vec![dp("DP-1", "card1"), dp("DP-1", "card0"), dp("DP-2", "card1"), dp("HDMI-A-1", "card0")];
    let groups = group_by_card(&conns);
    assert_eq!(groups.len(), 2);
    assert_eq!(groups[0].card_path, "/sys/class/drm/card0");
    assert_eq!(groups[0].members, vec![1, 3]);
    assert_eq!(groups[1].card_path, "/sys/class/drm/card1");
    assert_eq!(groups[1].members, vec![0, 2]);
    assert!(group_by_card(&Vec::new()).is_empty());
}

fn on_card(name: &str, card_path: &str) -> ConnectorInfo {
    let mut c = dp(name, "card1");
    c.card_path = card_path.to_string();
    c
}

#[test]
fn grouping_compares_paths_by_components() {
    let conns = vec![
        on_card("DP-1", "/x/card1/"),
        on_card("DP-2", "/x/card1"),
        on_card("DP-3", "/x/./card1"),
        on_card("DP-4", "/x/card0"),
    ];
    let groups = group_by_card(&conns);
    assert_eq!(groups.len(), 2);
    assert_eq!(groups[0].card_path, "/x/card0");
    assert_eq!(groups[0].members, vec![3]);
    assert_eq!(groups[1].card_path, "/x/card1/");
    assert_eq!(groups[1].members, vec![0, 1, 2]);
}

#[test]
fn grouping_orders_parent_before_names() {
    // As paths, `..` comes before any name, though "!" sorts before "." as text.
    let conns = vec![on_card("DP-1", "/x/!"), on_card("DP-2", "/x/..")];
    let groups = group_by_card(&conns);
    assert_eq!(groups[0].card_path, "/x/..");
    assert_eq!(groups[1].card_path, "/x/!");
    let short = vec![on_card("DP-1", "/x/a"), on_card("DP-2", "/x")];
    let g = group_by_card(&short);
    assert_eq!(g[0].card_path, "/x");
    assert_eq!(g[1].card_path, "/x/a");
}
