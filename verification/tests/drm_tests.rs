use display_analyzer::app::DisplayAnalyzerApp;
use display_analyzer::dp_info::{clean_attr, get_dp_info, is_dp_connector};
use display_analyzer::drm_info::{
    connector_from_sysfs, is_connector_name, parse_connector_type, parse_modes,
    sort_connectors_by_name, ConnectorInfo,
};
use display_analyzer::gpu::{describe_gpu, gpu_info_from_sysfs};
use display_analyzer::text::{decimal_string, trim};

fn s(x: &str) -> String {
    x.to_string()
}

fn connector(name: &str) -> ConnectorInfo {
    connector_from_sysfs(s(name), Some(s("disconnected\n")), None, None, None, None).unwrap()
}

#[test]
fn connector_types() {
    assert_eq!(parse_connector_type("card1-eDP-1"), "eDP");
    assert_eq!(parse_connector_type("card1-DP-2"), "DP");
    assert_eq!(parse_connector_type("card1-HDMI-A-1"), "HDMI-A");
    assert_eq!(parse_connector_type("card0-Virtual"), "Virtual");
    assert_eq!(parse_connector_type("card1-DP-x"), "DP-x");
    assert_eq!(parse_connector_type("card1-DP-"), "DP");
    assert_eq!(parse_connector_type("version"), "version");
    assert_eq!(parse_connector_type("card1-"), "");
}

#[test]
fn connector_names() {
    assert!(is_connector_name("card1-DP-1"));
    assert!(!is_connector_name("card1"));
    assert!(!is_connector_name("renderD128"));
    assert!(!is_connector_name("version"));
}

#[test]
fn not_a_connector() {
    assert!(connector_from_sysfs(s("card1"), Some(s("x")), None, None, None, None).is_none());
    assert!(connector_from_sysfs(s("card1-DP-1"), None, None, None, None, None).is_none());
}

#[test]
fn connector_from_attributes() {
    let c = connector_from_sysfs(
        s("card1-eDP-1"),
        Some(s("connected\n")),
        Some(s("enabled\n")),
        Some(s("On\n")),
        Some(s("2880x1920\n2880x1920\n")),
        Some(vec![1, 2, 3]),
    )
    .unwrap();
    assert_eq!(c.name, "card1-eDP-1");
    assert_eq!(c.connector_type, "eDP");
    assert_eq!(c.status, "connected");
    assert!(c.enabled);
    assert_eq!(c.dpms, "On");
    assert_eq!(c.modes, vec![s("2880x1920"), s("2880x1920")]);
    assert_eq!(c.edid_raw, Some(vec![1, 2, 3]));
    assert_eq!(c.card_path, "/sys/class/drm/card1");
}

#[test]
fn connector_defaults() {
    let c = connector_from_sysfs(
        s("card0-HDMI-A-2"),
        Some(s("disconnected")),
        Some(s("disabled")),
        None,
        None,
        Some(vec![]),
    )
    .unwrap();
    assert!(!c.enabled);
    assert_eq!(c.dpms, "");
    assert!(c.modes.is_empty());
    assert_eq!(c.edid_raw, None);
    assert_eq!(c.connector_type, "HDMI-A");
    assert_eq!(c.card_path, "/sys/class/drm/card0");
}

#[test]
fn modes_lines() {
    assert_eq!(parse_modes("a\n\n  b \r\n\t\nc"), vec![s("a"), s("b"), s("c")]);
    assert!(parse_modes("").is_empty());
    assert!(parse_modes(" \n \n").is_empty());
}

#[test]
fn sorting_by_name() {
    let v = vec![connector("card1-eDP-1"), connector("card1-DP-2"), connector("card0-DP-1"), connector("card1-DP-10")];
    let r = sort_connectors_by_name(v);
    let names: Vec<&str> = r.iter().map(|c| c.name.as_str()).collect();
    assert_eq!(names, vec!["card0-DP-1", "card1-DP-10", "card1-DP-2", "card1-eDP-1"]);
}

#[test]
fn dp_detection() {
    assert!(is_dp_connector("DP"));
    assert!(is_dp_connector("eDP"));
    assert!(!is_dp_connector("HDMI-A"));
    assert!(!is_dp_connector("dp"));
}

#[test]
fn dp_info() {
    let d = get_dp_info("eDP", Some(s(" 8.1 \n")), Some(s("\n")));
    assert!(d.is_dp);
    assert_eq!(d.link_rate.as_deref(), Some("8.1"));
    assert_eq!(d.lane_count, None);
    let h = get_dp_info("HDMI-A", Some(s("8.1")), Some(s("4")));
    assert!(!h.is_dp);
    assert_eq!(h.link_rate, None);
    assert_eq!(h.lane_count, None);
    assert_eq!(clean_attr(None), None);
    assert_eq!(clean_attr(Some(s("4"))).as_deref(), Some("4"));
}

#[test]
fn gpu_descriptions() {
    assert_eq!(describe_gpu("0x8086", "i915"), "Intel (Intel i915)");
    assert_eq!(describe_gpu("0x8086", "xe"), "Intel (Intel Xe)");
    assert_eq!(describe_gpu("0x1002", "amdgpu"), "AMD (AMD GPU)");
    assert_eq!(describe_gpu("0x1002", "radeon"), "AMD (AMD Radeon (legacy))");
    assert_eq!(describe_gpu("0x10de", "nouveau"), "NVIDIA (NVIDIA Nouveau)");
    assert_eq!(describe_gpu("0x10de", "nvidia"), "NVIDIA (NVIDIA (proprietary))");
    assert_eq!(describe_gpu("0x1af4", "virtio_gpu"), "Unknown (virtio_gpu)");
}

#[test]
fn gpu_from_sysfs() {
    let g = gpu_info_from_sysfs(s("card1"), Some(s("i915")), Some(s("0x8086\n")), Some(s("0x7dd5\n")));
    assert_eq!(g.card_name, "card1");
    assert_eq!(g.driver, "i915");
    assert_eq!(g.pci_vendor, "0x8086");
    assert_eq!(g.pci_device, "0x7dd5");
    assert_eq!(g.description, "Intel (Intel i915)");
    let u = gpu_info_from_sysfs(s("card2"), None, None, None);
    assert_eq!(u.driver, "unknown");
    assert_eq!(u.pci_vendor, "");
    assert_eq!(u.description, "Unknown (unknown)");
}

#[test]
fn trimming_and_numbers() {
    assert_eq!(trim("\u{3000} a b\u{2029}\t"), "a b");
    assert_eq!(trim("   "), "");
    assert_eq!(decimal_string(0), "0");
    assert_eq!(decimal_string(1990), "1990");
    assert_eq!(decimal_string(u64::MAX), u64::MAX.to_string());
}

#[test]
fn app_state() {
    let mut app = DisplayAnalyzerApp::new(vec![connector("card1-DP-1")]);
    assert_eq!(app.connectors().len(), 1);
    app.rescan(vec![connector("card1-DP-1"), connector("card1-DP-2")]);
    assert_eq!(app.connectors().len(), 2);
    assert_eq!(app.connectors()[1].name, "card1-DP-2");
}

#[test]
fn sorting_keeps_equal_names_in_order() {
    let a = connector_from_sysfs(s("card1-DP-1"), Some(s("first")), None, None, None, None).unwrap();
    let b = connector_from_sysfs(s("card0-DP-1"), Some(s("x")), None, None, None, None).unwrap();
    let c = connector_from_sysfs(s("card1-DP-1"), Some(s("second")), None, None, None, None).unwrap();
    let r = sort_connectors_by_name(vec![a, b, c]);
    let order: Vec<&str> = r.iter().map(|c| c.status.as_str()).collect();
    assert_eq!(order, vec!["x", "first", "second"]);
}
