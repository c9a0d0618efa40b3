use display_analyzer::path::{card_label, path_components, PathComponent};

fn parts(p: &str) -> Vec<String> {
    let cs: Vec<char> = p.chars().collect();
    path_components(&cs)
        .iter()
        .map(|c| match c {
            PathComponent::RootDir => "/".to_string(),
            PathComponent::CurDir => ".".to_string(),
            PathComponent::ParentDir => "..".to_string(),
            PathComponent::Normal(n) => n.iter().collect(),
        })
        .collect()
}

#[test]
fn components_like_std() {
    for p in ["/sys/class/drm/card1", "/sys//class/./drm/", "./a/b", ".", "", "a/../b", "//x", "/.", "./.", "..", ".a/b"] {
        let want: Vec<String> = std::path::Path::new(p)
            .components()
            .map(|c| c.as_os_str().to_string_lossy().to_string())
            .collect();
        assert_eq!(parts(p), want, "{p}");
    }
}

#[test]
fn card_labels() {
    assert_eq!(card_label("/sys/class/drm/card1"), "card1");
    assert_eq!(card_label("/sys/class/drm/"), "drm");
    assert_eq!(card_label("/sys/class/drm/."), "drm");
    assert_eq!(card_label("/sys/class/drm/.."), "unknown");
    assert_eq!(card_label("/"), "unknown");
}
