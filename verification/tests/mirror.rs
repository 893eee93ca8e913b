use breadmon::mirror::{find_mirror_modes, refresh_match_label, MirrorResult};
use breadmon::monitor::{Mode, Monitor, Transform};

fn make_monitor_with_modes(name: &str, modes: Vec<Mode>) -> Monitor {
    let active = modes[0];
    Monitor {
        name: name.into(),
        description: String::new(),
        active_mode: active,
        x: 0,
        y: 0,
        scale: 100,
        transform: Transform::Normal,
        vrr: false,
        dpms: true,
        disabled: false,
        mirror_of: None,
        available_modes: modes,
        physical_width_mm: 0,
        physical_height_mm: 0,
    }
}

fn m(w: u32, h: u32, r: f64) -> Mode {
    Mode { width: w, height: h, refresh: (r * 100.0).round() as u32 }
}

#[test]
fn identical_mode_lists_exact_match() {
    let modes = vec![m(1920, 1200, 60.0), m(1280, 800, 60.0)];
    let src = make_monitor_with_modes("eDP-1", modes.clone());
    let tgt = make_monitor_with_modes("HDMI-A-1", modes);
    let result = find_mirror_modes(&src, &tgt).unwrap();
    assert!(result.ar_exact);
    assert_eq!(result.source_mode.width, 1920);
    assert_eq!(result.mirror_mode.width, 1920);
    assert!((result.refresh as f64 / 100.0 - 60.0).abs() < 0.01);
}

#[test]
fn different_ar_approx_match() {
    let src = make_monitor_with_modes("src", vec![m(1920, 1080, 60.0)]);
    let tgt = make_monitor_with_modes("tgt", vec![m(1920, 1200, 60.0)]);
    let result = find_mirror_modes(&src, &tgt);
    assert!(result.is_none());
}

#[test]
fn near_common_ar_within_5pct() {
    let src = make_monitor_with_modes("src", vec![m(1920, 1080, 60.0)]);
    let tgt = make_monitor_with_modes("tgt", vec![m(2560, 1440, 60.0)]);
    let result = find_mirror_modes(&src, &tgt).unwrap();
    assert!(result.ar_exact);
}

#[test]
fn near_refresh_match() {
    let src = make_monitor_with_modes("src", vec![m(1920, 1080, 60.0)]);
    let tgt = make_monitor_with_modes("tgt", vec![m(1920, 1080, 59.94)]);
    let result = find_mirror_modes(&src, &tgt).unwrap();
    assert!(result.ar_exact);
    assert!((result.refresh as f64 / 100.0 - 59.94).abs() < 0.1);
}

#[test]
fn incompatible_modes_returns_none() {
    let src = make_monitor_with_modes("src", vec![m(1920, 1080, 60.0)]);
    let tgt = make_monitor_with_modes("tgt", vec![m(1024, 768, 60.0)]);
    let result = find_mirror_modes(&src, &tgt);
    assert!(result.is_none());
}

#[test]
fn approximate_ratio_within_five_percent() {
    // 1366x768 reduces to 683:384 (1.7786), within 5% of 16:9 (1.7778).
    let src = make_monitor_with_modes("src", vec![m(1920, 1080, 60.0)]);
    let tgt = make_monitor_with_modes("tgt", vec![m(1366, 768, 60.0)]);
    let result = find_mirror_modes(&src, &tgt).unwrap();
    assert!(!result.ar_exact);
    assert_eq!(result.ar_ratio, (16, 9));
    assert_eq!(result.mirror_mode, m(1366, 768, 60.0));
}

#[test]
fn exact_ratio_preferred_over_larger_approximate() {
    let src = make_monitor_with_modes("src", vec![m(1920, 1080, 60.0), m(1280, 1024, 60.0)]);
    let tgt = make_monitor_with_modes("tgt", vec![m(1366, 768, 60.0), m(1280, 1024, 75.0), m(1280, 1024, 60.0)]);
    let result = find_mirror_modes(&src, &tgt).unwrap();
    assert!(result.ar_exact);
    assert_eq!(result.ar_ratio, (5, 4));
    assert_eq!(result.source_mode.width, 1280);
    assert_eq!(result.refresh, 6000);
}

#[test]
fn empty_mode_lists_give_none() {
    let mut src = make_monitor_with_modes("src", vec![m(1920, 1080, 60.0)]);
    let tgt = make_monitor_with_modes("tgt", vec![m(1920, 1080, 60.0)]);
    src.available_modes.clear();
    assert!(find_mirror_modes(&src, &tgt).is_none());
}

#[test]
fn refresh_labels() {
    let mut r = MirrorResult {
        source_mode: m(1920, 1080, 60.0),
        mirror_mode: m(1920, 1080, 60.0),
        refresh: 6000,
        ar_exact: true,
        ar_ratio: (16, 9),
    };
    assert_eq!(refresh_match_label(&r), "exact match");
    r.mirror_mode.refresh = 5994;
    assert_eq!(refresh_match_label(&r), "near match (≤1 Hz)");
    r.mirror_mode.refresh = 5000;
    assert_eq!(refresh_match_label(&r), "mismatch");
}
