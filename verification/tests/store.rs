use breadmon::monitor::{Mode, Monitor, Transform};
use breadmon::store::{apply_to_monitors, from_monitors, non_empty, parse_position, MonitorRule, MonitorsFile};

fn make_monitor(name: &str, w: u32, h: u32, x: i32, y: i32) -> Monitor {
    Monitor {
        name: name.into(),
        description: String::new(),
        active_mode: Mode { width: w, height: h, refresh: 6000 },
        x,
        y,
        scale: 100,
        transform: Transform::Normal,
        vrr: false,
        dpms: true,
        disabled: false,
        mirror_of: None,
        available_modes: vec![],
        physical_width_mm: 0,
        physical_height_mm: 0,
    }
}

#[test]
fn from_monitors_writes_named_rules_and_source_mirror() {
    let mut hdmi = make_monitor("HDMI-A-1", 1920, 1080, 1920, 0);
    hdmi.mirror_of = Some("eDP-1".into());
    let file = from_monitors(&vec![make_monitor("eDP-1", 1920, 1200, 0, 0), hdmi]);
    assert_eq!(file.monitors.len(), 1);
    let rule = &file.monitors[0];
    assert_eq!(rule.output, "eDP-1");
    assert_eq!(rule.mode, "1920x1200@60");
    assert_eq!(rule.position, "0x0");
    assert_eq!(rule.scale, "1.00");
    assert_eq!(rule.mirror.as_deref(), Some("HDMI-A-1"));
}

#[test]
fn from_monitors_empty_or_all_slaves_emits_wildcard() {
    let mut only_slave = make_monitor("HDMI-A-1", 1920, 1080, 0, 0);
    only_slave.mirror_of = Some("missing".into());
    assert_eq!(from_monitors(&vec![]), MonitorsFile::default());
    assert_eq!(from_monitors(&vec![only_slave]), MonitorsFile::default());
}

#[test]
fn wildcard_overlay_leaves_live_geometry_and_mirrors() {
    let file = MonitorsFile::default();
    let mut monitors = vec![make_monitor("eDP-1", 1920, 1200, 10, 20)];
    monitors[0].scale = 150;
    monitors[0].mirror_of = Some("HDMI-A-1".into());
    apply_to_monitors(&file, &mut monitors);
    assert_eq!(monitors[0].x, 10);
    assert_eq!(monitors[0].y, 20);
    assert_eq!(monitors[0].scale, 150);
    assert_eq!(monitors[0].mirror_of.as_deref(), Some("HDMI-A-1"));
}

#[test]
fn specific_overlay_applies_fields_and_replaces_mirrors() {
    let file = MonitorsFile {
        monitors: vec![
            MonitorRule {
                output: "eDP-1".into(),
                mode: "1920x1200@60".into(),
                position: "0x0".into(),
                scale: "1.25".into(),
                mirror: Some("HDMI-A-1".into()),
            },
            MonitorRule {
                output: "DP-1".into(),
                mode: "2560x1440@144".into(),
                position: "-2560x0".into(),
                scale: "1".into(),
                mirror: None,
            },
        ],
    };
    let mut monitors = vec![
        make_monitor("eDP-1", 1600, 900, 100, 100),
        make_monitor("HDMI-A-1", 1920, 1080, 200, 0),
        make_monitor("DP-1", 1920, 1080, 300, 0),
    ];
    monitors[1].mirror_of = Some("DP-1".into());
    apply_to_monitors(&file, &mut monitors);

    assert_eq!(monitors[0].active_mode.width, 1920);
    assert_eq!(monitors[0].active_mode.height, 1200);
    assert!((monitors[0].active_mode.refresh as f64 / 100.0 - 60.0).abs() < 0.01);
    assert_eq!(monitors[0].x, 0);
    assert_eq!(monitors[0].y, 0);
    assert_eq!(monitors[0].scale, 125);

    assert_eq!(monitors[1].mirror_of.as_deref(), Some("eDP-1"));

    assert_eq!(monitors[2].active_mode.width, 2560);
    assert_eq!(monitors[2].x, -2560);
    assert!(monitors[2].mirror_of.is_none());
}

#[test]
fn store_roundtrip_keeps_geometry() {
    let mut a = make_monitor("eDP-1", 1920, 1200, -1920, 40);
    a.scale = 125;
    a.active_mode.refresh = 5994;
    let b = make_monitor("DP-1", 2560, 1440, 0, 0);
    let saved = vec![a.clone(), b.clone()];
    let file = from_monitors(&saved);
    let mut live = vec![make_monitor("eDP-1", 800, 600, 5, 5), make_monitor("DP-1", 800, 600, 9, 9)];
    apply_to_monitors(&file, &mut live);
    assert_eq!(live[0].x, -1920);
    assert_eq!(live[0].y, 40);
    assert_eq!(live[0].scale, 125);
    assert_eq!((live[0].active_mode.width, live[0].active_mode.height), (1920, 1200));
    assert_eq!(live[1].active_mode.width, 2560);
    assert_eq!((live[1].x, live[1].y), (0, 0));
}

#[test]
fn unparsable_rule_fields_keep_live_values() {
    let file = MonitorsFile {
        monitors: vec![MonitorRule {
            output: "eDP-1".into(),
            mode: "preferred".into(),
            position: "auto".into(),
            scale: "auto".into(),
            mirror: None,
        }],
    };
    let mut live = vec![make_monitor("eDP-1", 1920, 1080, 7, 8)];
    live[0].scale = 150;
    apply_to_monitors(&file, &mut live);
    assert_eq!((live[0].x, live[0].y, live[0].scale), (7, 8, 150));
    assert_eq!(live[0].active_mode.width, 1920);
}

#[test]
fn empty_file_reads_as_none() {
    assert!(non_empty(MonitorsFile { monitors: vec![] }).is_none());
    assert_eq!(non_empty(MonitorsFile::default()), Some(MonitorsFile::default()));
}

#[test]
fn positions_parse() {
    assert_eq!(parse_position("-2560x0"), Some((-2560, 0)));
    assert_eq!(parse_position("10x-20"), Some((10, -20)));
    assert_eq!(parse_position("auto"), None);
    assert_eq!(parse_position("1x"), None);
}
