use breadmon::monitor::{Mode, Monitor, Transform};
use breadmon::profile::{
    apply_to_monitors, chrono_now, civil_from_days, format_timestamp, from_monitors, profile_names,
    secs_of_day,
};

fn make_monitor(name: &str, w: u32, h: u32, x: i32, y: i32) -> Monitor {
    Monitor {
        name: name.into(),
        description: String::new(),
        active_mode: Mode { width: w, height: h, refresh: 6000 },
        x,
        y,
        scale: 100,
        transform: Transform::Normal,
        vrr: false,
        dpms: true,
        disabled: false,
        mirror_of: None,
        available_modes: vec![],
        physical_width_mm: 0,
        physical_height_mm: 0,
    }
}

#[test]
fn chrono_now_helpers() {
    assert_eq!(civil_from_days(0), (1970, 1, 1));
    assert_eq!(civil_from_days(19_723), (2024, 1, 1));
    assert_eq!(secs_of_day(0), (0, 0, 0));
    assert_eq!(secs_of_day(86_399), (23, 59, 59));
    let s = chrono_now();
    assert_eq!(s.len(), 20);
    assert!(s.ends_with('Z'));
    assert!(s.as_bytes()[4] == b'-' && s.as_bytes()[7] == b'-');
}

#[test]
fn civil_dates_around_leap_days() {
    // 2000-02-29 is day 11016; 1969-12-31 is day -1.
    assert_eq!(civil_from_days(11_016), (2000, 2, 29));
    assert_eq!(civil_from_days(11_017), (2000, 3, 1));
    assert_eq!(civil_from_days(-1), (1969, 12, 31));
}

#[test]
fn timestamps_format_in_utc() {
    assert_eq!(format_timestamp(0), "1970-01-01T00:00:00Z");
    assert_eq!(format_timestamp(1_704_067_199), "2023-12-31T23:59:59Z");
    assert_eq!(format_timestamp(951_782_400), "2000-02-29T00:00:00Z");
}

#[test]
fn profile_snapshot_records_monitors() {
    let mut b = make_monitor("HDMI-A-1", 1920, 1080, 1920, 0);
    b.mirror_of = Some("eDP-1".into());
    b.transform = Transform::Flipped;
    let monitors = vec![make_monitor("eDP-1", 1920, 1200, 0, 0), b];
    let profile = from_monitors("test", &monitors);
    assert_eq!(profile.profile.name, "test");
    assert_eq!(profile.profile.created.len(), 20);
    assert_eq!(profile.monitors.len(), 2);
    assert_eq!(profile.monitors[0].name, "eDP-1");
    assert_eq!(profile.monitors[0].mode, "1920x1200@60.00");
    assert_eq!(profile.monitors[0].mirror_of, "");
    assert_eq!(profile.monitors[1].x, 1920);
    assert_eq!(profile.monitors[1].transform, 4);
    assert_eq!(profile.monitors[1].mirror_of, "eDP-1");
}

#[test]
fn profile_roundtrip_restores_monitors() {
    let mut a = make_monitor("eDP-1", 1920, 1200, -1920, 0);
    a.scale = 125;
    a.vrr = true;
    a.active_mode.refresh = 5994;
    let mut b = make_monitor("HDMI-A-1", 1920, 1080, 0, 0);
    b.mirror_of = Some("eDP-1".into());
    b.dpms = false;
    let profile = from_monitors("home", &vec![a.clone(), b.clone()]);
    let mut live = vec![
        make_monitor("HDMI-A-1", 800, 600, 5, 5),
        make_monitor("DP-9", 800, 600, 7, 7),
        make_monitor("eDP-1", 800, 600, 9, 9),
    ];
    apply_to_monitors(&profile, &mut live);
    assert_eq!(live[2].active_mode, a.active_mode);
    assert_eq!((live[2].x, live[2].y, live[2].scale, live[2].vrr), (-1920, 0, 125, true));
    assert_eq!(live[2].mirror_of, None);
    assert_eq!(live[0].mirror_of.as_deref(), Some("eDP-1"));
    assert!(!live[0].dpms);
    assert_eq!((live[1].x, live[1].y), (7, 7));
}

#[test]
fn profile_names_are_sorted_toml_stems() {
    let names: Vec<String> =
        vec!["work.toml", "notes.txt", "Home.toml", ".toml", "a.b.toml", "desk.TOML", "alpha.toml"]
            .into_iter()
            .map(String::from)
            .collect();
    assert_eq!(profile_names(&names), vec!["Home", "a.b", "alpha", "work"]);
    assert!(profile_names(&vec![]).is_empty());
}
