use breadmon::monitor::{
    apply_plan, classify_eval_reply, eval_failure, format_hypr_line, is_missing_eval_extension,
    join_statements, mentions_unknown_request,
    resolve_monitors, EvalReply, Mode, Monitor, RawMonitor, Transform,
};

fn monitor(name: &str, w: u32, h: u32, x: i32, y: i32) -> Monitor {
    Monitor {
        name: name.into(),
        description: String::new(),
        active_mode: Mode { width: w, height: h, refresh: 6000 },
        x,
        y,
        scale: 100,
        transform: Transform::Normal,
        vrr: false,
        dpms: true,
        disabled: false,
        mirror_of: None,
        available_modes: vec![],
        physical_width_mm: 0,
        physical_height_mm: 0,
    }
}

#[test]
fn detects_unknown_request() {
    assert!(is_missing_eval_extension("unknown request"));
    assert!(is_missing_eval_extension("Unknown Request"));
}

#[test]
fn does_not_flag_lua_errors() {
    assert!(!is_missing_eval_extension("error: attempt to call a nil value"));
    assert!(!is_missing_eval_extension("ok"));
}

#[test]
fn mode_parse_normal() {
    let m = Mode::parse("1920x1200@60.00Hz").unwrap();
    assert_eq!(m.width, 1920);
    assert_eq!(m.height, 1200);
    assert!((m.refresh as f64 / 100.0 - 60.0).abs() < 0.01);
}

#[test]
fn mode_parse_fractional() {
    let m = Mode::parse("3840x2160@59.94Hz").unwrap();
    assert_eq!(m.width, 3840);
    assert_eq!(m.height, 2160);
    assert!((m.refresh as f64 / 100.0 - 59.94).abs() < 0.01);
}

#[test]
fn mode_compact_roundtrip() {
    let m = Mode { width: 1920, height: 1080, refresh: 6000 };
    let s = m.compact();
    let m2 = Mode::parse(&format!("{}Hz", s)).unwrap();
    assert_eq!(m.width, m2.width);
    assert_eq!(m.height, m2.height);
}

#[test]
fn format_hypr_line_normal() {
    let m = monitor("eDP-1", 1920, 1200, 0, 0);
    assert_eq!(format_hypr_line(&m), "monitor=eDP-1,1920x1200@60.00,0x0,1.00,transform,0,vrr,0");
}

#[test]
fn format_hypr_line_mirror() {
    let mut m = monitor("HDMI-A-1", 1920, 1080, 1920, 0);
    m.mirror_of = Some("eDP-1".into());
    assert_eq!(format_hypr_line(&m), "monitor=HDMI-A-1,1920x1080@60.00,auto,1.00,mirror,eDP-1");
}

#[test]
fn format_hypr_line_rotated_vrr_negative_position() {
    let mut m = monitor("DP-2", 2560, 1440, -2560, -40);
    m.transform = Transform::R90;
    m.vrr = true;
    m.scale = 125;
    m.active_mode.refresh = 14400;
    assert_eq!(
        format_hypr_line(&m),
        "monitor=DP-2,2560x1440@144.00,-2560x-40,1.25,transform,1,vrr,1"
    );
}

#[test]
fn mode_parse_rejects_malformed() {
    assert!(Mode::parse("1920x1080").is_none());
    assert!(Mode::parse("1920@60").is_none());
    assert!(Mode::parse("axb@60").is_none());
    assert!(Mode::parse("1920x1080@").is_none());
    let m = Mode::parse("1920x1080@60").unwrap();
    assert_eq!(m.refresh, 6000);
    let r = Mode::parse("1280x720@59.995Hz").unwrap();
    assert_eq!(r.refresh, 6000);
}

#[test]
fn mode_display_string() {
    let m = Mode { width: 3840, height: 2160, refresh: 5994 };
    assert_eq!(m.to_string(), "3840x2160@59.94Hz");
    assert_eq!(m.compact(), "3840x2160@59.94");
    assert_eq!(m.pixels(), 3840 * 2160);
}

#[test]
fn transform_codes_roundtrip() {
    for (i, t) in Transform::all().iter().enumerate() {
        assert_eq!(t.as_u8() as usize, i);
        assert_eq!(Transform::from_u8(i as u8), *t);
    }
    assert_eq!(Transform::from_u8(9), Transform::Normal);
    assert_eq!(Transform::FlippedR270.label(), "Flipped 270°");
}

#[test]
fn world_size_swaps_for_quarter_turns() {
    let mut m = monitor("eDP-1", 1920, 1200, 10, 20);
    assert_eq!((m.world_width(), m.world_height()), (1920, 1200));
    m.transform = Transform::R270;
    assert_eq!((m.world_width(), m.world_height()), (1200, 1920));
    assert_eq!(m.right_edge(), 1210);
    assert_eq!(m.bottom_edge(), 1940);
}

#[test]
fn suggested_scale_by_density() {
    let mut m = monitor("eDP-1", 1920, 1080, 0, 0);
    assert_eq!(m.suggested_scale(), None);
    // 24" 1080p: about 92 ppi.
    m.physical_width_mm = 531;
    m.physical_height_mm = 299;
    assert_eq!(m.suggested_scale(), Some(100));
    // 13" 1200p: about 174 ppi.
    let mut l = monitor("eDP-1", 1920, 1200, 0, 0);
    l.physical_width_mm = 280;
    l.physical_height_mm = 175;
    assert_eq!(l.suggested_scale(), Some(150));
}

#[test]
fn unique_resolutions_and_refreshes() {
    let mut m = monitor("eDP-1", 1920, 1080, 0, 0);
    m.available_modes = vec![
        Mode { width: 1920, height: 1080, refresh: 14400 },
        Mode { width: 1920, height: 1080, refresh: 6000 },
        Mode { width: 1280, height: 720, refresh: 6000 },
        Mode { width: 1920, height: 1080, refresh: 6000 },
    ];
    assert_eq!(m.unique_resolutions(), vec![(1920, 1080), (1280, 720)]);
    assert_eq!(m.refreshes_for(1920, 1080), vec![14400, 6000, 6000]);
    assert_eq!(m.refreshes_for(800, 600), Vec::<u32>::new());
}

#[test]
fn eval_reply_variants() {
    assert_eq!(classify_eval_reply("ok"), EvalReply::Applied);
    assert_eq!(classify_eval_reply("unknown command: eval"), EvalReply::MissingExtension);
    assert_eq!(classify_eval_reply("error: bad mode"), EvalReply::Failed);
}

fn raw(id: u32, name: &str, mirror_of: &str) -> RawMonitor {
    RawMonitor {
        id,
        name: name.into(),
        description: format!("{} panel", name),
        width: 1920,
        height: 1080,
        x: 0,
        y: 0,
        scale: 150,
        refresh_rate: 5994,
        transform: 3,
        available_modes: vec![
            "1280x720@60.00Hz".into(),
            "garbage".into(),
            "1920x1080@59.94Hz".into(),
            "1920x1080@59.94Hz".into(),
        ],
        physical_width: 344,
        physical_height: 194,
        dpms_status: true,
        vrr: false,
        mirror_of: mirror_of.into(),
        disabled: false,
    }
}

#[test]
fn resolve_monitors_sorts_modes_and_names_mirrors() {
    let ms = resolve_monitors(vec![raw(0, "eDP-1", "none"), raw(1, "HDMI-A-1", "0")]);
    assert_eq!(ms.len(), 2);
    assert_eq!(ms[0].mirror_of, None);
    assert_eq!(ms[1].mirror_of, Some("eDP-1".to_string()));
    assert_eq!(ms[0].transform, Transform::R270);
    assert_eq!(ms[0].scale, 150);
    assert_eq!(ms[0].active_mode, Mode { width: 1920, height: 1080, refresh: 5994 });
    assert_eq!(
        ms[0].available_modes,
        vec![
            Mode { width: 1920, height: 1080, refresh: 5994 },
            Mode { width: 1280, height: 720, refresh: 6000 },
        ]
    );
}

#[test]
fn apply_plan_puts_mirror_on_source() {
    let mut hdmi = monitor("HDMI-A-1", 1920, 1080, 1920, 0);
    hdmi.mirror_of = Some("eDP-1".into());
    let mut dp = monitor("DP-1", 2560, 1440, -2560, 0);
    dp.dpms = false;
    let ms = vec![monitor("eDP-1", 1920, 1200, 0, 0), hdmi, dp];
    let plan = apply_plan(&ms);
    assert_eq!(plan.statements.len(), 2);
    assert!(plan.statements[0].contains("output = \"eDP-1\""));
    assert!(plan.statements[0].contains("mirror = \"HDMI-A-1\""));
    assert!(plan.statements[1].contains("position = \"-2560x0\""));
    assert_eq!(plan.dpms_off, vec!["DP-1".to_string()]);
    let joined = join_statements(&plan.statements);
    assert_eq!(joined, format!("{}; {}", plan.statements[0], plan.statements[1]));
}

#[test]
fn mode_parse_reads_exponent_forms() {
    assert_eq!(Mode::parse("1920x1080@1e2Hz").unwrap().refresh, 10000);
    assert_eq!(Mode::parse("1920x1080@6.0E1").unwrap().refresh, 6000);
    assert_eq!(Mode::parse("1920x1080@+59.94e0Hz").unwrap().refresh, 5994);
    assert_eq!(Mode::parse("1920x1080@5994e-2").unwrap().refresh, 5994);
    assert_eq!(Mode::parse("1920x1080@599.45e-1").unwrap().refresh, 5995);
    assert_eq!(Mode::parse("1920x1080@1e-3").unwrap().refresh, 0);
    assert_eq!(Mode::parse("1920x1080@5e-3").unwrap().refresh, 1);
    assert_eq!(Mode::parse("1920x1080@0e99999999999999999999").unwrap().refresh, 0);
    assert_eq!(Mode::parse("1920x1080@7e-99999999999999999999").unwrap().refresh, 0);
    assert_eq!(Mode::parse("1920x1080@4e7").unwrap().refresh, 4_000_000_000);
    assert!(Mode::parse("1920x1080@1e8").is_none());
    assert!(Mode::parse("1920x1080@1e99999999999999999999").is_none());
    assert!(Mode::parse("1920x1080@1e").is_none());
    assert!(Mode::parse("1920x1080@e2").is_none());
    assert!(Mode::parse("1920x1080@1e2.5").is_none());
    assert!(Mode::parse("1920x1080@1e+-2").is_none());
    assert!(Mode::parse("1920x1080@-60").is_none());
}

#[test]
fn unknown_request_is_read_from_lowercased_text() {
    assert!(mentions_unknown_request("unknown request"));
    assert!(mentions_unknown_request("error: unknown command 'eval'"));
    assert!(!mentions_unknown_request("Unknown Request"));
    assert!(!mentions_unknown_request("ok"));
}

#[test]
fn eval_failure_words_each_reply() {
    assert_eq!(eval_failure("ok\n"), None);
    assert_eq!(eval_failure("  ok  "), None);
    assert_eq!(
        eval_failure("error: bad output name\n").as_deref(),
        Some("hyprctl: error: bad output name")
    );
    let lead = "breadmon: `hyprctl eval` (and the `hl.monitor()` Lua extension it uses \
                to apply monitor changes) is not available on this compositor. \
                This feature requires BOS (Bread OS)'s patched Hyprland build \u{2014} it \
                does not exist on vanilla/upstream Hyprland. See the breadmon README \
                for details. (raw hyprctl response: ";
    assert_eq!(
        eval_failure(" Unknown Request\n"),
        Some(format!("{}\"Unknown Request\")", lead))
    );
    assert_eq!(
        eval_failure("unknown command \"eval\""),
        Some(format!("{}\"unknown command \\\"eval\\\"\")", lead))
    );
}
