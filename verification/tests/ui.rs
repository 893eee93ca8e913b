use breadmon::monitor::{Mode, Monitor, Transform};
use breadmon::profile::from_monitors as profile_from_monitors;
use breadmon::ui::config_view::ConfigField;
use breadmon::ui::layout_view::CanvasPoint;
use breadmon::ui::mirror_view::MirrorField;
use breadmon::ui::profiles_view::{
    finish_profile_delete, finish_profile_load, finish_profile_save, ProfileField,
};
use breadmon::ui::{
    handle_app_key, handle_key, handle_mouse, key_allowed, mouse_allowed, AppState, Effect,
    Applied, KeyCode, KeyEvent, MouseButton, MouseEvent, MouseEventKind, StatusLevel, Tab,
};

fn mon(name: &str, w: u32, h: u32, x: i32, y: i32) -> Monitor {
    Monitor {
        name: name.into(),
        description: String::new(),
        active_mode: Mode { width: w, height: h, refresh: 6000 },
        x,
        y,
        scale: 100,
        transform: Transform::Normal,
        vrr: false,
        dpms: true,
        disabled: false,
        mirror_of: None,
        available_modes: vec![Mode { width: w, height: h, refresh: 6000 }],
        physical_width_mm: 0,
        physical_height_mm: 0,
    }
}

fn key(code: KeyCode) -> KeyEvent {
    KeyEvent { code, shift: false, ctrl: false }
}

fn ch(c: char) -> KeyEvent {
    key(KeyCode::Char(c))
}

fn press(state: &mut AppState, ev: KeyEvent) -> Effect {
    assert!(key_allowed(state, ev));
    handle_key(ev, state)
}

fn status(state: &AppState) -> (String, StatusLevel) {
    let s = state.status.as_ref().expect("a status message");
    (s.text.clone(), s.level)
}

fn two() -> AppState {
    AppState::new(vec![mon("eDP-1", 1920, 1200, 0, 0), mon("HDMI-A-1", 1920, 1080, 1925, 0)], (120, 40), vec![])
}

fn nowhere() -> CanvasPoint {
    CanvasPoint { hit: None, world_x: 0, world_y: 0, in_canvas: false }
}

#[test]
fn quit_prompts_once_with_unsaved_changes() {
    let mut s = two();
    assert_eq!(press(&mut s, ch('q')), Effect::Quit);
    s.dirty = true;
    assert_eq!(press(&mut s, ch('q')), Effect::Continue);
    assert!(s.quit_confirm);
    assert_eq!(status(&s), ("Unsaved changes. Press q again to quit.".to_string(), StatusLevel::Info));
    let ctrl_c = KeyEvent { code: KeyCode::Char('c'), shift: false, ctrl: true };
    assert_eq!(press(&mut s, ctrl_c), Effect::Quit);
}

#[test]
fn other_key_cancels_quit_warning() {
    let mut s = two();
    s.dirty = true;
    press(&mut s, ch('q'));
    press(&mut s, ch('n'));
    assert!(!s.quit_confirm);
    assert_eq!(press(&mut s, ch('q')), Effect::Continue);
}

#[test]
fn nudge_snaps_and_undo_restores() {
    let mut s = two();
    s.layout.selected = 1;
    press(&mut s, key(KeyCode::Left));
    // 1924 is within 10 px of eDP-1's right edge at 1920.
    assert_eq!(s.monitors[1].x, 1920);
    assert!(s.dirty);
    assert_eq!(s.undo_stack.len(), 1);
    let ctrl_z = KeyEvent { code: KeyCode::Char('z'), shift: false, ctrl: true };
    press(&mut s, ctrl_z);
    assert_eq!(s.monitors[1].x, 1925);
    assert!(s.undo_stack.is_empty());
    assert_eq!(status(&s), ("Undone.".to_string(), StatusLevel::Info));
    press(&mut s, ctrl_z);
    assert_eq!(status(&s), ("Nothing to undo.".to_string(), StatusLevel::Info));
}

#[test]
fn shift_nudges_ten_pixels() {
    let mut s = AppState::new(vec![mon("eDP-1", 1920, 1200, 500, 500)], (120, 40), vec![]);
    press(&mut s, KeyEvent { code: KeyCode::Char('j'), shift: true, ctrl: false });
    assert_eq!((s.monitors[0].x, s.monitors[0].y), (500, 510));
}

#[test]
fn undo_stack_keeps_twenty() {
    let mut s = AppState::new(vec![mon("eDP-1", 1920, 1200, 0, 0)], (120, 40), vec![]);
    for _ in 0..25 {
        press(&mut s, ch('l'));
    }
    assert_eq!(s.undo_stack.len(), 20);
    assert_eq!(s.monitors[0].x, 25);
    assert_eq!(s.undo_stack[19][0].x, 24);
    assert_eq!(s.undo_stack[0][0].x, 5);
}

#[test]
fn arrange_and_zoom_keys() {
    let mut s = two();
    press(&mut s, ch('0'));
    assert_eq!((s.monitors[1].x, s.monitors[1].y), (1920, 0));
    press(&mut s, ch(']'));
    assert_eq!(s.layout.zoom, 11);
    press(&mut s, ch('['));
    press(&mut s, ch('['));
    assert_eq!(s.layout.zoom, 9);
    press(&mut s, key(KeyCode::BackTab));
    assert_eq!(s.layout.selected, 1);
}

#[test]
fn tab_keys_switch_and_sync_config() {
    let mut s = two();
    s.layout.selected = 1;
    press(&mut s, ch('2'));
    assert_eq!(s.tab, Tab::Config);
    assert_eq!(s.config.monitor_idx, 1);
    assert_eq!(s.config.scale_str, "1.00");
    assert_eq!(s.config.resolutions, vec![(1920, 1080)]);
    assert_eq!(s.config.mirror_options, vec!["(none)".to_string(), "eDP-1".to_string()]);
    press(&mut s, key(KeyCode::F(4)));
    assert_eq!(s.tab, Tab::Profiles);
    press(&mut s, key(KeyCode::F(3)));
    assert_eq!(s.tab, Tab::Mirror);
    press(&mut s, ch('1'));
    assert_eq!(s.tab, Tab::Layout);
    press(&mut s, key(KeyCode::Enter));
    assert_eq!(s.tab, Tab::Config);
}

#[test]
fn config_scale_typing_commit_and_apply() {
    let mut s = two();
    press(&mut s, ch('2'));
    press(&mut s, ch('j'));
    press(&mut s, ch('j'));
    assert_eq!(s.config.current_field(), ConfigField::Scale);
    for _ in 0..4 {
        press(&mut s, key(KeyCode::Backspace));
    }
    assert_eq!(s.config.scale_str, "");
    press(&mut s, ch('5'));
    press(&mut s, ch('6'));
    assert!(s.config.scale_editing);
    assert_eq!(s.config.scale_str, "56");
    press(&mut s, key(KeyCode::Enter));
    assert_eq!(s.monitors[0].scale, 1000);
    assert_eq!(s.config.scale_str, "10.00");
    assert!(!s.config.scale_editing);
    assert!(s.pending_apply);
    assert!(!s.dirty);
    assert_eq!(status(&s), ("Applying...".to_string(), StatusLevel::Info));
}

#[test]
fn config_scale_commit_saturates_and_ignores_junk() {
    let mut s = two();
    press(&mut s, ch('2'));
    s.config.focused = 2;
    s.config.scale_str = "99999999999".into();
    press(&mut s, key(KeyCode::Enter));
    assert_eq!(s.monitors[0].scale, 1000);
    assert_eq!(s.config.scale_str, "10.00");
    s.config.scale_str = "0.0".into();
    press(&mut s, key(KeyCode::Enter));
    assert_eq!(s.monitors[0].scale, 10);
    s.config.scale_str = "1.2.3".into();
    s.config.scale_editing = true;
    press(&mut s, key(KeyCode::Enter));
    assert_eq!(s.monitors[0].scale, 10);
    assert_eq!(s.config.scale_str, "1.2.3");
    assert!(!s.config.scale_editing);
    s.config.scale_str = "+1.255".into();
    press(&mut s, key(KeyCode::Enter));
    assert_eq!(s.monitors[0].scale, 126);
}

#[test]
fn config_scale_commit_reads_exponents_signs_and_infinities() {
    let mut s = two();
    press(&mut s, ch('2'));
    s.config.focused = 2;
    let cases = [
        ("1.5e0", 150),
        ("15E-1", 150),
        ("2.5e-1", 25),
        ("2e1", 1000),
        ("-3", 10),
        ("-0", 10),
        ("inf", 1000),
        ("-Infinity", 10),
        ("+INF", 1000),
        ("1e-9", 10),
        ("1e999999999999999999999", 1000),
        ("0e99999999999999999999", 10),
    ];
    for (text, want) in cases {
        s.config.scale_str = text.into();
        s.config.scale_editing = true;
        press(&mut s, key(KeyCode::Enter));
        assert_eq!(s.monitors[0].scale, want, "{}", text);
        assert!(!s.config.scale_editing);
    }
    s.config.scale_str = "1.25".into();
    press(&mut s, key(KeyCode::Enter));
    assert_eq!(s.monitors[0].scale, 125);
    for text in ["1e", "e5", "--1", "+-1", "1e+-2", "infin", "-"] {
        s.config.scale_str = text.into();
        s.config.scale_editing = true;
        press(&mut s, key(KeyCode::Enter));
        assert_eq!(s.monitors[0].scale, 125, "{}", text);
        assert_eq!(s.config.scale_str, text);
    }
}

#[test]
fn config_scale_steps_and_transform_cycle() {
    let mut s = two();
    press(&mut s, ch('2'));
    s.config.focused = 2;
    press(&mut s, ch(','));
    assert_eq!(s.monitors[0].scale, 90);
    assert_eq!(s.config.scale_str, "0.90");
    for _ in 0..10 {
        press(&mut s, ch(','));
    }
    assert_eq!(s.monitors[0].scale, 10);
    press(&mut s, ch('.'));
    assert_eq!(s.monitors[0].scale, 20);
    press(&mut s, ch('j'));
    assert_eq!(s.config.current_field(), ConfigField::Transform);
    press(&mut s, ch('h'));
    assert_eq!(s.monitors[0].transform, Transform::FlippedR270);
    press(&mut s, ch('l'));
    assert_eq!(s.monitors[0].transform, Transform::Normal);
    press(&mut s, ch('j'));
    press(&mut s, ch(' '));
    assert!(s.monitors[0].vrr);
    press(&mut s, ch('j'));
    press(&mut s, ch('l'));
    assert!(!s.monitors[0].dpms);
    assert!(s.dirty);
}

#[test]
fn config_mirror_field_and_monitor_switch() {
    let mut s = two();
    press(&mut s, ch('2'));
    s.config.focused = 6;
    press(&mut s, ch('l'));
    assert_eq!(s.monitors[0].mirror_of.as_deref(), Some("HDMI-A-1"));
    press(&mut s, ch('h'));
    assert_eq!(s.monitors[0].mirror_of, None);
    press(&mut s, ch(']'));
    assert_eq!(s.config.monitor_idx, 1);
    assert_eq!(s.layout.selected, 1);
    press(&mut s, ch('['));
    assert_eq!(s.config.monitor_idx, 0);
    press(&mut s, ch('['));
    assert_eq!(s.config.monitor_idx, 1);
}

#[test]
fn config_esc_discards_typed_scale() {
    let mut s = two();
    press(&mut s, ch('2'));
    s.config.focused = 2;
    press(&mut s, ch('7'));
    assert_eq!(s.config.scale_str, "1.007");
    press(&mut s, key(KeyCode::Esc));
    assert_eq!(s.config.scale_str, "1.00");
    assert!(!s.config.scale_editing);
    assert_eq!(press(&mut s, ch('s')), Effect::Continue);
    assert_eq!(status(&s).0, "Enter a profile name first.");
    s.profiles.new_name = "work".into();
    assert_eq!(press(&mut s, ch('s')), Effect::SaveProfile("work".into()));
}

#[test]
fn config_resolution_and_refresh_steps() {
    let mut a = mon("eDP-1", 1920, 1080, 0, 0);
    a.available_modes = vec![
        Mode { width: 1920, height: 1080, refresh: 14400 },
        Mode { width: 1920, height: 1080, refresh: 6000 },
        Mode { width: 1280, height: 720, refresh: 6000 },
    ];
    let mut s = AppState::new(vec![a], (120, 40), vec![]);
    press(&mut s, ch('2'));
    assert_eq!(s.config.res_idx, 0);
    assert_eq!(s.config.refreshes, vec![14400, 6000]);
    assert_eq!(s.config.refresh_idx, 1);
    press(&mut s, ch('l'));
    assert_eq!(s.config.res_idx, 1);
    assert_eq!(s.monitors[0].active_mode, Mode { width: 1280, height: 720, refresh: 6000 });
    press(&mut s, ch('l'));
    assert_eq!(s.config.res_idx, 1);
    press(&mut s, ch('h'));
    press(&mut s, ch('j'));
    assert_eq!(s.config.current_field(), ConfigField::Refresh);
    press(&mut s, ch('h'));
    assert_eq!(s.monitors[0].active_mode.refresh, 14400);
}

#[test]
fn mirror_tab_compute_and_apply() {
    let mut s = two();
    press(&mut s, ch('3'));
    assert_eq!(s.mirror.current_field(), MirrorField::Source);
    press(&mut s, ch('j'));
    press(&mut s, ch('l'));
    assert_eq!((s.mirror.source_idx, s.mirror.target_idx), (0, 1));
    press(&mut s, ch('j'));
    assert_eq!(s.mirror.current_field(), MirrorField::Compute);
    // Without a result, moving on skips the result buttons.
    press(&mut s, ch('j'));
    assert_eq!(s.mirror.focused, 0);
    s.mirror.focused = 2;
    press(&mut s, key(KeyCode::Enter));
    assert_eq!(status(&s), ("No compatible modes found between these monitors.".to_string(), StatusLevel::Error));
    s.monitors[1].available_modes = vec![Mode { width: 1920, height: 1200, refresh: 6000 }];
    press(&mut s, key(KeyCode::Enter));
    assert!(s.mirror.result.is_some());
    assert_eq!(s.mirror.current_field(), MirrorField::Apply);
    press(&mut s, key(KeyCode::Enter));
    assert_eq!(s.monitors[1].mirror_of.as_deref(), Some("eDP-1"));
    assert_eq!(s.monitors[1].active_mode, Mode { width: 1920, height: 1200, refresh: 6000 });
    assert!(s.dirty);
    assert!(s.mirror.result.is_none());
    assert_eq!(
        status(&s),
        ("Mirror set: eDP-1 → HDMI-A-1 at 1920x1200@60.00Hz".to_string(), StatusLevel::Success)
    );
}

#[test]
fn mirror_pickers_stay_distinct() {
    let mut s = AppState::new(
        vec![mon("A", 1920, 1080, 0, 0), mon("B", 1920, 1080, 0, 0), mon("C", 1920, 1080, 0, 0)],
        (120, 40),
        vec![],
    );
    press(&mut s, ch('3'));
    // Stepping the source onto the target pushes the target on.
    s.mirror.target_idx = 1;
    press(&mut s, ch('l'));
    assert_eq!((s.mirror.source_idx, s.mirror.target_idx), (1, 2));
    press(&mut s, ch('j'));
    press(&mut s, ch('h'));
    assert_eq!((s.mirror.source_idx, s.mirror.target_idx), (1, 2));
    press(&mut s, ch('l'));
    assert_eq!((s.mirror.source_idx, s.mirror.target_idx), (1, 0));
}

#[test]
fn mirror_tab_needs_two_monitors() {
    let mut s = AppState::new(vec![mon("A", 1920, 1080, 0, 0)], (120, 40), vec![]);
    press(&mut s, ch('3'));
    press(&mut s, ch('j'));
    assert_eq!(s.mirror.focused, 0);
}

#[test]
fn profiles_name_input_and_save() {
    let mut s = AppState::new(vec![mon("A", 1920, 1080, 0, 0)], (120, 40), vec![]);
    press(&mut s, ch('4'));
    press(&mut s, key(KeyCode::Tab));
    assert_eq!(s.profiles.focused, ProfileField::NameInput);
    assert_eq!(press(&mut s, key(KeyCode::Enter)), Effect::Continue);
    assert_eq!(status(&s), ("Enter a profile name first.".to_string(), StatusLevel::Info));
    for c in ['d', 'é', '!', '-', '_', ' ', '7'] {
        press(&mut s, ch(c));
    }
    assert_eq!(s.profiles.new_name, "dé-_7");
    press(&mut s, key(KeyCode::Backspace));
    assert_eq!(s.profiles.new_name, "dé-_");
    s.profiles.new_name = "  desk \t".into();
    press(&mut s, key(KeyCode::Tab));
    assert_eq!(s.profiles.focused, ProfileField::SaveBtn);
    assert_eq!(press(&mut s, key(KeyCode::Enter)), Effect::SaveProfile("desk".into()));
    finish_profile_save(&mut s, "desk", Ok(()), vec!["desk".into()]);
    assert_eq!(s.profiles.new_name, "");
    assert_eq!(s.profiles.profiles, vec!["desk".to_string()]);
    assert_eq!(status(&s), ("Saved profile 'desk'".to_string(), StatusLevel::Success));
    finish_profile_save(&mut s, "desk", Err("disk full".into()), vec![]);
    assert_eq!(status(&s), ("Save failed: disk full".to_string(), StatusLevel::Error));
    press(&mut s, key(KeyCode::Esc));
    assert_eq!(s.profiles.focused, ProfileField::List);
}

#[test]
fn profiles_delete_needs_two_presses() {
    let mut s = AppState::new(vec![mon("A", 1920, 1080, 0, 0)], (120, 40), vec!["a".into(), "b".into()]);
    press(&mut s, ch('4'));
    assert_eq!(press(&mut s, ch('d')), Effect::Continue);
    assert_eq!(status(&s), ("Press d again to delete 'a' (3s to cancel)".to_string(), StatusLevel::Info));
    assert_eq!(press(&mut s, ch('d')), Effect::DeleteProfile("a".into()));
    finish_profile_delete(&mut s, "a", Ok(()), vec!["b".into()]);
    assert!(s.profiles.delete_confirm.is_none());
    assert_eq!(status(&s), ("Deleted profile 'a'".to_string(), StatusLevel::Success));
    assert_eq!(press(&mut s, ch('d')), Effect::Continue);
    finish_profile_delete(&mut s, "b", Err("gone".into()), vec![]);
    assert_eq!(status(&s), ("Delete failed: gone".to_string(), StatusLevel::Error));
}

#[test]
fn profiles_load_applies_snapshot() {
    let saved = vec![mon("A", 2560, 1440, -2560, 0)];
    let profile = profile_from_monitors("desk", &saved);
    let mut s = AppState::new(vec![mon("A", 1920, 1080, 0, 0)], (120, 40), vec!["desk".into()]);
    press(&mut s, ch('4'));
    press(&mut s, ch('j'));
    assert_eq!(s.profiles.selected_idx, 0);
    assert_eq!(press(&mut s, key(KeyCode::Enter)), Effect::LoadProfile("desk".into()));
    assert_eq!(s.undo_stack.len(), 1);
    finish_profile_load(&mut s, "desk", Ok(profile));
    assert_eq!(s.monitors[0].x, -2560);
    assert_eq!(s.monitors[0].active_mode.width, 2560);
    assert!(s.dirty);
    assert_eq!(status(&s), ("Loaded profile 'desk'. Press [a] to apply.".to_string(), StatusLevel::Success));
    finish_profile_load(&mut s, "desk", Err("bad toml".into()));
    assert_eq!(status(&s), ("Load failed: bad toml".to_string(), StatusLevel::Error));
}

#[test]
fn global_keys_apply_save_reload() {
    let mut s = two();
    s.dirty = true;
    assert_eq!(handle_app_key(ch('a'), &mut s), Effect::Continue);
    assert!(s.pending_apply);
    assert!(s.dirty);
    assert_eq!(status(&s), ("Applying...".to_string(), StatusLevel::Info));
    assert!(s.take_pending_apply());
    assert!(!s.take_pending_apply());
    assert_eq!(s.finish_apply(Ok(())), Some(Applied { profile: None }));
    assert_eq!(status(&s), ("Applied.".to_string(), StatusLevel::Success));
    assert_eq!(s.finish_apply(Err("hyprctl eval failed".into())), None);
    assert_eq!(status(&s), ("Apply failed: hyprctl eval failed".to_string(), StatusLevel::Error));
    assert_eq!(handle_app_key(ch('s'), &mut s), Effect::Continue);
    assert_eq!(status(&s), ("Enter a profile name first.".to_string(), StatusLevel::Info));
    s.profiles.new_name = " desk ".into();
    assert_eq!(handle_app_key(ch('s'), &mut s), Effect::SaveProfile("desk".into()));
    s.profiles.new_name = "\u{3000}\u{85}my desk\u{a0}\n".into();
    assert_eq!(handle_app_key(ch('s'), &mut s), Effect::SaveProfile("my desk".into()));
    assert_eq!(handle_app_key(ch('r'), &mut s), Effect::Reload);
    assert_eq!(handle_app_key(ch('q'), &mut s), Effect::Continue);
}

#[test]
fn completions_of_outside_work() {
    let mut s = two();
    s.layout.selected = 1;
    s.dirty = true;
    s.on_tick(Some(vec![]));
    assert_eq!(s.monitors.len(), 2);
    s.finish_reload(Ok(vec![mon("X", 800, 600, 0, 0)]));
    assert_eq!(s.layout.selected, 0);
    assert!(!s.dirty);
    assert_eq!(status(&s), ("Monitors refreshed.".to_string(), StatusLevel::Success));
    s.finish_reload(Err("no hyprctl".into()));
    assert_eq!(status(&s).0, "Refresh failed: no hyprctl");
    s.on_tick(Some(vec![]));
    assert!(s.monitors.is_empty());
    s.on_monitor_change(Some(vec![mon("Y", 800, 600, 0, 0)]));
    assert_eq!(s.monitors[0].name, "Y");
    assert_eq!(status(&s), ("Monitor configuration changed.".to_string(), StatusLevel::Info));
    s.tick_status();
    assert!(s.status.is_some());
}

#[test]
fn mouse_tab_bar_and_layout_drag() {
    let mut s = two();
    let click = |col: u16, row: u16| MouseEvent { kind: MouseEventKind::Down(MouseButton::Left), column: col, row };
    handle_mouse(click(12, 0), &mut s, nowhere());
    assert_eq!(s.tab, Tab::Config);
    handle_mouse(click(10, 1), &mut s, nowhere());
    assert_eq!(s.tab, Tab::Config);
    handle_mouse(click(0, 0), &mut s, nowhere());
    assert_eq!(s.tab, Tab::Layout);
    // The bottom bar ignores clicks.
    let at = CanvasPoint { hit: Some(1), world_x: 2000, world_y: 100, in_canvas: true };
    handle_mouse(click(20, 39), &mut s, at);
    assert!(s.drag_state.is_none());
    assert!(mouse_allowed(&s, click(20, 10), at));
    handle_mouse(click(20, 10), &mut s, at);
    assert_eq!(s.layout.selected, 1);
    assert_eq!(s.undo_stack.len(), 1);
    let drag = MouseEvent { kind: MouseEventKind::Drag(MouseButton::Left), column: 21, row: 10 };
    let to = CanvasPoint { hit: None, world_x: 1994, world_y: 103, in_canvas: true };
    assert!(mouse_allowed(&s, drag, to));
    handle_mouse(drag, &mut s, to);
    // 1925 - 6 = 1919 snaps to 1920; y 3 snaps to 0.
    assert_eq!((s.monitors[1].x, s.monitors[1].y), (1920, 0));
    let up = MouseEvent { kind: MouseEventKind::Up(MouseButton::Left), column: 21, row: 10 };
    handle_mouse(up, &mut s, to);
    assert!(s.drag_state.is_none());
    let wheel = MouseEvent { kind: MouseEventKind::ScrollUp, column: 21, row: 10 };
    handle_mouse(wheel, &mut s, to);
    assert_eq!(s.layout.zoom, 11);
}

#[test]
fn mouse_on_config_and_profiles() {
    let mut s = two();
    press(&mut s, ch('2'));
    let click = MouseEvent { kind: MouseEventKind::Down(MouseButton::Left), column: 5, row: 8 };
    handle_mouse(click, &mut s, nowhere());
    assert_eq!(s.config.current_field(), ConfigField::Transform);
    let wheel = MouseEvent { kind: MouseEventKind::ScrollUp, column: 5, row: 8 };
    handle_mouse(wheel, &mut s, nowhere());
    assert_eq!(s.monitors[0].transform, Transform::R90);
    s.profiles.profiles = vec!["a".into(), "b".into()];
    press(&mut s, ch('4'));
    let right = MouseEvent { kind: MouseEventKind::Down(MouseButton::Right), column: 5, row: 4 };
    assert_eq!(handle_mouse(right, &mut s, nowhere()), Effect::LoadProfile("b".into()));
    s.profiles.new_name = "x".into();
    let save = MouseEvent { kind: MouseEventKind::Down(MouseButton::Left), column: 110, row: 36 };
    assert_eq!(handle_mouse(save, &mut s, nowhere()), Effect::SaveProfile("x".into()));
    assert_eq!(s.profiles.focused, ProfileField::SaveBtn);
}

#[test]
fn preconditions_are_checked() {
    let mut s = two();
    press(&mut s, ch('2'));
    s.config.focused = 3;
    s.config.transform_idx = 20;
    assert!(!key_allowed(&s, ch('h')));
    assert!(key_allowed(&s, ch('q')));
    let mut m = two();
    m.monitors[1].available_modes = vec![Mode { width: 0, height: 0, refresh: 6000 }];
    press(&mut m, ch('3'));
    m.mirror.focused = 2;
    m.mirror.target_idx = 1;
    assert!(!key_allowed(&m, key(KeyCode::Enter)));
    let mut l = two();
    l.monitors[0].x = i32::MAX;
    assert!(!key_allowed(&l, ch('l')));
    assert!(key_allowed(&l, ch('h')));
}

#[test]
fn tab_geometry_and_labels() {
    assert_eq!(Tab::from_col(0), Some(Tab::Layout));
    assert_eq!(Tab::from_col(20), Some(Tab::Config));
    assert_eq!(Tab::from_col(21), None);
    assert_eq!(Tab::from_col(22), Some(Tab::Mirror));
    assert_eq!(Tab::from_col(44), Some(Tab::Profiles));
    assert_eq!(Tab::from_col(45), None);
    assert_eq!(Tab::Profiles.index(), 3);
    assert!(Tab::Mirror.hints().contains("[Enter]confirm"));
    assert_eq!(ConfigField::at(99), ConfigField::MirrorOf);
    assert_eq!(ConfigField::MirrorOf.label(), "Mirror of");
    assert_eq!(MirrorField::at(3), MirrorField::Apply);
}


#[test]
fn status_and_pending_delete_expire_after_three_seconds() {
    let mut s = two();
    s.set_status("hello".into(), StatusLevel::Info);
    s.expire_status(2);
    assert_eq!(status(&s).0, "hello");
    s.expire_status(3);
    assert!(s.status.is_none());
    s.expire_status(10);
    assert!(s.status.is_none());

    let mut p = AppState::new(vec![mon("A", 1920, 1080, 0, 0)], (120, 40), vec!["a".into()]);
    press(&mut p, ch('4'));
    press(&mut p, ch('d'));
    p.profiles.expire_delete_confirm(2);
    assert!(p.profiles.delete_confirm.is_some());
    p.profiles.expire_delete_confirm(3);
    assert!(p.profiles.delete_confirm.is_none());
    // With the pending delete forgotten, the next `d` asks again.
    assert_eq!(press(&mut p, ch('d')), Effect::Continue);
}

#[test]
fn active_profile_is_recorded_and_forgotten() {
    let saved = vec![mon("eDP-1", 2560, 1440, 0, 0)];
    let profile = profile_from_monitors("desk", &saved);
    let mut s = two();
    finish_profile_load(&mut s, "desk", Ok(profile));
    assert_eq!(s.active_profile.as_deref(), Some("desk"));
    assert_eq!(s.finish_apply(Ok(())), Some(Applied { profile: Some("desk".into()) }));
    // A nudge is an edit: the layout is no longer the loaded profile.
    press(&mut s, ch('l'));
    assert!(s.dirty);
    assert_eq!(s.active_profile, None);
    assert_eq!(s.finish_apply(Ok(())), Some(Applied { profile: None }));
    // Saving records the profile and counts the layout as saved.
    finish_profile_save(&mut s, "work", Ok(()), vec!["desk".into(), "work".into()]);
    assert_eq!(s.active_profile.as_deref(), Some("work"));
    assert!(!s.dirty);
    // A config-field edit forgets it again; a failed save records nothing.
    press(&mut s, ch('2'));
    s.config.focused = 4;
    press(&mut s, ch(' '));
    assert!(s.monitors[0].vrr);
    assert_eq!(s.active_profile, None);
    finish_profile_save(&mut s, "x", Err("disk full".into()), vec![]);
    assert_eq!(s.active_profile, None);
    // Dragging is an edit too.
    s.active_profile = Some("desk".into());
    press(&mut s, ch('1'));
    let down = MouseEvent { kind: MouseEventKind::Down(MouseButton::Left), column: 20, row: 10 };
    handle_mouse(down, &mut s, CanvasPoint { hit: Some(1), world_x: 2000, world_y: 0, in_canvas: true });
    let drag = MouseEvent { kind: MouseEventKind::Drag(MouseButton::Left), column: 25, row: 10 };
    handle_mouse(drag, &mut s, CanvasPoint { hit: None, world_x: 2300, world_y: 0, in_canvas: true });
    assert_eq!(s.monitors[1].x, 2225);
    assert_eq!(s.active_profile, None);
}
