use breadmon::layout::{auto_arrange, bounding_box, move_selected, snap_position, LayoutState};
use breadmon::monitor::{Mode, Monitor, Transform};

fn mon(name: &str, w: u32, h: u32, x: i32, y: i32) -> Monitor {
    Monitor {
        name: name.into(),
        description: String::new(),
        active_mode: Mode { width: w, height: h, refresh: 6000 },
        x,
        y,
        scale: 100,
        transform: Transform::Normal,
        vrr: false,
        dpms: true,
        disabled: false,
        mirror_of: None,
        available_modes: vec![],
        physical_width_mm: 0,
        physical_height_mm: 0,
    }
}

#[test]
fn snap_to_adjacent_right_edge() {
    let monitors = vec![mon("A", 1920, 1200, 0, 0), mon("B", 1920, 1080, 1915, 0)];
    let (sx, _sy) = snap_position(1, 1915, 0, &monitors, 10);
    assert_eq!(sx, 1920);
}

#[test]
fn no_snap_beyond_threshold() {
    let monitors = vec![mon("A", 1920, 1200, 0, 0), mon("B", 1920, 1080, 1950, 0)];
    let (sx, _sy) = snap_position(1, 1950, 0, &monitors, 10);
    assert_eq!(sx, 1950);
}

#[test]
fn auto_arrange_no_gaps() {
    let mut monitors = vec![mon("A", 1920, 1200, 100, 50), mon("B", 1280, 1024, 200, 100)];
    auto_arrange(&mut monitors);
    assert_eq!(monitors[0].x, 0);
    assert_eq!(monitors[0].y, 0);
    assert_eq!(monitors[1].x, 1920);
    assert_eq!(monitors[1].y, 0);
}

#[test]
fn auto_arrange_uses_rotated_widths() {
    let mut monitors = vec![mon("A", 1920, 1080, 5, 5), mon("B", 2560, 1440, 0, 0), mon("C", 800, 600, 0, 0)];
    monitors[0].transform = Transform::R90;
    auto_arrange(&mut monitors);
    let xs: Vec<i32> = monitors.iter().map(|m| m.x).collect();
    assert_eq!(xs, vec![0, 1080, 3640]);
    assert!(monitors.iter().all(|m| m.y == 0));
}

#[test]
fn snap_left_edge_to_left_edge_and_vertical() {
    let monitors = vec![mon("A", 1920, 1080, 0, 0), mon("B", 1280, 1024, 7, 1085)];
    // B's left edge 7 px from A's left edge, B's top 5 px below A's bottom.
    assert_eq!(snap_position(1, 7, 1085, &monitors, 10), (0, 1080));
    // Nothing to snap to when alone.
    let alone = vec![mon("A", 1920, 1080, 0, 0)];
    assert_eq!(snap_position(0, 3, 4, &alone, 10), (3, 4));
}

#[test]
fn nudge_snaps_to_neighbour() {
    let mut monitors = vec![mon("A", 1920, 1200, 0, 0), mon("B", 1920, 1080, 1935, 0)];
    let state = LayoutState { selected: 1, snap_threshold: 10, zoom: 10 };
    move_selected(&state, &mut monitors, -10, 0);
    assert_eq!(monitors[1].x, 1920);
    let far = LayoutState { selected: 5, snap_threshold: 10, zoom: 10 };
    move_selected(&far, &mut monitors, 100, 0);
    assert_eq!(monitors[1].x, 1920);
}

#[test]
fn layout_selection_and_zoom() {
    let mut s = LayoutState::default();
    assert_eq!(s, LayoutState { selected: 0, snap_threshold: 10, zoom: 10 });
    s.prev(3);
    assert_eq!(s.selected, 2);
    s.next(3);
    assert_eq!(s.selected, 0);
    s.selected = 7;
    s.clamp_selected(3);
    assert_eq!(s.selected, 2);
    s.clamp_selected(0);
    assert_eq!(s.selected, 0);
    for _ in 0..60 {
        s.zoom_in();
    }
    assert_eq!(s.zoom, 50);
    for _ in 0..60 {
        s.zoom_out();
    }
    assert_eq!(s.zoom, 1);
}

#[test]
fn bounding_box_covers_all() {
    let monitors = vec![mon("A", 1920, 1080, -100, 20), mon("B", 1280, 1024, 1820, -50)];
    assert_eq!(bounding_box(&monitors), (-100, -50, 3100, 1100));
    assert_eq!(bounding_box(&vec![]), (0, 0, 1, 1));
}
