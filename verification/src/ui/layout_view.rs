//! The layout tab: nudging, dragging and arranging monitors on the canvas.
use vstd::prelude::*;

use crate::layout::{
    auto_arrange, check_i32, check_nudge, check_row, fits_i32, move_selected, moved_to, nudge_fits,
    row_fits, snap_position, snap_position_wide, snapped, width_prefix, LayoutState,
};
use crate::monitor::Monitor;
use crate::ui::{
    pushed_undo, AppState, DragState, KeyCode, KeyEvent, MouseButton, MouseEvent, MouseEventKind, Tab,
};
use crate::ui::config_view::synced_from;

verus! {

pub open spec fn is_key(ev: KeyEvent, c: char, alt: KeyCode) -> bool {
    ev.code == KeyCode::Char(c) || ev.code == alt
}

/// Nudge for a layout key: 10 px with Shift, else 1 px.
pub open spec fn nudge_of(ev: KeyEvent) -> Option<(i32, i32)> {
    let step: i32 = if ev.shift { 10 } else { 1 };
    if is_key(ev, 'h', KeyCode::Left) {
        Some((-step as i32, 0i32))
    } else if is_key(ev, 'l', KeyCode::Right) {
        Some((step, 0i32))
    } else if is_key(ev, 'k', KeyCode::Up) {
        Some((0i32, -step as i32))
    } else if is_key(ev, 'j', KeyCode::Down) {
        Some((0i32, step))
    } else {
        None
    }
}

/// The layout keys that cannot overflow on this state.
pub open spec fn layout_key_ok(s: AppState, ev: KeyEvent) -> bool {
    &&& nudge_of(ev) matches Some(d) ==> nudge_fits(s.layout, s.monitors@, d.0 as int, d.1 as int)
    &&& ev.code == KeyCode::Char('0') ==> row_fits(s.monitors@)
    &&& (ev.code == KeyCode::Tab || ev.code == KeyCode::Char('n')) ==> s.layout.selected < usize::MAX
}

/// The selection after a step forward through `n` monitors.
pub open spec fn selection_next(sel: usize, n: nat) -> usize {
    if n > 0 {
        ((sel + 1) % (n as int)) as usize
    } else {
        sel
    }
}

/// The selection after a step back through `n` monitors.
pub open spec fn selection_prev(sel: usize, n: nat) -> usize {
    if n == 0 {
        sel
    } else if sel == 0 {
        (n - 1) as usize
    } else {
        (sel - 1) as usize
    }
}

pub open spec fn zoomed_in(z: u32) -> u32 {
    if z + 1 > 50 {
        50
    } else {
        (z + 1) as u32
    }
}

pub open spec fn zoomed_out(z: u32) -> u32 {
    if z < 2 {
        1
    } else {
        (z - 1) as u32
    }
}

/// The state with the layout's selection or zoom replaced.
pub open spec fn with_layout(a: AppState, l: LayoutState) -> AppState {
    AppState { layout: l, ..a }
}

/// The monitors after nudging the selected one by `d` and snapping.
pub open spec fn nudged(a: AppState, d: (i32, i32)) -> Seq<Monitor> {
    let ms = a.monitors@;
    let i = a.layout.selected as int;
    if i < ms.len() {
        let sn = snapped(ms, i, ms[i].x + d.0, ms[i].y + d.1, a.layout.snap_threshold as int);
        moved_to(ms, i, sn.0, sn.1)
    } else {
        ms
    }
}

/// The monitors after the left-to-right arrangement.
pub open spec fn arranged(ms: Seq<Monitor>, r: Seq<Monitor>) -> bool {
    &&& r.len() == ms.len()
    &&& forall|i: int| 0 <= i < ms.len() ==> #[trigger] r[i] == (Monitor {
        x: width_prefix(ms, i) as i32,
        y: 0,
        ..ms[i]
    })
}

/// Effect of a layout-tab key.
pub open spec fn layout_key_effect(a: AppState, b: AppState, ev: KeyEvent) -> bool {
    let n = a.monitors@.len();
    match nudge_of(ev) {
        Some(d) => {
            &&& pushed_undo(a.undo_stack@, b.undo_stack@, a.monitors@)
            &&& b.monitors@ == nudged(a, d)
            &&& b == (AppState { monitors: b.monitors, undo_stack: b.undo_stack, dirty: true, active_profile: None, ..a })
        },
        None => if ev.code == KeyCode::Tab || ev.code == KeyCode::Char('n') {
            b == with_layout(a, LayoutState { selected: selection_next(a.layout.selected, n), ..a.layout })
        } else if ev.code == KeyCode::BackTab || ev.code == KeyCode::Char('p') {
            b == with_layout(a, LayoutState { selected: selection_prev(a.layout.selected, n), ..a.layout })
        } else if ev.code == KeyCode::Char('[') {
            b == with_layout(a, LayoutState { zoom: zoomed_out(a.layout.zoom), ..a.layout })
        } else if ev.code == KeyCode::Char(']') {
            b == with_layout(a, LayoutState { zoom: zoomed_in(a.layout.zoom), ..a.layout })
        } else if ev.code == KeyCode::Char('0') {
            &&& pushed_undo(a.undo_stack@, b.undo_stack@, a.monitors@)
            &&& arranged(a.monitors@, b.monitors@)
            &&& b == (AppState { monitors: b.monitors, undo_stack: b.undo_stack, dirty: true, active_profile: None, ..a })
        } else if ev.code == KeyCode::Enter {
            &&& b == (AppState { tab: Tab::Config, config: b.config, ..a })
            &&& n > 0 ==> synced_from(
                a.config,
                b.config,
                a.monitors@,
                if a.layout.selected < n {
                    a.layout.selected as int
                } else {
                    n - 1
                },
            )
            &&& n == 0 ==> b.config == a.config
        } else {
            b == a
        },
    }
}

/// Layout-tab keys: hjkl/arrows nudge the selected monitor (10 px with
/// Shift) and snap it, Tab/n and BackTab/p cycle the selection, `[`/`]`
/// zoom, `0` arranges left to right, Enter opens the config tab.
pub fn handle_key(event: KeyEvent, state: &mut AppState)
    requires
        layout_key_ok(*old(state), event),
    ensures
        layout_key_effect(*old(state), *final(state), event),
{
    let step: i32 = if event.shift {
        10
    } else {
        1
    };
    let count = state.monitors.len();
    match event.code {
        KeyCode::Char('h') | KeyCode::Left => {
            state.push_undo();
            move_selected(&state.layout, &mut state.monitors, -step, 0);
            state.mark_dirty();
        },
        KeyCode::Char('l') | KeyCode::Right => {
            state.push_undo();
            move_selected(&state.layout, &mut state.monitors, step, 0);
            state.mark_dirty();
        },
        KeyCode::Char('k') | KeyCode::Up => {
            state.push_undo();
            move_selected(&state.layout, &mut state.monitors, 0, -step);
            state.mark_dirty();
        },
        KeyCode::Char('j') | KeyCode::Down => {
            state.push_undo();
            move_selected(&state.layout, &mut state.monitors, 0, step);
            state.mark_dirty();
        },
        KeyCode::Tab | KeyCode::Char('n') => state.layout.next(count),
        KeyCode::BackTab | KeyCode::Char('p') => state.layout.prev(count),
        KeyCode::Char('[') => state.layout.zoom_out(),
        KeyCode::Char(']') => state.layout.zoom_in(),
        KeyCode::Char('0') => {
            state.push_undo();
            auto_arrange(&mut state.monitors);
            state.mark_dirty();
        },
        KeyCode::Enter => {
            state.config.sync_from_monitor(state.layout.selected, &state.monitors);
            state.tab = Tab::Config;
        },
        _ => {},
    }
}


/// Where a mouse event falls on the layout canvas, worked out by the
/// caller from the canvas geometry: the monitor drawn there (if any), the
/// world coordinates of the cell, and whether the cell is inside the canvas.
#[derive(Debug, Clone, Copy, PartialEq, Eq, Structural)]
pub struct CanvasPoint {
    pub hit: Option<usize>,
    pub world_x: i32,
    pub world_y: i32,
    pub in_canvas: bool,
}

/// Where a drag puts the dragged monitor before snapping.
pub open spec fn drag_target(d: DragState, at: CanvasPoint) -> (int, int) {
    (d.origin_x + (at.world_x - d.click_world_x), d.origin_y + (at.world_y - d.click_world_y))
}

/// The mouse events that cannot overflow or index out of range here.
pub open spec fn layout_mouse_ok(s: AppState, ev: MouseEvent, at: CanvasPoint) -> bool {
    &&& ev.kind == MouseEventKind::Down(MouseButton::Left) ==> (at.hit matches Some(i) ==> i < s.monitors@.len())
    &&& ev.kind == MouseEventKind::Drag(MouseButton::Left) ==> (s.drag_state matches Some(d) ==> {
        let t = drag_target(d, at);
        &&& d.monitor_idx < s.monitors@.len()
        &&& fits_i32(at.world_x - d.click_world_x)
        &&& fits_i32(at.world_y - d.click_world_y)
        &&& fits_i32(t.0)
        &&& fits_i32(t.1)
        &&& fits_i32(snapped(s.monitors@, d.monitor_idx as int, t.0, t.1, s.layout.snap_threshold as int).0)
        &&& fits_i32(snapped(s.monitors@, d.monitor_idx as int, t.0, t.1, s.layout.snap_threshold as int).1)
    })
    &&& ev.kind == MouseEventKind::ScrollDown && !at.in_canvas && s.monitors@.len() > 0 ==> s.layout.selected < usize::MAX
}

/// Effect of a layout-tab mouse event at canvas point `at`.
pub open spec fn layout_mouse_effect(a: AppState, b: AppState, ev: MouseEvent, at: CanvasPoint) -> bool {
    let n = a.monitors@.len();
    if ev.kind == MouseEventKind::Down(MouseButton::Left) {
        match at.hit {
            Some(i) => {
                &&& pushed_undo(a.undo_stack@, b.undo_stack@, a.monitors@)
                &&& b == (AppState {
                    undo_stack: b.undo_stack,
                    layout: LayoutState { selected: i, ..a.layout },
                    drag_state: Some(
                        DragState {
                            monitor_idx: i,
                            origin_x: a.monitors@[i as int].x,
                            origin_y: a.monitors@[i as int].y,
                            click_world_x: at.world_x,
                            click_world_y: at.world_y,
                        },
                    ),
                    ..a
                })
            },
            None => b == a,
        }
    } else if ev.kind == MouseEventKind::Drag(MouseButton::Left) {
        match a.drag_state {
            Some(d) => {
                let t = drag_target(d, at);
                let sn = snapped(a.monitors@, d.monitor_idx as int, t.0, t.1, a.layout.snap_threshold as int);
                &&& b.monitors@ == moved_to(a.monitors@, d.monitor_idx as int, sn.0, sn.1)
                &&& b == (AppState { monitors: b.monitors, dirty: true, active_profile: None, ..a })
            },
            None => b == a,
        }
    } else if ev.kind == MouseEventKind::Up(MouseButton::Left) {
        b == (AppState { drag_state: None, ..a })
    } else if ev.kind == MouseEventKind::ScrollUp {
        b == with_layout(
            a,
            if at.in_canvas {
                LayoutState { zoom: zoomed_in(a.layout.zoom), ..a.layout }
            } else {
                LayoutState { selected: selection_prev(a.layout.selected, n), ..a.layout }
            },
        )
    } else if ev.kind == MouseEventKind::ScrollDown {
        b == with_layout(
            a,
            if at.in_canvas {
                LayoutState { zoom: zoomed_out(a.layout.zoom), ..a.layout }
            } else {
                LayoutState { selected: selection_next(a.layout.selected, n), ..a.layout }
            },
        )
    } else {
        b == a
    }
}

/// Layout-tab mouse: press on a monitor selects it and starts a drag;
/// dragging moves it (snapping); release ends the drag; the wheel zooms
/// inside the canvas and cycles the selection outside it.
pub fn handle_mouse(event: MouseEvent, state: &mut AppState, at: CanvasPoint)
    requires
        layout_mouse_ok(*old(state), event, at),
    ensures
        layout_mouse_effect(*old(state), *final(state), event, at),
{
    match event.kind {
        MouseEventKind::Down(MouseButton::Left) => {
            if let Some(idx) = at.hit {
                state.push_undo();
                state.layout.selected = idx;
                state.drag_state = Some(
                    DragState {
                        monitor_idx: idx,
                        origin_x: state.monitors[idx].x,
                        origin_y: state.monitors[idx].y,
                        click_world_x: at.world_x,
                        click_world_y: at.world_y,
                    },
                );
            }
        },
        MouseEventKind::Drag(MouseButton::Left) => {
            if let Some(drag) = state.drag_state {
                let idx = drag.monitor_idx;
                let new_x = drag.origin_x + (at.world_x - drag.click_world_x);
                let new_y = drag.origin_y + (at.world_y - drag.click_world_y);
                let (sx, sy) = snap_position(idx, new_x, new_y, &state.monitors, state.layout.snap_threshold);
                state.monitors[idx].x = sx;
                state.monitors[idx].y = sy;
                assert(state.monitors@ =~= moved_to(old(state).monitors@, idx as int, sx as int, sy as int));
                state.mark_dirty();
            }
        },
        MouseEventKind::Up(MouseButton::Left) => {
            state.drag_state = None;
        },
        MouseEventKind::ScrollUp => {
            if at.in_canvas {
                state.layout.zoom_in();
            } else {
                let n = state.monitors.len();
                state.layout.prev(n);
            }
        },
        MouseEventKind::ScrollDown => {
            if at.in_canvas {
                state.layout.zoom_out();
            } else {
                let n = state.monitors.len();
                state.layout.next(n);
            }
        },
        _ => {},
    }
}

/// Whether `layout_key_ok` holds, for callers that cannot evaluate it.
pub fn layout_key_allowed(state: &AppState, event: KeyEvent) -> (r: bool)
    ensures
        r == layout_key_ok(*state, event),
{
    let step: i32 = if event.shift {
        10
    } else {
        1
    };
    let nudge_ok = match event.code {
        KeyCode::Char('h') | KeyCode::Left => check_nudge(&state.layout, &state.monitors, -step, 0),
        KeyCode::Char('l') | KeyCode::Right => check_nudge(&state.layout, &state.monitors, step, 0),
        KeyCode::Char('k') | KeyCode::Up => check_nudge(&state.layout, &state.monitors, 0, -step),
        KeyCode::Char('j') | KeyCode::Down => check_nudge(&state.layout, &state.monitors, 0, step),
        _ => true,
    };
    let row_ok = if event.code == KeyCode::Char('0') {
        check_row(&state.monitors)
    } else {
        true
    };
    let sel_ok = if event.code == KeyCode::Tab || event.code == KeyCode::Char('n') {
        state.layout.selected < usize::MAX
    } else {
        true
    };
    nudge_ok && row_ok && sel_ok
}

/// Whether `layout_mouse_ok` holds, for callers that cannot evaluate it.
pub fn layout_mouse_allowed(state: &AppState, event: MouseEvent, at: CanvasPoint) -> (r: bool)
    ensures
        r == layout_mouse_ok(*state, event, at),
{
    let n = state.monitors.len();
    let down_ok = if event.kind == MouseEventKind::Down(MouseButton::Left) {
        match at.hit {
            Some(i) => i < n,
            None => true,
        }
    } else {
        true
    };
    let drag_ok = if event.kind == MouseEventKind::Drag(MouseButton::Left) {
        match state.drag_state {
            Some(d) => {
                if d.monitor_idx >= n {
                    false
                } else {
                    let dx = at.world_x as i64 - d.click_world_x as i64;
                    let dy = at.world_y as i64 - d.click_world_y as i64;
                    let tx = d.origin_x as i64 + dx;
                    let ty = d.origin_y as i64 + dy;
                    if !(check_i32(dx) && check_i32(dy) && check_i32(tx) && check_i32(ty)) {
                        false
                    } else {
                        let (sx, sy) = snap_position_wide(
                            d.monitor_idx,
                            tx as i32,
                            ty as i32,
                            &state.monitors,
                            state.layout.snap_threshold,
                        );
                        check_i32(sx) && check_i32(sy)
                    }
                }
            },
            None => true,
        }
    } else {
        true
    };
    let scroll_ok = if event.kind == MouseEventKind::ScrollDown && !at.in_canvas && n > 0 {
        state.layout.selected < usize::MAX
    } else {
        true
    };
    down_ok && drag_ok && scroll_ok
}

/// Stepping the selection forward then back (or back then forward)
/// returns to the same monitor.
pub proof fn law_selection_cycle(sel: usize, n: usize)
    requires
        sel < n,
    ensures
        selection_prev(selection_next(sel, n as nat), n as nat) == sel,
        selection_next(selection_prev(sel, n as nat), n as nat) == sel,
        selection_next(sel, n as nat) < n,
        selection_prev(sel, n as nat) < n,
{
    if sel + 1 < n {
        assert((sel + 1) % (n as int) == sel + 1) by (nonlinear_arith)
            requires
                0 <= sel + 1 < n,
        ;
    } else {
        assert((sel + 1) % (n as int) == 0) by (nonlinear_arith)
            requires
                sel + 1 == n,
        ;
    }
    if sel == 0 {
        assert(((n - 1) + 1) % (n as int) == 0) by (nonlinear_arith)
            requires
                n >= 1,
        ;
    } else {
        assert(((sel - 1) + 1) % (n as int) == sel) by (nonlinear_arith)
            requires
                0 < sel < n,
        ;
    }
}

/// Zoom stays within 0.1x..5.0x, and zooming in then out (below the top)
/// gives the zoom back.
pub proof fn law_zoom_bounds(z: u32)
    requires
        1 <= z <= 50,
    ensures
        1 <= zoomed_in(z) <= 50,
        1 <= zoomed_out(z) <= 50,
        z < 50 ==> zoomed_out(zoomed_in(z)) == z,
        z > 1 ==> zoomed_in(zoomed_out(z)) == z,
{
}

/// A rectangle of terminal cells.
#[derive(Debug, Clone, Copy, PartialEq, Eq, Structural)]
pub struct Area {
    pub x: u16,
    pub y: u16,
    pub width: u16,
    pub height: u16,
}

/// The layout canvas for a terminal of size `(width, height)`: below the
/// two-row tab bar, above the readout row and the bottom bar.
pub fn canvas_area(terminal_size: (u16, u16)) -> (a: Area)
    ensures
        a == (Area {
            x: 0,
            y: 2,
            width: terminal_size.0,
            height: if terminal_size.1 >= 4 {
                (terminal_size.1 - 4) as u16
            } else {
                0
            },
        }),
{
    let (tw, th) = terminal_size;
    Area { x: 0, y: 2, width: tw, height: if th >= 4 { th - 4 } else { 0 } }
}

/// Whether a cell lies strictly inside the canvas border.
pub open spec fn inside(col: u16, row: u16, c: Area) -> bool {
    &&& col > c.x
    &&& col < c.x + (if c.width >= 1 { c.width - 1 } else { 0 })
    &&& row > c.y
    &&& row < c.y + (if c.height >= 1 { c.height - 1 } else { 0 })
}

/// Whether a cell lies strictly inside the canvas border.
pub fn in_canvas(col: u16, row: u16, canvas: Area) -> (r: bool)
    requires
        canvas.x + canvas.width <= u16::MAX,
        canvas.y + canvas.height <= u16::MAX,
    ensures
        r == inside(col, row, canvas),
{
    let w: u16 = if canvas.width >= 1 { canvas.width - 1 } else { 0 };
    let h: u16 = if canvas.height >= 1 { canvas.height - 1 } else { 0 };
    col > canvas.x && col < canvas.x + w && row > canvas.y && row < canvas.y + h
}

} // verus!
