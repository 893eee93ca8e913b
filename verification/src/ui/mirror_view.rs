//! The mirror tab: pick a source and a target, compute the best common
//! mode, and set the target to mirror the source.
use vstd::prelude::*;

use crate::mirror::{find_mirror_modes, mirror_modes, modes_have_size, MirrorResult};
use crate::monitor::{mode_compact, Mode, Monitor};
use crate::text::push_str;
use crate::ui::config_view::{is_next_key, is_prev_key};
use crate::ui::{
    pushed_undo, shows, AppState, KeyCode, KeyEvent, MouseButton, MouseEvent, MouseEventKind,
    StatusLevel,
};

verus! {

#[derive(Debug, Clone, Copy, PartialEq, Eq, Structural)]
pub enum MirrorField {
    Source,
    Target,
    Compute,
    Apply,
    Cancel,
}

/// The field at position `i` of the form (past the end: the last).
pub open spec fn mirror_field_at(i: nat) -> MirrorField {
    if i == 0 {
        MirrorField::Source
    } else if i == 1 {
        MirrorField::Target
    } else if i == 2 {
        MirrorField::Compute
    } else if i == 3 {
        MirrorField::Apply
    } else {
        MirrorField::Cancel
    }
}

impl MirrorField {
    pub fn at(i: usize) -> (f: MirrorField)
        ensures
            f == mirror_field_at(i as nat),
    {
        if i == 0 {
            MirrorField::Source
        } else if i == 1 {
            MirrorField::Target
        } else if i == 2 {
            MirrorField::Compute
        } else if i == 3 {
            MirrorField::Apply
        } else {
            MirrorField::Cancel
        }
    }
}

/// Mirror-tab state. `focused` indexes Source, Target, Compute, Apply,
/// Cancel.
#[derive(Debug)]
pub struct MirrorState {
    pub source_idx: usize,
    pub target_idx: usize,
    pub result: Option<MirrorResult>,
    pub focused: usize,
}

impl Default for MirrorState {
    fn default() -> (s: Self)
        ensures
            s.source_idx == 0 && s.target_idx == 0 && s.result is None && s.focused == 0,
    {
        MirrorState { source_idx: 0, target_idx: 0, result: None, focused: 0 }
    }
}

pub open spec fn is_result_button(f: MirrorField) -> bool {
    f == MirrorField::Apply || f == MirrorField::Cancel
}

impl MirrorState {
    pub fn current_field(&self) -> (f: MirrorField)
        ensures
            f == mirror_field_at(self.focused as nat),
    {
        MirrorField::at(self.focused)
    }

    /// Moves focus down; the result buttons are skipped while there is no
    /// result.
    pub fn next_field(&mut self)
        requires
            old(self).focused < usize::MAX,
        ensures
            final(self).focused == (if old(self).result is None && is_result_button(
                mirror_field_at(((old(self).focused + 1) % 5) as nat),
            ) {
                0
            } else {
                ((old(self).focused + 1) % 5) as usize
            }),
            final(self).source_idx == old(self).source_idx,
            final(self).target_idx == old(self).target_idx,
            final(self).result == old(self).result,
    {
        let mut next = (self.focused + 1) % 5;
        let f = MirrorField::at(next);
        if self.result.is_none() && (f == MirrorField::Apply || f == MirrorField::Cancel) {
            next = 0;
        }
        self.focused = next;
    }

    /// Moves focus up; from the result buttons without a result it lands on
    /// Compute.
    pub fn prev_field(&mut self)
        requires
            old(self).focused <= 5,
        ensures
            ({
                let p = if old(self).focused == 0 {
                    4
                } else {
                    old(self).focused - 1
                };
                final(self).focused == (if old(self).result is None && is_result_button(
                    mirror_field_at(p as nat),
                ) {
                    2
                } else {
                    p
                })
            }),
            final(self).source_idx == old(self).source_idx,
            final(self).target_idx == old(self).target_idx,
            final(self).result == old(self).result,
    {
        let mut prev = if self.focused == 0 {
            4
        } else {
            self.focused - 1
        };
        let f = MirrorField::at(prev);
        if self.result.is_none() && (f == MirrorField::Apply || f == MirrorField::Cancel) {
            prev = 2;
        }
        self.focused = prev;
    }

    /// Ensure source and target are different.
    pub fn fix_indices(&mut self, count: usize)
        requires
            count >= 2 ==> old(self).source_idx < usize::MAX,
        ensures
            final(self).target_idx == (if count >= 2 && old(self).source_idx == old(self).target_idx {
                ((old(self).source_idx + 1) % (count as int)) as usize
            } else {
                old(self).target_idx
            }),
            final(self).source_idx == old(self).source_idx,
            final(self).focused == old(self).focused,
            final(self).result == old(self).result,
    {
        if count < 2 {
            return;
        }
        if self.source_idx == self.target_idx {
            self.target_idx = (self.source_idx + 1) % count;
        }
    }
}

/// Position `i` stepped forward or back through `count` entries, wrapping.
pub open spec fn cycled(i: usize, count: nat, forward: bool) -> usize {
    if forward {
        ((i + 1) % (count as int)) as usize
    } else if i == 0 {
        (count - 1) as usize
    } else {
        (i - 1) as usize
    }
}

/// The source picker stepped; the target moves on if it would equal the
/// source, and any computed result is dropped.
pub open spec fn source_cycled(a: AppState, b: AppState, forward: bool) -> bool {
    let n = a.monitors@.len();
    let s = cycled(a.mirror.source_idx, n, forward);
    b == (AppState {
        mirror: MirrorState {
            source_idx: s,
            target_idx: if s == a.mirror.target_idx {
                ((s + 1) % (n as int)) as usize
            } else {
                a.mirror.target_idx
            },
            result: None,
            ..a.mirror
        },
        ..a
    })
}

/// The target picker stepped; if it lands on the source it moves past it,
/// and any computed result is dropped.
pub open spec fn target_cycled(a: AppState, b: AppState, forward: bool) -> bool {
    let n = a.monitors@.len();
    let t = cycled(a.mirror.target_idx, n, forward);
    b == (AppState {
        mirror: MirrorState {
            target_idx: if t == a.mirror.source_idx {
                ((a.mirror.source_idx + 1) % (n as int)) as usize
            } else {
                t
            },
            result: None,
            ..a.mirror
        },
        ..a
    })
}

/// The picked monitors exist and their modes have sizes.
pub open spec fn compute_ok(s: AppState) -> bool {
    &&& s.mirror.source_idx < s.monitors@.len()
    &&& s.mirror.target_idx < s.monitors@.len()
    &&& modes_have_size(s.monitors@[s.mirror.source_idx as int].available_modes@)
    &&& modes_have_size(s.monitors@[s.mirror.target_idx as int].available_modes@)
}

/// Compute: the result is stored and focus moves to Apply, or the status
/// says that no mode fits.
pub open spec fn computed(a: AppState, b: AppState) -> bool {
    match mirror_modes(
        a.monitors@[a.mirror.source_idx as int].available_modes@,
        a.monitors@[a.mirror.target_idx as int].available_modes@,
    ) {
        Some(r) => b == (AppState {
            mirror: MirrorState { result: Some(r), focused: 3, ..a.mirror },
            ..a
        }),
        None => {
            &&& b == (AppState { status: b.status, ..a })
            &&& shows(
                b.status,
                "No compatible modes found between these monitors."@,
                StatusLevel::Error,
            )
        },
    }
}

/// The status text after setting a mirror.
pub open spec fn mirror_set_text(src: Seq<char>, tgt: Seq<char>, m: crate::monitor::Mode) -> Seq<
    char,
> {
    "Mirror set: "@ + src + " → "@ + tgt + " at "@ + mode_compact(m) + "Hz"@
}

/// Apply: with a result, the target takes the mirror mode and mirrors the
/// source (after an undo snapshot); the form resets. Without one, nothing.
pub open spec fn result_applied(a: AppState, b: AppState) -> bool {
    match a.mirror.result {
        Some(r) => {
            let si = a.mirror.source_idx as int;
            let ti = a.mirror.target_idx as int;
            let src = a.monitors@[si].name;
            let ms = a.monitors@.update(
                ti,
                Monitor { active_mode: r.mirror_mode, mirror_of: Some(src), ..a.monitors@[ti] },
            );
            &&& pushed_undo(a.undo_stack@, b.undo_stack@, a.monitors@)
            &&& b.monitors@ == ms
            &&& b == (AppState {
                monitors: b.monitors,
                undo_stack: b.undo_stack,
                status: b.status,
                mirror: MirrorState { result: None, focused: 0, ..a.mirror },
                dirty: true,
                active_profile: None,
                ..a
            })
            &&& shows(
                b.status,
                mirror_set_text(src@, ms[ti].name@, r.mirror_mode),
                StatusLevel::Success,
            )
        },
        None => b == a,
    }
}

/// Cancel: the result is dropped and focus goes back to Source.
pub open spec fn cancelled(a: AppState, b: AppState) -> bool {
    b == (AppState { mirror: MirrorState { result: None, focused: 0, ..a.mirror }, ..a })
}

fn cycle_source(state: &mut AppState, forward: bool)
    requires
        old(state).monitors@.len() >= 2,
        forward ==> old(state).mirror.source_idx < usize::MAX,
    ensures
        source_cycled(*old(state), *final(state), forward),
{
    let count = state.monitors.len();
    state.mirror.source_idx = if forward {
        (state.mirror.source_idx + 1) % count
    } else if state.mirror.source_idx == 0 {
        count - 1
    } else {
        state.mirror.source_idx - 1
    };
    state.mirror.fix_indices(count);
    state.mirror.result = None;
}

fn cycle_target(state: &mut AppState, forward: bool)
    requires
        old(state).monitors@.len() >= 2,
        old(state).mirror.source_idx < usize::MAX,
        forward ==> old(state).mirror.target_idx < usize::MAX,
    ensures
        target_cycled(*old(state), *final(state), forward),
{
    let count = state.monitors.len();
    state.mirror.target_idx = if forward {
        (state.mirror.target_idx + 1) % count
    } else if state.mirror.target_idx == 0 {
        count - 1
    } else {
        state.mirror.target_idx - 1
    };
    state.mirror.fix_indices(count);
    state.mirror.result = None;
}

fn compute(state: &mut AppState)
    requires
        compute_ok(*old(state)),
    ensures
        computed(*old(state), *final(state)),
{
    let r = find_mirror_modes(
        &state.monitors[state.mirror.source_idx],
        &state.monitors[state.mirror.target_idx],
    );
    match r {
        Some(result) => {
            state.mirror.result = Some(result);
            state.mirror.focused = 3;
        },
        None => {
            state.set_status(
                String::from_str("No compatible modes found between these monitors."),
                StatusLevel::Error,
            );
        },
    }
}

fn apply_result(state: &mut AppState)
    requires
        old(state).mirror.result is Some ==> old(state).mirror.source_idx < old(state).monitors@.len()
            && old(state).mirror.target_idx < old(state).monitors@.len(),
    ensures
        result_applied(*old(state), *final(state)),
{
    match state.mirror.result {
        Some(result) => {
            state.push_undo();
            let src_name = state.monitors[state.mirror.source_idx].name.clone();
            let tgt_idx = state.mirror.target_idx;
            state.monitors[tgt_idx].active_mode = result.mirror_mode;
            state.monitors[tgt_idx].mirror_of = Some(src_name.clone());
            state.mark_dirty();
            state.mirror.result = None;
            state.mirror.focused = 0;
            let mut text = String::from_str("Mirror set: ");
            push_str(&mut text, src_name.as_str());
            push_str(&mut text, " → ");
            push_str(&mut text, state.monitors[tgt_idx].name.as_str());
            push_str(&mut text, " at ");
            let m = result.mirror_mode.to_string();
            push_str(&mut text, m.as_str());
            assert(text@ =~= mirror_set_text(src_name@, state.monitors@[tgt_idx as int].name@, result.mirror_mode));
            state.set_status(text, StatusLevel::Success);
            assert(state.monitors@ =~= old(state).monitors@.update(
                tgt_idx as int,
                Monitor {
                    active_mode: result.mirror_mode,
                    mirror_of: Some(src_name),
                    ..old(state).monitors@[tgt_idx as int]
                },
            ));
        },
        None => {},
    }
}

fn cancel(state: &mut AppState)
    ensures
        cancelled(*old(state), *final(state)),
{
    state.mirror.result = None;
    state.mirror.focused = 0;
}

/// The mirror keys that cannot overflow or index out of range here.
pub open spec fn mirror_key_ok(s: AppState, ev: KeyEvent) -> bool {
    let f = mirror_field_at(s.mirror.focused as nat);
    s.monitors@.len() >= 2 ==> {
        &&& is_next_key(ev) ==> s.mirror.focused < usize::MAX
        &&& is_prev_key(ev) ==> s.mirror.focused <= 5
        &&& (is_step_key(ev, false) || is_step_key(ev, true)) && f == MirrorField::Source ==> (
        is_step_key(ev, true) ==> s.mirror.source_idx < usize::MAX)
        &&& (is_step_key(ev, false) || is_step_key(ev, true)) && f == MirrorField::Target ==> {
            &&& s.mirror.source_idx < usize::MAX
            &&& is_step_key(ev, true) ==> s.mirror.target_idx < usize::MAX
        }
        &&& ev.code == KeyCode::Enter && f == MirrorField::Compute ==> compute_ok(s)
        &&& ev.code == KeyCode::Enter && f == MirrorField::Apply && s.mirror.result is Some ==> {
            &&& s.mirror.source_idx < s.monitors@.len()
            &&& s.mirror.target_idx < s.monitors@.len()
        }
    }
}

/// h/Left (backward) or l/Right (forward).
pub open spec fn is_step_key(ev: KeyEvent, forward: bool) -> bool {
    if forward {
        ev.code == KeyCode::Char('l') || ev.code == KeyCode::Right
    } else {
        ev.code == KeyCode::Char('h') || ev.code == KeyCode::Left
    }
}

/// Effect of a mirror-tab key.
pub open spec fn mirror_key_effect(a: AppState, b: AppState, ev: KeyEvent) -> bool {
    &&& (a.monitors@.len() < 2 ==> b == a)
    &&& (a.monitors@.len() >= 2 ==> {
        let f = mirror_field_at(a.mirror.focused as nat);
        &&& is_next_key(ev) ==> b == (AppState {
            mirror: MirrorState {
                focused: if a.mirror.result is None && is_result_button(
                    mirror_field_at(((a.mirror.focused + 1) % 5) as nat),
                ) {
                    0
                } else {
                    ((a.mirror.focused + 1) % 5) as usize
                },
                ..a.mirror
            },
            ..a
        })
        &&& is_prev_key(ev) ==> b == (AppState {
            mirror: MirrorState {
                focused: {
                    let p = if a.mirror.focused == 0 {
                        4
                    } else {
                        a.mirror.focused - 1
                    };
                    if a.mirror.result is None && is_result_button(mirror_field_at(p as nat)) {
                        2
                    } else {
                        p as usize
                    }
                },
                ..a.mirror
            },
            ..a
        })
        &&& is_step_key(ev, false) || is_step_key(ev, true) ==> {
            &&& f == MirrorField::Source ==> source_cycled(a, b, is_step_key(ev, true))
            &&& f == MirrorField::Target ==> target_cycled(a, b, is_step_key(ev, true))
            &&& f != MirrorField::Source && f != MirrorField::Target ==> b == a
        }
        &&& ev.code == KeyCode::Enter ==> {
            &&& f == MirrorField::Compute ==> computed(a, b)
            &&& f == MirrorField::Apply ==> result_applied(a, b)
            &&& f == MirrorField::Cancel ==> cancelled(a, b)
            &&& f == MirrorField::Source || f == MirrorField::Target ==> b == a
        }
        &&& ev.code == KeyCode::Esc ==> cancelled(a, b)
        &&& !is_next_key(ev) && !is_prev_key(ev) && !is_step_key(ev, false)
            && !is_step_key(ev, true) && ev.code != KeyCode::Enter && ev.code
            != KeyCode::Esc ==> b == a
    })
}

/// Mirror-tab keys (with at least two monitors; else nothing happens):
/// Tab/j and BackTab/k move focus, h/l cycle the focused picker, Enter
/// computes, applies or cancels, Esc cancels.
pub fn handle_key(event: KeyEvent, state: &mut AppState)
    requires
        mirror_key_ok(*old(state), event),
    ensures
        mirror_key_effect(*old(state), *final(state), event),
{
    let count = state.monitors.len();
    if count < 2 {
        return;
    }
    match event.code {
        KeyCode::Tab | KeyCode::Char('j') | KeyCode::Down => {
            state.mirror.next_field();
        },
        KeyCode::BackTab | KeyCode::Char('k') | KeyCode::Up => {
            state.mirror.prev_field();
        },
        KeyCode::Char('h') | KeyCode::Left => match state.mirror.current_field() {
            MirrorField::Source => cycle_source(state, false),
            MirrorField::Target => cycle_target(state, false),
            _ => {},
        },
        KeyCode::Char('l') | KeyCode::Right => match state.mirror.current_field() {
            MirrorField::Source => cycle_source(state, true),
            MirrorField::Target => cycle_target(state, true),
            _ => {},
        },
        KeyCode::Enter => match state.mirror.current_field() {
            MirrorField::Compute => compute(state),
            MirrorField::Apply => apply_result(state),
            MirrorField::Cancel => cancel(state),
            _ => {},
        },
        KeyCode::Esc => cancel(state),
        _ => {},
    }
}

/// The mirror mouse events that cannot overflow or index out of range.
pub open spec fn mirror_mouse_ok(s: AppState, ev: MouseEvent) -> bool {
    let f = mirror_field_at(s.mirror.focused as nat);
    s.monitors@.len() >= 2 ==> {
        &&& ev.kind == MouseEventKind::Down(MouseButton::Left) && ev.row == 6 ==> compute_ok(s)
        &&& ev.kind == MouseEventKind::Down(MouseButton::Left) && ev.row >= 7 && ev.column < 20
            && s.mirror.result is Some ==> {
            &&& s.mirror.source_idx < s.monitors@.len()
            &&& s.mirror.target_idx < s.monitors@.len()
        }
        &&& ev.kind == MouseEventKind::ScrollDown && f == MirrorField::Source ==> s.mirror.source_idx
            < usize::MAX
        &&& (ev.kind == MouseEventKind::ScrollUp || ev.kind == MouseEventKind::ScrollDown) && f
            == MirrorField::Target ==> {
            &&& s.mirror.source_idx < usize::MAX
            &&& ev.kind == MouseEventKind::ScrollDown ==> s.mirror.target_idx < usize::MAX
        }
    }
}

/// Effect of a mirror-tab mouse event.
pub open spec fn mirror_mouse_effect(a: AppState, b: AppState, ev: MouseEvent) -> bool {
    &&& (a.monitors@.len() < 2 ==> b == a)
    &&& (a.monitors@.len() >= 2 ==> {
        let f = mirror_field_at(a.mirror.focused as nat);
        let r = ev.row;
        &&& ev.kind == MouseEventKind::Down(MouseButton::Left) ==> {
            &&& (r == 2 || r == 3) ==> b == (AppState {
                mirror: MirrorState { focused: 0, ..a.mirror },
                ..a
            })
            &&& (r == 4 || r == 5) ==> b == (AppState {
                mirror: MirrorState { focused: 1, ..a.mirror },
                ..a
            })
            &&& r == 6 ==> computed(
                AppState { mirror: MirrorState { focused: 2, ..a.mirror }, ..a },
                b,
            )
            &&& r >= 7 && a.mirror.result is Some && ev.column < 20 ==> result_applied(a, b)
            &&& r >= 7 && a.mirror.result is Some && ev.column >= 20 ==> cancelled(a, b)
            &&& (r < 2 || r >= 7 && a.mirror.result is None) ==> b == a
        }
        &&& ev.kind == MouseEventKind::ScrollUp || ev.kind == MouseEventKind::ScrollDown ==> {
            &&& f == MirrorField::Source ==> source_cycled(
                a,
                b,
                ev.kind == MouseEventKind::ScrollDown,
            )
            &&& f == MirrorField::Target ==> target_cycled(
                a,
                b,
                ev.kind == MouseEventKind::ScrollDown,
            )
            &&& f != MirrorField::Source && f != MirrorField::Target ==> b == a
        }
        &&& ev.kind != MouseEventKind::Down(MouseButton::Left) && ev.kind
            != MouseEventKind::ScrollUp && ev.kind != MouseEventKind::ScrollDown ==> b == a
    })
}

/// Mirror-tab mouse (with at least two monitors): a click on rows 2-3
/// focuses Source, 4-5 Target, 6 Compute (and computes); below, with a
/// result, columns before 20 apply it and the rest cancel. The wheel
/// cycles the focused picker (up: back, down: forward).
pub fn handle_mouse(event: MouseEvent, state: &mut AppState)
    requires
        mirror_mouse_ok(*old(state), event),
    ensures
        mirror_mouse_effect(*old(state), *final(state), event),
{
    let count = state.monitors.len();
    if count < 2 {
        return;
    }
    let row = event.row;
    match event.kind {
        MouseEventKind::Down(MouseButton::Left) => {
            if row == 2 || row == 3 {
                state.mirror.focused = 0;
            } else if row == 4 || row == 5 {
                state.mirror.focused = 1;
            } else if row == 6 {
                state.mirror.focused = 2;
                compute(state);
            } else if row >= 7 && state.mirror.result.is_some() {
                if event.column < 20 {
                    state.mirror.focused = 3;
                    apply_result(state);
                } else {
                    cancel(state);
                }
            }
        },
        MouseEventKind::ScrollUp => match state.mirror.current_field() {
            MirrorField::Source => cycle_source(state, false),
            MirrorField::Target => cycle_target(state, false),
            _ => {},
        },
        MouseEventKind::ScrollDown => match state.mirror.current_field() {
            MirrorField::Source => cycle_source(state, true),
            MirrorField::Target => cycle_target(state, true),
            _ => {},
        },
        _ => {},
    }
}

fn modes_sized(v: &Vec<Mode>) -> (r: bool)
    ensures
        r == modes_have_size(v@),
{
    let mut i: usize = 0;
    while i < v.len()
        invariant
            i <= v.len(),
            forall|j: int| 0 <= j < i ==> (#[trigger] v@[j]).width > 0 || v@[j].height > 0,
        decreases v.len() - i,
    {
        if v[i].width == 0 && v[i].height == 0 {
            return false;
        }
        i = i + 1;
    }
    true
}

fn compute_allowed(state: &AppState) -> (r: bool)
    ensures
        r == compute_ok(*state),
{
    let n = state.monitors.len();
    state.mirror.source_idx < n && state.mirror.target_idx < n && modes_sized(
        &state.monitors[state.mirror.source_idx].available_modes,
    ) && modes_sized(&state.monitors[state.mirror.target_idx].available_modes)
}

/// Whether `mirror_key_ok` holds, for callers that cannot evaluate it.
pub fn mirror_key_allowed(state: &AppState, event: KeyEvent) -> (r: bool)
    ensures
        r == mirror_key_ok(*state, event),
{
    let n = state.monitors.len();
    if n < 2 {
        return true;
    }
    let f = state.mirror.current_field();
    let m = &state.mirror;
    let next = event.code == KeyCode::Char('j') || event.code == KeyCode::Down || event.code
        == KeyCode::Tab;
    let prev = event.code == KeyCode::Char('k') || event.code == KeyCode::Up || event.code
        == KeyCode::BackTab;
    let fwd = event.code == KeyCode::Char('l') || event.code == KeyCode::Right;
    let back = event.code == KeyCode::Char('h') || event.code == KeyCode::Left;
    let enter = event.code == KeyCode::Enter;
    (!next || m.focused < usize::MAX) && (!prev || m.focused <= 5) && (!((back || fwd) && f
        == MirrorField::Source) || !fwd || m.source_idx < usize::MAX) && (!((back || fwd) && f
        == MirrorField::Target) || m.source_idx < usize::MAX && (!fwd || m.target_idx
        < usize::MAX)) && (!(enter && f == MirrorField::Compute) || compute_allowed(state)) && (
    !(enter && f == MirrorField::Apply && m.result.is_some()) || m.source_idx < n && m.target_idx
        < n)
}

/// Whether `mirror_mouse_ok` holds, for callers that cannot evaluate it.
pub fn mirror_mouse_allowed(state: &AppState, event: MouseEvent) -> (r: bool)
    ensures
        r == mirror_mouse_ok(*state, event),
{
    let n = state.monitors.len();
    if n < 2 {
        return true;
    }
    let f = state.mirror.current_field();
    let m = &state.mirror;
    let down = event.kind == MouseEventKind::Down(MouseButton::Left);
    let up_wheel = event.kind == MouseEventKind::ScrollUp;
    let down_wheel = event.kind == MouseEventKind::ScrollDown;
    (!(down && event.row == 6) || compute_allowed(state)) && (!(down && event.row >= 7
        && event.column < 20 && m.result.is_some()) || m.source_idx < n && m.target_idx < n) && (
    !(down_wheel && f == MirrorField::Source) || m.source_idx < usize::MAX) && (!((up_wheel
        || down_wheel) && f == MirrorField::Target) || m.source_idx < usize::MAX && (!down_wheel
        || m.target_idx < usize::MAX))
}

/// The successor of a position, wrapped, is another position.
proof fn lemma_succ_mod(x: int, n: int)
    requires
        0 <= x < n,
        n >= 2,
    ensures
        (x + 1) % n != x,
        0 <= (x + 1) % n < n,
{
    if x + 1 < n {
        assert((x + 1) % n == x + 1) by (nonlinear_arith)
            requires
                0 <= x + 1 < n,
        ;
    } else {
        assert((x + 1) % n == 0) by (nonlinear_arith)
            requires
                x + 1 == n,
                n >= 2,
        ;
    }
}

/// Stepping either picker, with at least two monitors, leaves the source
/// and the target on different monitors.
pub proof fn law_pickers_distinct(a: AppState, b: AppState, forward: bool, source: bool)
    requires
        a.monitors@.len() >= 2,
        a.mirror.source_idx < a.monitors@.len(),
        a.mirror.target_idx < a.monitors@.len(),
        source ==> source_cycled(a, b, forward),
        !source ==> target_cycled(a, b, forward),
    ensures
        b.mirror.source_idx != b.mirror.target_idx,
        b.mirror.source_idx < a.monitors@.len(),
        b.mirror.target_idx < a.monitors@.len(),
        b.mirror.result is None,
{
    assert(a.monitors.len() == a.monitors@.len());
    let n = a.monitors@.len() as int;
    let s0 = a.mirror.source_idx as int;
    let t0 = a.mirror.target_idx as int;
    lemma_succ_mod(s0, n);
    lemma_succ_mod(t0, n);
    let sc = cycled(a.mirror.source_idx, n as nat, forward) as int;
    let tc = cycled(a.mirror.target_idx, n as nat, forward) as int;
    assert(0 <= sc < n && 0 <= tc < n);
    lemma_succ_mod(sc, n);

}

} // verus!
