//! The terminal interface's state and the decisions it makes on each key
//! and mouse event; drawing and the effects on the system are the caller's.

pub mod config_view;
pub mod layout_view;
pub mod mirror_view;
pub mod profiles_view;

use vstd::prelude::*;

use crate::layout::LayoutState;
use crate::monitor::{copy_monitors, same_monitors, Monitor};
use crate::text::push_str;
use config_view::{
    config_key_effect, config_key_ok, config_mouse_effect, config_mouse_ok, synced_from, ConfigState,
};
use layout_view::{
    layout_key_effect, layout_key_ok, layout_mouse_effect, layout_mouse_ok, CanvasPoint,
};
use mirror_view::{
    mirror_key_effect, mirror_key_ok, mirror_mouse_effect, mirror_mouse_ok, MirrorState,
};
use profiles_view::{
    profile_key_ok, profile_key_outcome, profile_mouse_effect, profile_mouse_ok, save_requested,
    ProfileField, ProfilesState,
};

verus! {

#[verifier::external_type_specification]
#[verifier::external_body]
pub struct ExInstant(std::time::Instant);

/// `Instant::now()`. Nothing is claimed of the value: it is the time.
#[verifier::external_body]
pub(crate) fn instant_now() -> std::time::Instant {
    std::time::Instant::now()
}

/// Whole seconds elapsed since `i` (`Instant::elapsed().as_secs()`).
/// Nothing is claimed of the value: it depends on the clock.
#[verifier::external_body]
pub(crate) fn secs_since(i: &std::time::Instant) -> u64 {
    i.elapsed().as_secs()
}

/// A key as the interface sees it.
#[derive(Debug, Clone, Copy, PartialEq, Eq, Structural)]
pub enum KeyCode {
    Char(char),
    Left,
    Right,
    Up,
    Down,
    Tab,
    BackTab,
    Enter,
    Esc,
    Backspace,
    F(u8),
    Other,
}

/// A key press with its modifiers.
#[derive(Debug, Clone, Copy, PartialEq, Eq, Structural)]
pub struct KeyEvent {
    pub code: KeyCode,
    pub shift: bool,
    pub ctrl: bool,
}

#[derive(Debug, Clone, Copy, PartialEq, Eq, Structural)]
pub enum MouseButton {
    Left,
    Right,
    Middle,
}

#[derive(Debug, Clone, Copy, PartialEq, Eq, Structural)]
pub enum MouseEventKind {
    Down(MouseButton),
    Up(MouseButton),
    Drag(MouseButton),
    Moved,
    ScrollUp,
    ScrollDown,
    Other,
}

/// A mouse event at a terminal cell.
#[derive(Debug, Clone, Copy, PartialEq, Eq, Structural)]
pub struct MouseEvent {
    pub kind: MouseEventKind,
    pub column: u16,
    pub row: u16,
}

#[derive(Debug, Clone, Copy, PartialEq, Eq, Structural)]
pub enum StatusLevel {
    Info,
    Success,
    Error,
}

/// A status-bar message and when it was set.
pub struct StatusMsg {
    pub text: String,
    pub level: StatusLevel,
    pub born: std::time::Instant,
}

/// Drag state for moving monitors in the layout canvas.
#[derive(Debug, Clone, Copy, PartialEq, Eq, Structural)]
pub struct DragState {
    pub monitor_idx: usize,
    pub origin_x: i32,
    pub origin_y: i32,
    pub click_world_x: i32,
    pub click_world_y: i32,
}


#[derive(Debug, Clone, Copy, PartialEq, Eq, Structural)]
pub enum Tab {
    Layout,
    Config,
    Mirror,
    Profiles,
}

pub open spec fn tab_index(t: Tab) -> nat {
    match t {
        Tab::Layout => 0,
        Tab::Config => 1,
        Tab::Mirror => 2,
        Tab::Profiles => 3,
    }
}

/// The tab whose title covers column `col` of the tab bar: titles of
/// widths 10, 10, 10 and 12, each followed by a one-column divider.
pub open spec fn tab_at_col(col: u16) -> Option<Tab> {
    if col < 10 {
        Some(Tab::Layout)
    } else if 11 <= col < 21 {
        Some(Tab::Config)
    } else if 22 <= col < 32 {
        Some(Tab::Mirror)
    } else if 33 <= col < 45 {
        Some(Tab::Profiles)
    } else {
        None
    }
}

pub open spec fn tab_hints(t: Tab) -> Seq<char> {
    match t {
        Tab::Layout => " [hjkl/drag]move  [Tab]next  [Shift+hjkl]×10  [0]arrange  [Ctrl+Z]undo  [a]apply  [s]save"@,
        Tab::Config => " [jk]field  [hl]value  [,.]scale  [Enter]apply  [Esc]cancel  [\\[\\]]monitor  [Ctrl+Z]undo"@,
        Tab::Mirror => " [Tab]focus  [hl]cycle  [Enter]confirm  [Ctrl+Z]undo"@,
        Tab::Profiles => " [jk]nav  [Enter]load  [d×2]delete  [Tab]name  [Ctrl+Z]undo"@,
    }
}

/// Column where tab title `i` starts.
pub open spec fn tab_start(i: int) -> int {
    if i <= 3 {
        11 * i
    } else {
        46
    }
}

impl Tab {
    pub fn index(self) -> (i: usize)
        ensures
            i == tab_index(self),
    {
        match self {
            Tab::Layout => 0,
            Tab::Config => 1,
            Tab::Mirror => 2,
            Tab::Profiles => 3,
        }
    }

    pub fn from_col(col: u16) -> (t: Option<Tab>)
        ensures
            t == tab_at_col(col),
    {
        let widths: [u16; 4] = [10, 10, 10, 12];
        let mut x: u16 = 0;
        let mut i: usize = 0;
        while i < 4
            invariant
                i <= 4,
                widths@ == seq![10u16, 10u16, 10u16, 12u16],
                x == tab_start(i as int),
                forall|j: int| 0 <= j < i ==> !(tab_start(j) <= col < tab_start(j) + #[trigger] widths@[j]),
            decreases 4 - i,
        {
            let w = widths[i];
            if col >= x && col < x + w {
                return Some(
                    if i == 0 {
                        Tab::Layout
                    } else if i == 1 {
                        Tab::Config
                    } else if i == 2 {
                        Tab::Mirror
                    } else {
                        Tab::Profiles
                    },
                );
            }
            x = x + w + 1;
            i = i + 1;
        }
        assert(!(tab_start(0) <= col < tab_start(0) + widths@[0]));
        assert(!(tab_start(1) <= col < tab_start(1) + widths@[1]));
        assert(!(tab_start(2) <= col < tab_start(2) + widths@[2]));
        assert(!(tab_start(3) <= col < tab_start(3) + widths@[3]));
        None
    }

    pub fn hints(self) -> (s: &'static str)
        ensures
            s@ == tab_hints(self),
    {
        match self {
            Tab::Layout => " [hjkl/drag]move  [Tab]next  [Shift+hjkl]×10  [0]arrange  [Ctrl+Z]undo  [a]apply  [s]save",
            Tab::Config => " [jk]field  [hl]value  [,.]scale  [Enter]apply  [Esc]cancel  [\\[\\]]monitor  [Ctrl+Z]undo",
            Tab::Mirror => " [Tab]focus  [hl]cycle  [Enter]confirm  [Ctrl+Z]undo",
            Tab::Profiles => " [jk]nav  [Enter]load  [d×2]delete  [Tab]name  [Ctrl+Z]undo",
        }
    }
}


/// The whole interface state.
pub struct AppState {
    pub monitors: Vec<Monitor>,
    pub tab: Tab,
    pub layout: LayoutState,
    pub config: ConfigState,
    pub mirror: MirrorState,
    pub profiles: ProfilesState,
    pub status: Option<StatusMsg>,
    pub dirty: bool,
    pub quit_confirm: bool,
    pub drag_state: Option<DragState>,
    pub terminal_size: (u16, u16),
    /// Set by any handler that wants the layout applied live.
    pub pending_apply: bool,
    /// Named snapshot last loaded or saved this session; cleared when the
    /// layout is edited.
    pub active_profile: Option<String>,
    /// Snapshots for undo (at most 20).
    pub undo_stack: Vec<Vec<Monitor>>,
}

/// Most undo snapshots kept.
pub const UNDO_DEPTH: usize = 20;

/// The status bar shows `text` at `level`.
pub open spec fn shows(status: Option<StatusMsg>, text: Seq<char>, level: StatusLevel) -> bool {
    match status {
        Some(m) => m.text@ == text && m.level == level,
        None => false,
    }
}

/// `undo_stack` after pushing a snapshot of `ms` onto `old`.
pub open spec fn pushed_undo(old: Seq<Vec<Monitor>>, new: Seq<Vec<Monitor>>, ms: Seq<Monitor>) -> bool {
    if old.len() + 1 > 20 {
        &&& new.len() == old.len()
        &&& forall|i: int| 0 <= i < old.len() - 1 ==> #[trigger] new[i] == old[i + 1]
        &&& same_monitors(new[new.len() - 1]@, ms)
    } else {
        &&& new.len() == old.len() + 1
        &&& forall|i: int| 0 <= i < old.len() ==> #[trigger] new[i] == old[i]
        &&& same_monitors(new[new.len() - 1]@, ms)
    }
}

/// A status message `elapsed` whole seconds after it was set: gone from
/// three seconds on.
pub open spec fn status_after(status: Option<StatusMsg>, elapsed: u64) -> Option<StatusMsg> {
    if status is Some && elapsed >= 3 {
        None
    } else {
        status
    }
}

/// After `switch_tab`: the tab is `tab`; switching to the config tab
/// reloads the form from the selected monitor.
pub open spec fn switched_tab(a: AppState, b: AppState, tab: Tab) -> bool {
    &&& b.tab == tab
    &&& tab == Tab::Config && a.monitors@.len() > 0 ==> synced_from(
        a.config,
        b.config,
        a.monitors@,
        if a.layout.selected < a.monitors@.len() {
            a.layout.selected as int
        } else {
            a.monitors@.len() - 1
        },
    )
    &&& tab != Tab::Config || a.monitors@.len() == 0 ==> b.config == a.config
    &&& b == (AppState { tab, config: b.config, ..a })
}

/// After `undo`: the newest snapshot replaces the monitors (which count as
/// edited), the selection is kept inside them and the form reloaded; with
/// no snapshot the status says there is nothing to undo.
pub open spec fn undone(a: AppState, b: AppState) -> bool {
    &&& a.undo_stack@.len() == 0 ==> {
        &&& b == (AppState { status: b.status, ..a })
        &&& shows(b.status, "Nothing to undo."@, StatusLevel::Info)
    }
    &&& a.undo_stack@.len() > 0 ==> {
        &&& b.monitors == a.undo_stack@.last()
        &&& b.undo_stack@ == a.undo_stack@.drop_last()
        &&& b.layout.selected == (if b.monitors@.len() == 0 {
            0
        } else if a.layout.selected >= b.monitors@.len() {
            (b.monitors@.len() - 1) as usize
        } else {
            a.layout.selected
        })
        &&& b.monitors@.len() > 0 ==> synced_from(
            a.config,
            b.config,
            b.monitors@,
            b.layout.selected as int,
        )
        &&& b.monitors@.len() == 0 ==> b.config == a.config
        &&& shows(b.status, "Undone."@, StatusLevel::Info)
        &&& b == (AppState {
            monitors: b.monitors,
            undo_stack: b.undo_stack,
            layout: LayoutState { selected: b.layout.selected, ..a.layout },
            config: b.config,
            status: b.status,
            dirty: true,
            active_profile: None,
            ..a
        })
    }
}

impl AppState {
    /// A fresh state on the layout tab; `profiles` is the saved-profile list.
    pub fn new(monitors: Vec<Monitor>, terminal_size: (u16, u16), profiles: Vec<String>) -> (s: Self)
        ensures
            s.monitors == monitors,
            s.tab == Tab::Layout,
            s.layout == (LayoutState { selected: 0, snap_threshold: 10, zoom: 10 }),
            s.config.monitor_idx == 0 && s.config.focused == 0 && s.config.res_idx == 0
                && s.config.refresh_idx == 0 && s.config.transform_idx == 0 && s.config.mirror_idx
                == 0 && s.config.scale_str@.len() == 0 && !s.config.scale_editing
                && s.config.resolutions@.len() == 0 && s.config.refreshes@.len() == 0
                && s.config.mirror_options@.len() == 0,
            s.mirror.source_idx == 0 && s.mirror.target_idx == 0 && s.mirror.result is None
                && s.mirror.focused == 0,
            s.profiles.profiles == profiles,
            s.profiles.selected_idx == 0,
            s.profiles.new_name@.len() == 0,
            s.profiles.focused == ProfileField::List,
            s.profiles.delete_confirm is None,
            s.status is None,
            !s.dirty,
            !s.quit_confirm,
            s.drag_state is None,
            s.terminal_size == terminal_size,
            !s.pending_apply,
            s.active_profile is None,
            s.undo_stack@.len() == 0,
    {
        AppState {
            monitors,
            tab: Tab::Layout,
            layout: LayoutState::default(),
            config: ConfigState::default(),
            mirror: MirrorState::default(),
            profiles: ProfilesState::new(profiles),
            status: None,
            dirty: false,
            quit_confirm: false,
            drag_state: None,
            terminal_size,
            pending_apply: false,
            active_profile: None,
            undo_stack: Vec::new(),
        }
    }

    pub fn set_status(&mut self, text: String, level: StatusLevel)
        ensures
            shows(final(self).status, text@, level),
            final(self).monitors == old(self).monitors,
            final(self).tab == old(self).tab,
            final(self).layout == old(self).layout,
            final(self).config == old(self).config,
            final(self).mirror == old(self).mirror,
            final(self).profiles == old(self).profiles,
            final(self).dirty == old(self).dirty,
            final(self).quit_confirm == old(self).quit_confirm,
            final(self).drag_state == old(self).drag_state,
            final(self).terminal_size == old(self).terminal_size,
            final(self).pending_apply == old(self).pending_apply,
            final(self).active_profile == old(self).active_profile,
            final(self).undo_stack == old(self).undo_stack,
    {
        self.status = Some(StatusMsg { text, level, born: instant_now() });
    }

    /// Marks the layout edited, which also forgets the active profile.
    pub fn mark_dirty(&mut self)
        ensures
            final(self).dirty,
            final(self).active_profile is None,
            *final(self) == (AppState { dirty: true, active_profile: None, ..*old(self) }),
    {
        self.dirty = true;
        self.active_profile = None;
    }

    /// Clears the status message three seconds after it was set. How long
    /// ago that was comes from the clock; `expire_status` decides.
    pub fn tick_status(&mut self)
        ensures
            final(self).status is None || final(self).status == old(self).status,
            *final(self) == (AppState { status: final(self).status, ..*old(self) }),
    {
        let elapsed = match &self.status {
            Some(s) => secs_since(&s.born),
            None => 0,
        };
        self.expire_status(elapsed);
    }

    /// Clears the status message when `elapsed_secs` (the whole seconds
    /// since it was set) have reached three.
    pub fn expire_status(&mut self, elapsed_secs: u64)
        ensures
            *final(self) == (AppState {
                status: status_after(old(self).status, elapsed_secs),
                ..*old(self)
            }),
    {
        if self.status.is_some() && elapsed_secs >= 3 {
            self.status = None;
        }
    }

    /// Switches tab; the config form is reloaded from the selected monitor.
    pub fn switch_tab(&mut self, tab: Tab)
        ensures
            switched_tab(*old(self), *final(self), tab),
    {
        self.tab = tab;
        if tab == Tab::Config {
            self.config.sync_from_monitor(self.layout.selected, &self.monitors);
        }
    }

    /// Saves a snapshot of the monitors for undo, dropping the oldest
    /// beyond 20.
    pub fn push_undo(&mut self)
        ensures
            pushed_undo(old(self).undo_stack@, final(self).undo_stack@, old(self).monitors@),
            *final(self) == (AppState { undo_stack: final(self).undo_stack, ..*old(self) }),
    {
        let snapshot = copy_monitors(&self.monitors);
        self.undo_stack.push(snapshot);
        if self.undo_stack.len() > UNDO_DEPTH {
            self.undo_stack.remove(0);
        }
    }

    /// Restores the most recent snapshot.
    pub fn undo(&mut self)
        ensures
            undone(*old(self), *final(self)),
    {
        if self.undo_stack.len() == 0 {
            self.set_status(String::from_str("Nothing to undo."), StatusLevel::Info);
            return;
        }
        if let Some(snapshot) = self.undo_stack.pop() {
            self.monitors = snapshot;
            self.mark_dirty();
            let n = self.monitors.len();
            self.layout.clamp_selected(n);
            let idx = self.layout.selected;
            self.config.sync_from_monitor(idx, &self.monitors);
            self.set_status(String::from_str("Undone."), StatusLevel::Info);
        }
    }
}


/// Pushing a snapshot keeps the stack within 20 and its newest entry
/// holds the monitors as they were.
pub proof fn law_undo_snapshot(old: Seq<Vec<Monitor>>, new: Seq<Vec<Monitor>>, ms: Seq<Monitor>)
    requires
        old.len() <= 20,
        pushed_undo(old, new, ms),
    ensures
        0 < new.len() <= 20,
        same_monitors(new.last()@, ms),
{
}

/// An undo right after a snapshot gives the monitors back as they were
/// when it was taken, and leaves the stack as it was (less the oldest
/// entry when it was full).
pub proof fn law_undo_restores(a: AppState, b: AppState, c: AppState)
    requires
        a.undo_stack@.len() <= 20,
        pushed_undo(a.undo_stack@, b.undo_stack@, a.monitors@),
        undone(b, c),
    ensures
        same_monitors(c.monitors@, a.monitors@),
        c.undo_stack@.len() == (if a.undo_stack@.len() == 20 {
            19
        } else {
            a.undo_stack@.len()
        }),
        a.undo_stack@.len() < 20 ==> c.undo_stack@ == a.undo_stack@,
        c.dirty,
{
    if a.undo_stack@.len() < 20 {
        assert(c.undo_stack@ =~= a.undo_stack@);
    }
}

/// With unsaved edits, the first quit key only warns and the second one
/// quits; without them the first one quits.
pub proof fn law_quit_prompts_once(
    a: AppState,
    b: AppState,
    c: AppState,
    k1: KeyEvent,
    k2: KeyEvent,
    e1: Effect,
    e2: Effect,
)
    requires
        is_quit_key(k1),
        is_quit_key(k2),
        !a.quit_confirm,
        key_effect(a, b, k1, e1),
        key_effect(b, c, k2, e2),
    ensures
        a.dirty ==> e1 == Effect::Continue && b.quit_confirm && e2 == Effect::Quit,
        !a.dirty ==> e1 == Effect::Quit,
{
}

/// Any key other than a quit key cancels a pending quit warning.
pub proof fn law_other_key_cancels_quit(a: AppState, b: AppState, k: KeyEvent, e: Effect)
    requires
        !is_quit_key(k),
        key_effect(a, b, k, e),
    ensures
        !b.quit_confirm,
{
}

/// A key that changes the monitors makes the layout no longer the profile
/// last loaded or saved.
pub proof fn law_key_edits_forget_profile(a: AppState, b: AppState, k: KeyEvent, e: Effect)
    requires
        key_effect(a, b, k, e),
        b.monitors@ != a.monitors@,
    ensures
        b.active_profile is None,
{
}

/// A mouse event that changes the monitors makes the layout no longer the
/// profile last loaded or saved.
pub proof fn law_mouse_edits_forget_profile(
    a: AppState,
    b: AppState,
    ev: MouseEvent,
    at: CanvasPoint,
    e: Effect,
)
    requires
        mouse_effect(a, b, ev, at, e),
        b.monitors@ != a.monitors@,
    ensures
        b.active_profile is None,
{
}

/// The announcement of a successful live apply (`bread.mon.applied`): the
/// profile the applied layout is, or none for an ad-hoc layout.
#[derive(Debug, Clone, PartialEq, Eq)]
pub struct Applied {
    pub profile: Option<String>,
}

/// What the caller is asked to do after an event.
#[derive(Debug, Clone, PartialEq, Eq)]
pub enum Effect {
    /// Nothing beyond the state change.
    Continue,
    /// Leave the program.
    Quit,
    /// Read the monitors from the compositor again.
    Reload,
    /// Save the current monitors as the named profile.
    SaveProfile(String),
    /// Load the named profile onto the monitors.
    LoadProfile(String),
    /// Delete the named profile.
    DeleteProfile(String),
}

/// `q`, or Ctrl+C.
pub open spec fn is_quit_key(ev: KeyEvent) -> bool {
    ev.code == KeyCode::Char('q') || ev.code == KeyCode::Char('c') && ev.ctrl
}

/// Ctrl+Z.
pub open spec fn is_undo_key(ev: KeyEvent) -> bool {
    ev.code == KeyCode::Char('z') && ev.ctrl
}

/// The tab a key switches to: `1`-`4` or F1-F4.
pub open spec fn tab_key(ev: KeyEvent) -> Option<Tab> {
    if ev.code == KeyCode::Char('1') || ev.code == KeyCode::F(1) {
        Some(Tab::Layout)
    } else if ev.code == KeyCode::Char('2') || ev.code == KeyCode::F(2) {
        Some(Tab::Config)
    } else if ev.code == KeyCode::Char('3') || ev.code == KeyCode::F(3) {
        Some(Tab::Mirror)
    } else if ev.code == KeyCode::Char('4') || ev.code == KeyCode::F(4) {
        Some(Tab::Profiles)
    } else {
        None
    }
}

/// The keys that reach a tab's handler.
pub open spec fn is_tab_local(ev: KeyEvent) -> bool {
    !is_quit_key(ev) && !is_undo_key(ev) && tab_key(ev) is None
}

/// The keys that cannot overflow or index out of range here.
pub open spec fn key_ok(s: AppState, ev: KeyEvent) -> bool {
    let s1 = AppState { quit_confirm: false, ..s };
    is_tab_local(ev) ==> match s.tab {
        Tab::Layout => layout_key_ok(s1, ev),
        Tab::Config => config_key_ok(s1, ev),
        Tab::Mirror => mirror_key_ok(s1, ev),
        Tab::Profiles => profile_key_ok(s1, ev),
    }
}

/// Effect of a key: quit (after a warning while there are unsaved edits),
/// undo, switch tab, or what the current tab does with it.
pub open spec fn key_effect(a: AppState, b: AppState, ev: KeyEvent, e: Effect) -> bool {
    let a1 = AppState { quit_confirm: false, ..a };
    if is_quit_key(ev) {
        if a.dirty && !a.quit_confirm {
            &&& e == Effect::Continue
            &&& b == (AppState { status: b.status, quit_confirm: true, ..a })
            &&& shows(b.status, "Unsaved changes. Press q again to quit."@, StatusLevel::Info)
        } else {
            e == Effect::Quit && b == a
        }
    } else if is_undo_key(ev) {
        e == Effect::Continue && undone(a1, b)
    } else if tab_key(ev) is Some {
        e == Effect::Continue && switched_tab(a1, b, tab_key(ev)->0)
    } else {
        match a.tab {
            Tab::Layout => e == Effect::Continue && layout_key_effect(a1, b, ev),
            Tab::Config => config_key_effect(a1, b, ev, e),
            Tab::Mirror => e == Effect::Continue && mirror_key_effect(a1, b, ev),
            Tab::Profiles => profile_key_outcome(a1, b, ev, e),
        }
    }
}

/// A key press. Returns `Effect::Quit` to leave the program.
pub fn handle_key(event: KeyEvent, state: &mut AppState) -> (e: Effect)
    requires
        key_ok(*old(state), event),
    ensures
        key_effect(*old(state), *final(state), event, e),
{
    if event.code == KeyCode::Char('q') || event.code == KeyCode::Char('c') && event.ctrl {
        if state.dirty && !state.quit_confirm {
            state.set_status(
                String::from_str("Unsaved changes. Press q again to quit."),
                StatusLevel::Info,
            );
            state.quit_confirm = true;
            return Effect::Continue;
        }
        return Effect::Quit;
    }
    state.quit_confirm = false;
    if event.code == KeyCode::Char('z') && event.ctrl {
        state.undo();
        return Effect::Continue;
    }
    match event.code {
        KeyCode::Char('1') | KeyCode::F(1) => {
            state.switch_tab(Tab::Layout);
            return Effect::Continue;
        },
        KeyCode::Char('2') | KeyCode::F(2) => {
            state.switch_tab(Tab::Config);
            return Effect::Continue;
        },
        KeyCode::Char('3') | KeyCode::F(3) => {
            state.switch_tab(Tab::Mirror);
            return Effect::Continue;
        },
        KeyCode::Char('4') | KeyCode::F(4) => {
            state.switch_tab(Tab::Profiles);
            return Effect::Continue;
        },
        _ => {},
    }
    match state.tab {
        Tab::Layout => {
            layout_view::handle_key(event, state);
            Effect::Continue
        },
        Tab::Config => config_view::handle_key(event, state),
        Tab::Mirror => {
            mirror_view::handle_key(event, state);
            Effect::Continue
        },
        Tab::Profiles => profiles_view::handle_key(event, state),
    }
}

/// The keys the program takes before the interface: `a` applies, `s`
/// saves the layout as the profile named in the name input, `r` reloads
/// the monitors.
pub open spec fn is_global_key(ev: KeyEvent) -> bool {
    ev.code == KeyCode::Char('a') || ev.code == KeyCode::Char('s') || ev.code == KeyCode::Char('r')
}

/// Effect of a key press at the program's level.
pub open spec fn app_key_effect(a: AppState, b: AppState, ev: KeyEvent, e: Effect) -> bool {
    if ev.code == KeyCode::Char('a') {
        &&& e == Effect::Continue
        &&& b == (AppState { pending_apply: true, status: b.status, ..a })
        &&& shows(b.status, "Applying..."@, StatusLevel::Info)
    } else if ev.code == KeyCode::Char('s') {
        save_requested(a, b, e)
    } else if ev.code == KeyCode::Char('r') {
        e == Effect::Reload && b == a
    } else {
        key_effect(a, b, ev, e)
    }
}

/// A key press as the program sees it: `a`, `s` and `r` are taken first,
/// the others go to `handle_key`.
pub fn handle_app_key(event: KeyEvent, state: &mut AppState) -> (e: Effect)
    requires
        !is_global_key(event) ==> key_ok(*old(state), event),
    ensures
        app_key_effect(*old(state), *final(state), event, e),
{
    match event.code {
        KeyCode::Char('a') => {
            state.pending_apply = true;
            state.set_status(String::from_str("Applying..."), StatusLevel::Info);
            Effect::Continue
        },
        KeyCode::Char('s') => profiles_view::do_save(state),
        KeyCode::Char('r') => Effect::Reload,
        _ => handle_key(event, state),
    }
}

/// The last row above the bottom bar is `th - 2`: rows from `th - 1` on
/// are the bar.
pub open spec fn bottom_bar_top(th: u16) -> int {
    if th >= 1 { th - 1 } else { 0 }
}

/// The mouse events that cannot overflow or index out of range here.
pub open spec fn mouse_ok(s: AppState, ev: MouseEvent, at: CanvasPoint) -> bool {
    2 <= ev.row < bottom_bar_top(s.terminal_size.1) ==> match s.tab {
        Tab::Layout => layout_mouse_ok(s, ev, at),
        Tab::Config => config_mouse_ok(s, ev),
        Tab::Mirror => mirror_mouse_ok(s, ev),
        Tab::Profiles => profile_mouse_ok(s, ev),
    }
}

/// Effect of a mouse event: the tab bar switches tabs on a click, the
/// bottom bar ignores it, the rest goes to the current tab.
pub open spec fn mouse_effect(a: AppState, b: AppState, ev: MouseEvent, at: CanvasPoint, e: Effect) -> bool {
    if ev.row < 2 {
        &&& e == Effect::Continue
        &&& if ev.kind == MouseEventKind::Down(MouseButton::Left) && tab_at_col(ev.column) is Some {
            switched_tab(a, b, tab_at_col(ev.column)->0)
        } else {
            b == a
        }
    } else if ev.row >= bottom_bar_top(a.terminal_size.1) {
        e == Effect::Continue && b == a
    } else {
        match a.tab {
            Tab::Layout => e == Effect::Continue && layout_mouse_effect(a, b, ev, at),
            Tab::Config => e == Effect::Continue && config_mouse_effect(a, b, ev),
            Tab::Mirror => e == Effect::Continue && mirror_mouse_effect(a, b, ev),
            Tab::Profiles => profile_mouse_effect(a, b, ev, e),
        }
    }
}

/// A mouse event; `at` is where it falls on the layout canvas.
pub fn handle_mouse(event: MouseEvent, state: &mut AppState, at: CanvasPoint) -> (e: Effect)
    requires
        mouse_ok(*old(state), event, at),
    ensures
        mouse_effect(*old(state), *final(state), event, at, e),
{
    let th = state.terminal_size.1;
    if event.row < 2 {
        if event.kind == MouseEventKind::Down(MouseButton::Left) {
            if let Some(tab) = Tab::from_col(event.column) {
                state.switch_tab(tab);
            }
        }
        return Effect::Continue;
    }
    let bar: u16 = if th >= 1 { th - 1 } else { 0 };
    if event.row >= bar {
        return Effect::Continue;
    }
    match state.tab {
        Tab::Layout => {
            layout_view::handle_mouse(event, state, at);
            Effect::Continue
        },
        Tab::Config => {
            config_view::handle_mouse(event, state);
            Effect::Continue
        },
        Tab::Mirror => {
            mirror_view::handle_mouse(event, state);
            Effect::Continue
        },
        Tab::Profiles => profiles_view::handle_mouse(event, state),
    }
}

impl AppState {
    /// Whether an apply was asked for; the request is cleared.
    pub fn take_pending_apply(&mut self) -> (r: bool)
        ensures
            r == old(self).pending_apply,
            *final(self) == (AppState { pending_apply: false, ..*old(self) }),
    {
        let r = self.pending_apply;
        self.pending_apply = false;
        r
    }

    /// After the caller applied the layout: the status reports the outcome,
    /// and a success is to be announced as `bread.mon.applied` with the
    /// active profile (none for an ad-hoc layout).
    pub fn finish_apply(&mut self, result: Result<(), String>) -> (announce: Option<Applied>)
        ensures
            *final(self) == (AppState { status: final(self).status, ..*old(self) }),
            result is Ok ==> shows(final(self).status, "Applied."@, StatusLevel::Success),
            result is Ok ==> announce == Some(Applied { profile: old(self).active_profile }),
            result matches Err(msg) ==> shows(
                final(self).status,
                "Apply failed: "@ + msg@,
                StatusLevel::Error,
            ),
            result is Err ==> announce is None,
    {
        match result {
            Ok(()) => {
                self.set_status(String::from_str("Applied."), StatusLevel::Success);
                let profile = match &self.active_profile {
                    Some(p) => Some(p.clone()),
                    None => None,
                };
                Some(Applied { profile })
            },
            Err(msg) => {
                let mut text = String::from_str("Apply failed: ");
                push_str(&mut text, msg.as_str());
                self.set_status(text, StatusLevel::Error);
                None
            },
        }
    }

    /// Takes a freshly read monitor list, keeping the selection inside it.
    fn replace_monitors(&mut self, monitors: Vec<Monitor>)
        ensures
            final(self).monitors == monitors,
            *final(self) == (AppState {
                monitors,
                layout: LayoutState { selected: final(self).layout.selected, ..old(self).layout },
                ..*old(self)
            }),
            final(self).layout.selected == (if monitors@.len() == 0 {
                0
            } else if old(self).layout.selected >= monitors@.len() {
                (monitors@.len() - 1) as usize
            } else {
                old(self).layout.selected
            }),
    {
        self.monitors = monitors;
        let n = self.monitors.len();
        self.layout.clamp_selected(n);
    }

    /// After the caller re-read the monitors on `r`: on success they replace
    /// the edited ones, which count as saved; the status reports the outcome.
    pub fn finish_reload(&mut self, result: Result<Vec<Monitor>, String>)
        ensures
            result matches Ok(ms) ==> {
                &&& final(self).monitors == ms
                &&& final(self).layout.selected == (if ms@.len() == 0 {
                    0
                } else if old(self).layout.selected >= ms@.len() {
                    (ms@.len() - 1) as usize
                } else {
                    old(self).layout.selected
                })
                &&& *final(self) == (AppState {
                    monitors: ms,
                    layout: LayoutState { selected: final(self).layout.selected, ..old(self).layout },
                    status: final(self).status,
                    dirty: false,
                    ..*old(self)
                })
                &&& shows(final(self).status, "Monitors refreshed."@, StatusLevel::Success)
            },
            result matches Err(msg) ==> {
                &&& *final(self) == (AppState { status: final(self).status, ..*old(self) })
                &&& shows(final(self).status, "Refresh failed: "@ + msg@, StatusLevel::Error)
            },
    {
        match result {
            Ok(ms) => {
                self.replace_monitors(ms);
                self.dirty = false;
                self.set_status(String::from_str("Monitors refreshed."), StatusLevel::Success);
            },
            Err(msg) => {
                let mut text = String::from_str("Refresh failed: ");
                push_str(&mut text, msg.as_str());
                self.set_status(text, StatusLevel::Error);
            },
        }
    }

    /// The periodic re-read: a list that was read replaces the monitors
    /// unless there are unsaved edits.
    pub fn on_tick(&mut self, loaded: Option<Vec<Monitor>>)
        ensures
            !old(self).dirty ==> (loaded matches Some(ms) ==> {
                &&& final(self).monitors == ms
                &&& *final(self) == (AppState {
                    monitors: ms,
                    layout: LayoutState { selected: final(self).layout.selected, ..old(self).layout },
                    ..*old(self)
                })
                &&& final(self).layout.selected == (if ms@.len() == 0 {
                    0
                } else if old(self).layout.selected >= ms@.len() {
                    (ms@.len() - 1) as usize
                } else {
                    old(self).layout.selected
                })
            }),
            loaded is None || old(self).dirty ==> *final(self) == *old(self),
    {
        if let Some(ms) = loaded {
            if !self.dirty {
                self.replace_monitors(ms);
            }
        }
    }

    /// A monitor was plugged, unplugged or rescaled: a list that was read
    /// replaces the monitors and the status says so.
    pub fn on_monitor_change(&mut self, loaded: Option<Vec<Monitor>>)
        ensures
            loaded matches Some(ms) ==> {
                &&& final(self).monitors == ms
                &&& *final(self) == (AppState {
                    monitors: ms,
                    layout: LayoutState { selected: final(self).layout.selected, ..old(self).layout },
                    status: final(self).status,
                    ..*old(self)
                })
                &&& final(self).layout.selected == (if ms@.len() == 0 {
                    0
                } else if old(self).layout.selected >= ms@.len() {
                    (ms@.len() - 1) as usize
                } else {
                    old(self).layout.selected
                })
                &&& shows(final(self).status, "Monitor configuration changed."@, StatusLevel::Info)
            },
            loaded is None ==> *final(self) == *old(self),
    {
        if let Some(ms) = loaded {
            self.replace_monitors(ms);
            self.set_status(String::from_str("Monitor configuration changed."), StatusLevel::Info);
        }
    }
}

/// Whether `key_ok` holds, for callers that cannot evaluate it.
pub fn key_allowed(state: &AppState, event: KeyEvent) -> (r: bool)
    ensures
        r == key_ok(*state, event),
{
    let quit = event.code == KeyCode::Char('q') || event.code == KeyCode::Char('c') && event.ctrl;
    let undo = event.code == KeyCode::Char('z') && event.ctrl;
    let tab = match event.code {
        KeyCode::Char('1') | KeyCode::Char('2') | KeyCode::Char('3') | KeyCode::Char('4') => true,
        KeyCode::F(k) => 1 <= k && k <= 4,
        _ => false,
    };
    if quit || undo || tab {
        return true;
    }
    match state.tab {
        Tab::Layout => layout_view::layout_key_allowed(state, event),
        Tab::Config => config_view::config_key_allowed(state, event),
        Tab::Mirror => mirror_view::mirror_key_allowed(state, event),
        Tab::Profiles => profiles_view::profile_key_allowed(state, event),
    }
}

/// Whether `mouse_ok` holds, for callers that cannot evaluate it.
pub fn mouse_allowed(state: &AppState, event: MouseEvent, at: CanvasPoint) -> (r: bool)
    ensures
        r == mouse_ok(*state, event, at),
{
    let th = state.terminal_size.1;
    let bar: u16 = if th >= 1 {
        th - 1
    } else {
        0
    };
    if event.row < 2 || event.row >= bar {
        return true;
    }
    match state.tab {
        Tab::Layout => layout_view::layout_mouse_allowed(state, event, at),
        Tab::Config => config_view::config_mouse_allowed(state, event),
        Tab::Mirror => mirror_view::mirror_mouse_allowed(state, event),
        Tab::Profiles => profiles_view::profile_mouse_allowed(state, event),
    }
}

} // verus!
