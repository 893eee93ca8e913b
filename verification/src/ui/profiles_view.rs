//! The profiles tab: the list of saved profiles and the name input.
use vstd::prelude::*;

use crate::profile::{apply_profile, apply_to_monitors, Profile};
use crate::text::{
    is_alphanumeric, pop_char, push_char, push_str, trim, trimmed, unicode_alphanumeric,
};
use crate::ui::{
    pushed_undo, secs_since, shows, AppState, Effect, KeyCode, KeyEvent, MouseButton, MouseEvent,
    MouseEventKind, StatusLevel,
};

verus! {

#[derive(Debug, Clone, Copy, PartialEq, Eq, Structural)]
pub enum ProfileField {
    List,
    NameInput,
    SaveBtn,
}

/// Profiles-tab state. `delete_confirm` holds the profile awaiting a
/// second `d` and when the first was pressed.
pub struct ProfilesState {
    pub profiles: Vec<String>,
    pub selected_idx: usize,
    pub new_name: String,
    pub focused: ProfileField,
    pub delete_confirm: Option<(String, std::time::Instant)>,
}

impl ProfilesState {
    pub fn new(profiles: Vec<String>) -> (s: Self)
        ensures
            s.profiles == profiles,
            s.selected_idx == 0,
            s.new_name@.len() == 0,
            s.focused == ProfileField::List,
            s.delete_confirm is None,
    {
        ProfilesState {
            profiles,
            selected_idx: 0,
            new_name: String::new(),
            focused: ProfileField::List,
            delete_confirm: None,
        }
    }

    /// Replaces the list with a freshly read one, keeping the selection
    /// inside it.
    pub fn refresh(&mut self, profiles: Vec<String>)
        ensures
            final(self).profiles == profiles,
            final(self).selected_idx == (if old(self).selected_idx >= profiles@.len()
                && profiles@.len() > 0 {
                (profiles@.len() - 1) as usize
            } else {
                old(self).selected_idx
            }),
            final(self).new_name == old(self).new_name,
            final(self).focused == old(self).focused,
            final(self).delete_confirm == old(self).delete_confirm,
    {
        self.profiles = profiles;
        if self.selected_idx >= self.profiles.len() && self.profiles.len() > 0 {
            self.selected_idx = self.profiles.len() - 1;
        }
    }

    /// Forgets a pending delete once three seconds have passed since the
    /// first `d`. How long ago that was comes from the clock;
    /// `expire_delete_confirm` decides.
    pub fn tick_delete_confirm(&mut self)
        ensures
            final(self).delete_confirm is None || final(self).delete_confirm == old(self).delete_confirm,
            final(self).profiles == old(self).profiles,
            final(self).selected_idx == old(self).selected_idx,
            final(self).new_name == old(self).new_name,
            final(self).focused == old(self).focused,
    {
        let elapsed = match &self.delete_confirm {
            Some((_, born)) => secs_since(born),
            None => 0,
        };
        self.expire_delete_confirm(elapsed);
    }

    /// Forgets a pending delete when `elapsed_secs` (the whole seconds
    /// since the first `d`) have reached three.
    pub fn expire_delete_confirm(&mut self, elapsed_secs: u64)
        ensures
            *final(self) == (ProfilesState {
                delete_confirm: if old(self).delete_confirm is Some && elapsed_secs >= 3 {
                    None
                } else {
                    old(self).delete_confirm
                },
                ..*old(self)
            }),
    {
        if self.delete_confirm.is_some() && elapsed_secs >= 3 {
            self.delete_confirm = None;
        }
    }
}

/// `'` + name + `'`, as the status messages quote a profile.
pub open spec fn quoted(name: Seq<char>) -> Seq<char> {
    "'"@ + name + "'"@
}

fn push_quoted(out: &mut String, name: &str)
    ensures
        final(out)@ == old(out)@ + quoted(name@),
{
    push_str(out, "'");
    push_str(out, name);
    push_str(out, "'");
}

/// Save: the trimmed name is asked to be saved, or, when it is empty, the
/// status asks for one.
pub open spec fn save_requested(a: AppState, b: AppState, e: Effect) -> bool {
    let t = trimmed(a.profiles.new_name@);
    if t.len() == 0 {
        &&& b == (AppState { status: b.status, ..a })
        &&& shows(b.status, "Enter a profile name first."@, StatusLevel::Info)
        &&& e == Effect::Continue
    } else {
        &&& b == a
        &&& e matches Effect::SaveProfile(n) && n@ == t
    }
}

/// Asks for the layout to be saved as the profile named in the name input.
pub fn do_save(state: &mut AppState) -> (e: Effect)
    ensures
        save_requested(*old(state), *final(state), e),
{
    let name = trim(state.profiles.new_name.as_str());
    let empty = name.as_str().is_empty();
    if empty {
        state.set_status(String::from_str("Enter a profile name first."), StatusLevel::Info);
        return Effect::Continue;
    }
    Effect::SaveProfile(name)
}

/// Load: an undo snapshot, then the selected profile is asked to be loaded.
pub open spec fn load_requested(a: AppState, b: AppState, e: Effect) -> bool {
    &&& pushed_undo(a.undo_stack@, b.undo_stack@, a.monitors@)
    &&& b == (AppState { undo_stack: b.undo_stack, ..a })
    &&& e == Effect::LoadProfile(a.profiles.profiles@[a.profiles.selected_idx as int])
}

fn do_load(state: &mut AppState) -> (e: Effect)
    requires
        old(state).profiles.selected_idx < old(state).profiles.profiles@.len(),
    ensures
        load_requested(*old(state), *final(state), e),
{
    state.push_undo();
    Effect::LoadProfile(state.profiles.profiles[state.profiles.selected_idx].clone())
}

/// The profile list with the selection at `k`.
pub open spec fn with_selection(a: AppState, k: usize) -> AppState {
    AppState { profiles: ProfilesState { selected_idx: k, ..a.profiles }, ..a }
}

/// The status text after the first `d` on `name`.
pub open spec fn delete_prompt(name: Seq<char>) -> Seq<char> {
    "Press d again to delete "@ + quoted(name) + " (3s to cancel)"@
}

/// Effect of a key on the profile list.
pub open spec fn list_key_effect(a: AppState, b: AppState, ev: KeyEvent, e: Effect) -> bool {
    let n = a.profiles.profiles@.len();
    let i = a.profiles.selected_idx;
    if ev.code == KeyCode::Char('j') || ev.code == KeyCode::Down {
        &&& e == Effect::Continue
        &&& b == (if n > 0 {
            with_selection(a, ((i + 1) % (n as int)) as usize)
        } else {
            a
        })
    } else if ev.code == KeyCode::Char('k') || ev.code == KeyCode::Up {
        &&& e == Effect::Continue
        &&& b == (if n == 0 {
            a
        } else if i == 0 {
            with_selection(a, (n - 1) as usize)
        } else {
            with_selection(a, (i - 1) as usize)
        })
    } else if ev.code == KeyCode::Enter {
        if n > 0 {
            load_requested(a, b, e)
        } else {
            b == a && e == Effect::Continue
        }
    } else if ev.code == KeyCode::Char('d') && n > 0 {
        let name = a.profiles.profiles@[i as int];
        if a.profiles.delete_confirm matches Some(p) && p.0@ == name@ {
            b == a && e == Effect::DeleteProfile(name)
        } else {
            &&& e == Effect::Continue
            &&& b == (AppState {
                profiles: ProfilesState {
                    delete_confirm: b.profiles.delete_confirm,
                    ..a.profiles
                },
                status: b.status,
                ..a
            })
            &&& b.profiles.delete_confirm matches Some(p) && p.0 == name
            &&& shows(b.status, delete_prompt(name@), StatusLevel::Info)
        }
    } else {
        b == a && e == Effect::Continue
    }
}

/// The list keys that cannot overflow or index out of range here.
pub open spec fn list_key_ok(s: AppState, ev: KeyEvent) -> bool {
    let n = s.profiles.profiles@.len();
    &&& (ev.code == KeyCode::Char('j') || ev.code == KeyCode::Down) && n > 0
        ==> s.profiles.selected_idx < usize::MAX
    &&& (ev.code == KeyCode::Enter || ev.code == KeyCode::Char('d')) && n > 0
        ==> s.profiles.selected_idx < n
}

fn handle_list_key(event: KeyEvent, state: &mut AppState) -> (e: Effect)
    requires
        list_key_ok(*old(state), event),
    ensures
        list_key_effect(*old(state), *final(state), event, e),
{
    let count = state.profiles.profiles.len();
    match event.code {
        KeyCode::Char('j') | KeyCode::Down => {
            if count > 0 {
                state.profiles.selected_idx = (state.profiles.selected_idx + 1) % count;
            }
            Effect::Continue
        },
        KeyCode::Char('k') | KeyCode::Up => {
            if count > 0 {
                state.profiles.selected_idx = if state.profiles.selected_idx == 0 {
                    count - 1
                } else {
                    state.profiles.selected_idx - 1
                };
            }
            Effect::Continue
        },
        KeyCode::Enter => {
            if count > 0 {
                do_load(state)
            } else {
                Effect::Continue
            }
        },
        KeyCode::Char('d') => {
            if count == 0 {
                return Effect::Continue;
            }
            let name = state.profiles.profiles[state.profiles.selected_idx].clone();
            let again = match &state.profiles.delete_confirm {
                Some((pending, _)) => crate::text::str_eq(pending.as_str(), name.as_str()),
                None => false,
            };
            if again {
                return Effect::DeleteProfile(name);
            }
            let mut text = String::from_str("Press d again to delete ");
            push_quoted(&mut text, name.as_str());
            push_str(&mut text, " (3s to cancel)");
            assert(text@ =~= delete_prompt(name@));
            state.profiles.delete_confirm = Some((name, crate::ui::instant_now()));
            state.set_status(text, StatusLevel::Info);
            Effect::Continue
        },
        _ => Effect::Continue,
    }
}

/// Effect of a key on the name input: letters, digits (in Unicode's sense),
/// `-` and `_` are typed, Backspace deletes, Enter saves.
pub open spec fn name_key_effect(a: AppState, b: AppState, ev: KeyEvent, e: Effect) -> bool {
    match ev.code {
        KeyCode::Char(c) => {
            &&& e == Effect::Continue
            &&& if unicode_alphanumeric(c) || c == '-' || c == '_' {
                &&& b == (AppState {
                    profiles: ProfilesState { new_name: b.profiles.new_name, ..a.profiles },
                    ..a
                })
                &&& b.profiles.new_name@ == a.profiles.new_name@.push(c)
            } else {
                b == a
            }
        },
        KeyCode::Backspace => {
            &&& e == Effect::Continue
            &&& b == (AppState {
                profiles: ProfilesState { new_name: b.profiles.new_name, ..a.profiles },
                ..a
            })
            &&& b.profiles.new_name@ == (if a.profiles.new_name@.len() > 0 {
                a.profiles.new_name@.drop_last()
            } else {
                a.profiles.new_name@
            })
        },
        KeyCode::Enter => save_requested(a, b, e),
        _ => b == a && e == Effect::Continue,
    }
}

fn handle_name_key(event: KeyEvent, state: &mut AppState) -> (e: Effect)
    ensures
        name_key_effect(*old(state), *final(state), event, e),
{
    match event.code {
        KeyCode::Char(c) => {
            if is_alphanumeric(c) || c == '-' || c == '_' {
                push_char(&mut state.profiles.new_name, c);
            }
            Effect::Continue
        },
        KeyCode::Backspace => {
            pop_char(&mut state.profiles.new_name);
            Effect::Continue
        },
        KeyCode::Enter => do_save(state),
        _ => Effect::Continue,
    }
}

pub open spec fn next_profile_field(f: ProfileField) -> ProfileField {
    match f {
        ProfileField::List => ProfileField::NameInput,
        ProfileField::NameInput => ProfileField::SaveBtn,
        ProfileField::SaveBtn => ProfileField::List,
    }
}

pub open spec fn prev_profile_field(f: ProfileField) -> ProfileField {
    match f {
        ProfileField::List => ProfileField::SaveBtn,
        ProfileField::NameInput => ProfileField::List,
        ProfileField::SaveBtn => ProfileField::NameInput,
    }
}

/// Effect of a profiles-tab key once pending deletes have been aged.
pub open spec fn profile_key_effect(a: AppState, b: AppState, ev: KeyEvent, e: Effect) -> bool {
    if ev.code == KeyCode::Tab {
        &&& e == Effect::Continue
        &&& b == (AppState {
            profiles: ProfilesState { focused: next_profile_field(a.profiles.focused), ..a.profiles },
            ..a
        })
    } else if ev.code == KeyCode::BackTab {
        &&& e == Effect::Continue
        &&& b == (AppState {
            profiles: ProfilesState { focused: prev_profile_field(a.profiles.focused), ..a.profiles },
            ..a
        })
    } else if ev.code == KeyCode::Esc {
        &&& e == Effect::Continue
        &&& b == (AppState {
            profiles: ProfilesState {
                new_name: b.profiles.new_name,
                delete_confirm: None,
                focused: ProfileField::List,
                ..a.profiles
            },
            ..a
        })
        &&& b.profiles.new_name@.len() == 0
    } else {
        match a.profiles.focused {
            ProfileField::List => list_key_effect(a, b, ev, e),
            ProfileField::NameInput => name_key_effect(a, b, ev, e),
            ProfileField::SaveBtn => if ev.code == KeyCode::Enter {
                save_requested(a, b, e)
            } else {
                b == a && e == Effect::Continue
            },
        }
    }
}

/// The profiles keys that cannot overflow or index out of range here.
pub open spec fn profile_key_ok(s: AppState, ev: KeyEvent) -> bool {
    s.profiles.focused == ProfileField::List ==> list_key_ok(s, ev)
}

/// A profiles-tab key without aging the pending delete first.
pub fn on_key(event: KeyEvent, state: &mut AppState) -> (e: Effect)
    requires
        profile_key_ok(*old(state), event),
    ensures
        profile_key_effect(*old(state), *final(state), event, e),
{
    match event.code {
        KeyCode::Tab => {
            state.profiles.focused = match state.profiles.focused {
                ProfileField::List => ProfileField::NameInput,
                ProfileField::NameInput => ProfileField::SaveBtn,
                ProfileField::SaveBtn => ProfileField::List,
            };
            Effect::Continue
        },
        KeyCode::BackTab => {
            state.profiles.focused = match state.profiles.focused {
                ProfileField::List => ProfileField::SaveBtn,
                ProfileField::NameInput => ProfileField::List,
                ProfileField::SaveBtn => ProfileField::NameInput,
            };
            Effect::Continue
        },
        KeyCode::Esc => {
            state.profiles.new_name = String::new();
            state.profiles.delete_confirm = None;
            state.profiles.focused = ProfileField::List;
            Effect::Continue
        },
        _ => match state.profiles.focused {
            ProfileField::List => handle_list_key(event, state),
            ProfileField::NameInput => handle_name_key(event, state),
            ProfileField::SaveBtn => {
                if event.code == KeyCode::Enter {
                    do_save(state)
                } else {
                    Effect::Continue
                }
            },
        },
    }
}

/// A profiles-tab key with the pending delete either kept or, if three
/// seconds have passed (which depends on the clock), forgotten first.
pub open spec fn profile_key_outcome(a: AppState, b: AppState, ev: KeyEvent, e: Effect) -> bool {
    profile_key_effect(a, b, ev, e) || profile_key_effect(
        AppState { profiles: ProfilesState { delete_confirm: None, ..a.profiles }, ..a },
        b,
        ev,
        e,
    )
}

/// Profiles-tab keys: a pending delete older than three seconds is
/// forgotten first, then `on_key` decides.
pub fn handle_key(event: KeyEvent, state: &mut AppState) -> (e: Effect)
    requires
        profile_key_ok(*old(state), event),
    ensures
        profile_key_outcome(*old(state), *final(state), event, e),
{
    state.profiles.tick_delete_confirm();
    on_key(event, state)
}

/// First row of the save row: the profiles tab's content ends three rows
/// above the bottom bar.
pub open spec fn save_row_top(th: u16) -> int {
    let content_h: int = if th >= 3 { th - 3 } else { 0 };
    2 + if content_h >= 3 { content_h - 3 } else { 0 }
}

/// Column where the save button starts.
pub open spec fn save_button_left(tw: u16) -> int {
    if tw >= 16 { tw - 16 } else { 0 }
}

/// Effect of a mouse event on the profiles tab.
pub open spec fn profile_mouse_effect(a: AppState, b: AppState, ev: MouseEvent, e: Effect) -> bool {
    let (tw, th) = a.terminal_size;
    let top = save_row_top(th);
    let n = a.profiles.profiles@.len();
    let i = a.profiles.selected_idx;
    let row = ev.row as int;
    let item = row - 3;
    if ev.kind == MouseEventKind::Down(MouseButton::Left) {
        if row >= top {
            if ev.column >= save_button_left(tw) {
                save_requested(
                    AppState {
                        profiles: ProfilesState { focused: ProfileField::SaveBtn, ..a.profiles },
                        ..a
                    },
                    b,
                    e,
                )
            } else {
                &&& e == Effect::Continue
                &&& b == (AppState {
                    profiles: ProfilesState { focused: ProfileField::NameInput, ..a.profiles },
                    ..a
                })
            }
        } else {
            &&& e == Effect::Continue
            &&& b == (if 0 <= item < n {
                AppState {
                    profiles: ProfilesState {
                        focused: ProfileField::List,
                        selected_idx: item as usize,
                        ..a.profiles
                    },
                    ..a
                }
            } else {
                a
            })
        }
    } else if ev.kind == MouseEventKind::Down(MouseButton::Right) {
        if row < top && 0 <= item < n {
            load_requested(with_selection(a, item as usize), b, e)
        } else {
            b == a && e == Effect::Continue
        }
    } else if ev.kind == MouseEventKind::ScrollUp || ev.kind == MouseEventKind::ScrollDown {
        &&& e == Effect::Continue
        &&& b == (if n == 0 {
            a
        } else {
            AppState {
                profiles: ProfilesState {
                    selected_idx: if ev.kind == MouseEventKind::ScrollDown {
                        ((i + 1) % (n as int)) as usize
                    } else if i == 0 {
                        (n - 1) as usize
                    } else {
                        (i - 1) as usize
                    },
                    focused: ProfileField::List,
                    ..a.profiles
                },
                ..a
            }
        })
    } else {
        b == a && e == Effect::Continue
    }
}

/// The profiles mouse events that cannot overflow here.
pub open spec fn profile_mouse_ok(s: AppState, ev: MouseEvent) -> bool {
    ev.kind == MouseEventKind::ScrollDown && s.profiles.profiles@.len() > 0
        ==> s.profiles.selected_idx < usize::MAX
}

/// Profiles-tab mouse: clicks in the save row focus the name input or
/// save; clicks on the list select (right-click loads); the wheel moves
/// the selection.
pub fn handle_mouse(event: MouseEvent, state: &mut AppState) -> (e: Effect)
    requires
        profile_mouse_ok(*old(state), event),
    ensures
        profile_mouse_effect(*old(state), *final(state), event, e),
{
    let row = event.row;
    let col = event.column;
    let (tw, th) = state.terminal_size;
    let content_h: u16 = if th >= 3 { th - 3 } else { 0 };
    let save_row_y: u16 = 2 + if content_h >= 3 { content_h - 3 } else { 0 };
    let count = state.profiles.profiles.len();
    match event.kind {
        MouseEventKind::Down(MouseButton::Left) => {
            if row >= save_row_y {
                let save_btn_x: u16 = if tw >= 16 { tw - 16 } else { 0 };
                if col >= save_btn_x {
                    state.profiles.focused = ProfileField::SaveBtn;
                    return do_save(state);
                } else {
                    state.profiles.focused = ProfileField::NameInput;
                }
            } else if row >= 3 {
                let item = (row - 3) as usize;
                if item < count {
                    state.profiles.focused = ProfileField::List;
                    state.profiles.selected_idx = item;
                }
            }
            Effect::Continue
        },
        MouseEventKind::Down(MouseButton::Right) => {
            if row >= 3 && row < save_row_y {
                let item = (row - 3) as usize;
                if item < count {
                    state.profiles.selected_idx = item;
                    return do_load(state);
                }
            }
            Effect::Continue
        },
        MouseEventKind::ScrollUp => {
            if count > 0 {
                state.profiles.selected_idx = if state.profiles.selected_idx == 0 {
                    count - 1
                } else {
                    state.profiles.selected_idx - 1
                };
                state.profiles.focused = ProfileField::List;
            }
            Effect::Continue
        },
        MouseEventKind::ScrollDown => {
            if count > 0 {
                state.profiles.selected_idx = (state.profiles.selected_idx + 1) % count;
                state.profiles.focused = ProfileField::List;
            }
            Effect::Continue
        },
        _ => Effect::Continue,
    }
}

/// `saved` is the profile list as read back after a save or delete.
pub open spec fn list_refreshed(a: ProfilesState, b: ProfilesState, saved: Vec<String>) -> bool {
    &&& b.profiles == saved
    &&& b.selected_idx == (if a.selected_idx >= saved@.len() && saved@.len() > 0 {
        (saved@.len() - 1) as usize
    } else {
        a.selected_idx
    })
}

/// After the caller tried to save profile `name`: on success the name
/// input is cleared, the list re-read, the layout counts as saved and is
/// now the active profile, and the status says so; on failure the status
/// gives the error.
pub fn finish_profile_save(
    state: &mut AppState,
    name: &str,
    result: Result<(), String>,
    profiles: Vec<String>,
)
    ensures
        result is Ok ==> {
            &&& *final(state) == (AppState {
                profiles: final(state).profiles,
                status: final(state).status,
                dirty: false,
                active_profile: final(state).active_profile,
                ..*old(state)
            })
            &&& final(state).active_profile matches Some(n) && n@ == name@
            &&& list_refreshed(old(state).profiles, final(state).profiles, profiles)
            &&& final(state).profiles == (ProfilesState {
                profiles: final(state).profiles.profiles,
                selected_idx: final(state).profiles.selected_idx,
                new_name: final(state).profiles.new_name,
                ..old(state).profiles
            })
            &&& final(state).profiles.new_name@.len() == 0
            &&& shows(final(state).status, "Saved profile "@ + quoted(name@), StatusLevel::Success)
        },
        result matches Err(msg) ==> {
            &&& *final(state) == (AppState { status: final(state).status, ..*old(state) })
            &&& shows(final(state).status, "Save failed: "@ + msg@, StatusLevel::Error)
        },
{
    match result {
        Ok(()) => {
            state.profiles.new_name = String::new();
            state.profiles.refresh(profiles);
            let mut text = String::from_str("Saved profile ");
            push_quoted(&mut text, name);
            state.set_status(text, StatusLevel::Success);
            state.dirty = false;
            state.active_profile = Some(name.to_owned());
        },
        Err(msg) => {
            let mut text = String::from_str("Save failed: ");
            push_str(&mut text, msg.as_str());
            state.set_status(text, StatusLevel::Error);
        },
    }
}

/// After the caller tried to read profile `name`: on success it is laid
/// over the monitors, which have unapplied changes and are now the active
/// profile; the status says what happened.
pub fn finish_profile_load(state: &mut AppState, name: &str, result: Result<Profile, String>)
    ensures
        result matches Ok(p) ==> {
            &&& *final(state) == (AppState {
                monitors: final(state).monitors,
                status: final(state).status,
                dirty: true,
                active_profile: final(state).active_profile,
                ..*old(state)
            })
            &&& final(state).active_profile matches Some(n) && n@ == name@
            &&& final(state).monitors@ == apply_profile(
                p.monitors@,
                old(state).monitors@,
                p.monitors@.len() as int,
            )
            &&& shows(
                final(state).status,
                "Loaded profile "@ + quoted(name@) + ". Press [a] to apply."@,
                StatusLevel::Success,
            )
        },
        result matches Err(msg) ==> {
            &&& *final(state) == (AppState { status: final(state).status, ..*old(state) })
            &&& shows(final(state).status, "Load failed: "@ + msg@, StatusLevel::Error)
        },
{
    match result {
        Ok(p) => {
            apply_to_monitors(&p, &mut state.monitors);
            state.dirty = true;
            let mut text = String::from_str("Loaded profile ");
            push_quoted(&mut text, name);
            push_str(&mut text, ". Press [a] to apply.");
            state.set_status(text, StatusLevel::Success);
            state.active_profile = Some(name.to_owned());
        },
        Err(msg) => {
            let mut text = String::from_str("Load failed: ");
            push_str(&mut text, msg.as_str());
            state.set_status(text, StatusLevel::Error);
        },
    }
}

/// After the caller tried to delete profile `name`: on success the list
/// is re-read; the status says what happened, and the pending delete is
/// forgotten either way.
pub fn finish_profile_delete(
    state: &mut AppState,
    name: &str,
    result: Result<(), String>,
    profiles: Vec<String>,
)
    ensures
        final(state).profiles.delete_confirm is None,
        result is Ok ==> {
            &&& *final(state) == (AppState {
                profiles: final(state).profiles,
                status: final(state).status,
                ..*old(state)
            })
            &&& list_refreshed(old(state).profiles, final(state).profiles, profiles)
            &&& final(state).profiles.new_name == old(state).profiles.new_name
            &&& final(state).profiles.focused == old(state).profiles.focused
            &&& shows(final(state).status, "Deleted profile "@ + quoted(name@), StatusLevel::Success)
        },
        result matches Err(msg) ==> {
            &&& *final(state) == (AppState {
                profiles: ProfilesState { delete_confirm: None, ..old(state).profiles },
                status: final(state).status,
                ..*old(state)
            })
            &&& shows(final(state).status, "Delete failed: "@ + msg@, StatusLevel::Error)
        },
{
    match result {
        Ok(()) => {
            state.profiles.refresh(profiles);
            let mut text = String::from_str("Deleted profile ");
            push_quoted(&mut text, name);
            state.set_status(text, StatusLevel::Success);
        },
        Err(msg) => {
            let mut text = String::from_str("Delete failed: ");
            push_str(&mut text, msg.as_str());
            state.set_status(text, StatusLevel::Error);
        },
    }
    state.profiles.delete_confirm = None;
}

/// Whether `profile_key_ok` holds, for callers that cannot evaluate it.
pub fn profile_key_allowed(state: &AppState, event: KeyEvent) -> (r: bool)
    ensures
        r == profile_key_ok(*state, event),
{
    let n = state.profiles.profiles.len();
    let i = state.profiles.selected_idx;
    state.profiles.focused != ProfileField::List || (!((event.code == KeyCode::Char('j')
        || event.code == KeyCode::Down) && n > 0) || i < usize::MAX) && (!((event.code
        == KeyCode::Enter || event.code == KeyCode::Char('d')) && n > 0) || i < n)
}

/// Whether `profile_mouse_ok` holds, for callers that cannot evaluate it.
pub fn profile_mouse_allowed(state: &AppState, event: MouseEvent) -> (r: bool)
    ensures
        r == profile_mouse_ok(*state, event),
{
    !(event.kind == MouseEventKind::ScrollDown && state.profiles.profiles.len() > 0)
        || state.profiles.selected_idx < usize::MAX
}

/// Deleting takes two `d` presses on the same profile: the first only
/// asks for confirmation, the second asks for that profile to be deleted.
pub proof fn law_delete_needs_two_presses(
    a: AppState,
    b: AppState,
    c: AppState,
    k: KeyEvent,
    e1: Effect,
    e2: Effect,
)
    requires
        k.code == KeyCode::Char('d'),
        a.profiles.focused == ProfileField::List,
        a.profiles.selected_idx < a.profiles.profiles@.len(),
        a.profiles.delete_confirm is None,
        profile_key_effect(a, b, k, e1),
        profile_key_effect(b, c, k, e2),
    ensures
        e1 == Effect::Continue,
        shows(
            b.status,
            delete_prompt(a.profiles.profiles@[a.profiles.selected_idx as int]@),
            StatusLevel::Info,
        ),
        e2 == Effect::DeleteProfile(a.profiles.profiles@[a.profiles.selected_idx as int]),
        c == b,
{
}

/// Tab walks the three fields of the tab in a cycle, and BackTab undoes it.
pub proof fn law_profile_focus_cycle(f: ProfileField)
    ensures
        next_profile_field(next_profile_field(next_profile_field(f))) == f,
        prev_profile_field(next_profile_field(f)) == f,
{
}

} // verus!
