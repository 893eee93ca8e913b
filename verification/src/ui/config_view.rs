//! The config tab: per-monitor settings edited field by field.
use vstd::prelude::*;

use crate::monitor::{
    all_transforms, refreshes_of, transform_code, transform_label, unique_resolutions_of, Mode, Monitor,
    Transform,
};
use crate::text::{
    chars_of, dec_nat, fixed2, negative_sign, signed_number, signed_number_in, lemma_parse_fixed2, parse_hundredths_in,
    parse_hundredths_spec, pop_char, push_char, push_dec, push_fixed2, push_str, str_eq,
};
use crate::layout::LayoutState;
use crate::ui::profiles_view::{do_save, save_requested};
use crate::ui::{
    pushed_undo, shows, AppState, Effect, KeyCode, KeyEvent, MouseButton, MouseEvent, MouseEventKind,
    StatusLevel,
};

verus! {

/// The config form's fields, top to bottom.
#[derive(Debug, Clone, Copy, PartialEq, Eq, Structural)]
pub enum ConfigField {
    Resolution,
    Refresh,
    Scale,
    Transform,
    Vrr,
    Dpms,
    MirrorOf,
}

/// The field shown on row `i` of the form (rows past the end show the last).
pub open spec fn config_field_at(i: nat) -> ConfigField {
    if i == 0 {
        ConfigField::Resolution
    } else if i == 1 {
        ConfigField::Refresh
    } else if i == 2 {
        ConfigField::Scale
    } else if i == 3 {
        ConfigField::Transform
    } else if i == 4 {
        ConfigField::Vrr
    } else if i == 5 {
        ConfigField::Dpms
    } else {
        ConfigField::MirrorOf
    }
}

pub open spec fn config_field_label(f: ConfigField) -> Seq<char> {
    match f {
        ConfigField::Resolution => "Resolution"@,
        ConfigField::Refresh => "Refresh"@,
        ConfigField::Scale => "Scale"@,
        ConfigField::Transform => "Transform"@,
        ConfigField::Vrr => "VRR"@,
        ConfigField::Dpms => "DPMS"@,
        ConfigField::MirrorOf => "Mirror of"@,
    }
}

/// Number of fields in the form.
pub const CONFIG_FIELD_COUNT: usize = 7;

impl ConfigField {
    pub fn label(self) -> (s: &'static str)
        ensures
            s@ == config_field_label(self),
    {
        match self {
            ConfigField::Resolution => "Resolution",
            ConfigField::Refresh => "Refresh",
            ConfigField::Scale => "Scale",
            ConfigField::Transform => "Transform",
            ConfigField::Vrr => "VRR",
            ConfigField::Dpms => "DPMS",
            ConfigField::MirrorOf => "Mirror of",
        }
    }

    /// The field on row `i`, the last one for rows past the end.
    pub fn at(i: usize) -> (f: ConfigField)
        ensures
            f == config_field_at(i as nat),
    {
        if i == 0 {
            ConfigField::Resolution
        } else if i == 1 {
            ConfigField::Refresh
        } else if i == 2 {
            ConfigField::Scale
        } else if i == 3 {
            ConfigField::Transform
        } else if i == 4 {
            ConfigField::Vrr
        } else if i == 5 {
            ConfigField::Dpms
        } else {
            ConfigField::MirrorOf
        }
    }
}

/// Config-tab state: the focused field, the dropdown positions, the scale
/// being typed, and the option lists of the monitor being edited.
#[derive(Debug)]
pub struct ConfigState {
    pub monitor_idx: usize,
    pub focused: usize,
    pub res_idx: usize,
    pub refresh_idx: usize,
    pub transform_idx: usize,
    pub mirror_idx: usize,
    pub scale_str: String,
    pub scale_editing: bool,
    pub resolutions: Vec<(u32, u32)>,
    pub refreshes: Vec<u32>,
    pub mirror_options: Vec<String>,
}

impl Default for ConfigState {
    fn default() -> (s: Self)
        ensures
            s.monitor_idx == 0 && s.focused == 0 && s.res_idx == 0 && s.refresh_idx == 0
                && s.transform_idx == 0 && s.mirror_idx == 0 && s.scale_str@.len() == 0
                && !s.scale_editing && s.resolutions@.len() == 0 && s.refreshes@.len() == 0
                && s.mirror_options@.len() == 0,
    {
        ConfigState {
            monitor_idx: 0,
            focused: 0,
            res_idx: 0,
            refresh_idx: 0,
            transform_idx: 0,
            mirror_idx: 0,
            scale_str: String::new(),
            scale_editing: false,
            resolutions: Vec::new(),
            refreshes: Vec::new(),
            mirror_options: Vec::new(),
        }
    }
}

/// Index of the first `x` in `s`, or -1.
pub open spec fn first_pos<T>(s: Seq<T>, x: T) -> int
    decreases s.len(),
{
    if s.len() == 0 {
        -1
    } else if s[0] == x {
        0
    } else {
        let r = first_pos(s.drop_first(), x);
        if r < 0 {
            -1
        } else {
            r + 1
        }
    }
}

/// `first_pos`, or 0 when absent.
pub open spec fn pos_or_zero<T>(s: Seq<T>, x: T) -> nat {
    if first_pos(s, x) < 0 {
        0
    } else {
        first_pos(s, x) as nat
    }
}

pub proof fn lemma_first_pos<T>(s: Seq<T>, x: T, i: int)
    requires
        0 <= i <= s.len(),
        forall|j: int| 0 <= j < i ==> s[j] != x,
        i < s.len() ==> s[i] == x,
    ensures
        first_pos(s, x) == (if i == s.len() { -1 } else { i }),
    decreases s.len(),
{
    if s.len() > 0 && i > 0 {
        assert forall|j: int| 0 <= j < i - 1 implies s.drop_first()[j] != x by {
            assert(s.drop_first()[j] == s[j + 1]);
        }
        lemma_first_pos(s.drop_first(), x, i - 1);
    }
}

/// Names of the monitors other than `name`, in order.
pub open spec fn other_names(ms: Seq<Monitor>, name: Seq<char>) -> Seq<Seq<char>>
    decreases ms.len(),
{
    if ms.len() == 0 {
        Seq::empty()
    } else if ms.last().name@ != name {
        other_names(ms.drop_last(), name).push(ms.last().name@)
    } else {
        other_names(ms.drop_last(), name)
    }
}

/// `(none)` followed by the names of the other monitors.
pub open spec fn mirror_options_for(ms: Seq<Monitor>, name: Seq<char>) -> Seq<Seq<char>> {
    seq!["(none)"@] + other_names(ms, name)
}

pub open spec fn views(v: Seq<String>) -> Seq<Seq<char>> {
    v.map_values(|s: String| s@)
}

/// The refresh list and position after choosing the resolution at
/// `res_idx`; unchanged when there is no such resolution.
pub open spec fn refreshes_synced(old: ConfigState, new: ConfigState, m: Monitor) -> bool {
    if new.res_idx < new.resolutions@.len() {
        let (w, h) = new.resolutions@[new.res_idx as int];
        &&& new.refreshes@ == refreshes_of(m.available_modes@, w, h)
        &&& new.refresh_idx == pos_or_zero(new.refreshes@, m.active_mode.refresh)
    } else {
        &&& new.refreshes@ == old.refreshes@
        &&& new.refresh_idx == old.refresh_idx
    }
}

/// The form loaded from monitor `i` of `ms`.
pub open spec fn synced_from(old: ConfigState, new: ConfigState, ms: Seq<Monitor>, i: int) -> bool {
    let m = ms[i];
    &&& new.monitor_idx == i
    &&& new.focused == old.focused
    &&& new.resolutions@ == unique_resolutions_of(m.available_modes@)
    &&& new.res_idx == pos_or_zero(
        new.resolutions@,
        (m.active_mode.width, m.active_mode.height),
    )
    &&& refreshes_synced(old, new, m)
    &&& new.transform_idx == transform_code(m.transform)
    &&& new.scale_str@ == fixed2(m.scale as nat)
    &&& !new.scale_editing
    &&& views(new.mirror_options@) == mirror_options_for(ms, m.name@)
    &&& new.mirror_idx == match m.mirror_of {
        Some(src) => pos_or_zero(views(new.mirror_options@), src@),
        None => 0,
    }
}

fn find_pair(v: &Vec<(u32, u32)>, p: (u32, u32)) -> (r: usize)
    ensures
        r == pos_or_zero(v@, p),
{
    let mut i: usize = 0;
    while i < v.len()
        invariant
            i <= v.len(),
            forall|j: int| 0 <= j < i ==> v@[j] != p,
        decreases v.len() - i,
    {
        if v[i].0 == p.0 && v[i].1 == p.1 {
            proof {
                lemma_first_pos(v@, p, i as int);
            }
            return i;
        }
        i = i + 1;
    }
    proof {
        lemma_first_pos(v@, p, i as int);
    }
    0
}

fn find_rate(v: &Vec<u32>, x: u32) -> (r: usize)
    ensures
        r == pos_or_zero(v@, x),
{
    let mut i: usize = 0;
    while i < v.len()
        invariant
            i <= v.len(),
            forall|j: int| 0 <= j < i ==> v@[j] != x,
        decreases v.len() - i,
    {
        if v[i] == x {
            proof {
                lemma_first_pos(v@, x, i as int);
            }
            return i;
        }
        i = i + 1;
    }
    proof {
        lemma_first_pos(v@, x, i as int);
    }
    0
}

fn find_option(v: &Vec<String>, x: &String) -> (r: usize)
    ensures
        r == pos_or_zero(views(v@), x@),
{
    let ghost vs = views(v@);
    let mut i: usize = 0;
    while i < v.len()
        invariant
            i <= v.len(),
            vs == views(v@),
            forall|j: int| 0 <= j < i ==> vs[j] != x@,
        decreases v.len() - i,
    {
        if v[i] == *x {
            proof {
                lemma_first_pos(vs, x@, i as int);
            }
            return i;
        }
        i = i + 1;
    }
    proof {
        lemma_first_pos(vs, x@, i as int);
    }
    0
}

fn mirror_options(ms: &Vec<Monitor>, name: &String) -> (r: Vec<String>)
    ensures
        views(r@) == mirror_options_for(ms@, name@),
{
    let mut r: Vec<String> = Vec::new();
    r.push(String::from_str("(none)"));
    let mut i: usize = 0;
    while i < ms.len()
        invariant
            i <= ms.len(),
            views(r@) == seq!["(none)"@] + other_names(ms@.take(i as int), name@),
        decreases ms.len() - i,
    {
        assert(ms@.take(i + 1).drop_last() =~= ms@.take(i as int));
        assert(ms@.take(i + 1).last() == ms@[i as int]);
        let ghost prev = r@;
        if ms[i].name != *name {
            r.push(ms[i].name.clone());
            assert(views(r@) =~= views(prev).push(ms@[i as int].name@));
        }
        i = i + 1;
        assert(views(r@) =~= seq!["(none)"@] + other_names(ms@.take(i as int), name@));
    }
    assert(ms@.take(i as int) =~= ms@);
    r
}

impl ConfigState {
    /// Reloads the refresh list for the chosen resolution of `m`.
    pub fn update_refreshes(&mut self, m: &Monitor)
        ensures
            refreshes_synced(*old(self), *final(self), *m),
            final(self).res_idx == old(self).res_idx,
            final(self).resolutions == old(self).resolutions,
            *final(self) == (ConfigState {
                refreshes: final(self).refreshes,
                refresh_idx: final(self).refresh_idx,
                ..*old(self)
            }),
    {
        if self.res_idx < self.resolutions.len() {
            let (w, h) = self.resolutions[self.res_idx];
            self.refreshes = m.refreshes_for(w, h);
            self.refresh_idx = find_rate(&self.refreshes, m.active_mode.refresh);
        }
    }

    /// Loads the form from monitor `idx` (the last one if past the end);
    /// does nothing when there are no monitors.
    pub fn sync_from_monitor(&mut self, idx: usize, monitors: &Vec<Monitor>)
        ensures
            monitors@.len() == 0 ==> *final(self) == *old(self),
            monitors@.len() > 0 ==> synced_from(
                *old(self),
                *final(self),
                monitors@,
                if idx < monitors@.len() {
                    idx as int
                } else {
                    monitors@.len() - 1
                },
            ),
    {
        if monitors.len() == 0 {
            return;
        }
        let idx = if idx < monitors.len() {
            idx
        } else {
            monitors.len() - 1
        };
        self.monitor_idx = idx;
        let m = &monitors[idx];
        self.resolutions = m.unique_resolutions();
        self.res_idx = find_pair(&self.resolutions, (m.active_mode.width, m.active_mode.height));
        self.update_refreshes(m);
        self.transform_idx = m.transform.as_u8() as usize;
        let mut s = String::new();
        push_fixed2(&mut s, m.scale as u64);
        self.scale_str = s;
        self.scale_editing = false;
        self.mirror_options = mirror_options(monitors, &m.name);
        self.mirror_idx = match &m.mirror_of {
            Some(src) => find_option(&self.mirror_options, src),
            None => 0,
        };
    }

    pub fn current_field(&self) -> (f: ConfigField)
        ensures
            f == config_field_at(self.focused as nat),
    {
        ConfigField::at(self.focused)
    }

    pub fn next_field(&mut self)
        requires
            old(self).focused < usize::MAX,
        ensures
            final(self).focused == (old(self).focused + 1) % 7,
            *final(self) == (ConfigState { focused: final(self).focused, ..*old(self) }),
    {
        self.focused = (self.focused + 1) % CONFIG_FIELD_COUNT;
    }

    pub fn prev_field(&mut self)
        ensures
            final(self).focused == (if old(self).focused == 0 {
                6
            } else {
                (old(self).focused - 1) as usize
            }),
            *final(self) == (ConfigState { focused: final(self).focused, ..*old(self) }),
    {
        self.focused = if self.focused == 0 {
            CONFIG_FIELD_COUNT - 1
        } else {
            self.focused - 1
        };
    }
}


pub open spec fn is_left(ev: KeyEvent) -> bool {
    ev.code == KeyCode::Char('h') || ev.code == KeyCode::Left
}

pub open spec fn is_right(ev: KeyEvent) -> bool {
    ev.code == KeyCode::Char('l') || ev.code == KeyCode::Right
}

pub open spec fn is_toggle(ev: KeyEvent) -> bool {
    is_left(ev) || is_right(ev) || ev.code == KeyCode::Char(' ')
}

/// The mode the resolution and refresh dropdowns select, if both are set.
pub open spec fn selected_mode(c: ConfigState) -> Option<Mode> {
    if c.res_idx < c.resolutions@.len() && c.refresh_idx < c.refreshes@.len() {
        Some(
            Mode {
                width: c.resolutions@[c.res_idx as int].0,
                height: c.resolutions@[c.res_idx as int].1,
                refresh: c.refreshes@[c.refresh_idx as int],
            },
        )
    } else {
        None
    }
}

/// Monitor `i` takes the mode the dropdowns select, if any.
pub open spec fn with_selected_mode(ms: Seq<Monitor>, i: int, c: ConfigState) -> Seq<Monitor> {
    match selected_mode(c) {
        Some(md) => ms.update(i, Monitor { active_mode: md, ..ms[i] }),
        None => ms,
    }
}

/// Monitor `i` mirrors the chosen option (none for `(none)` or no option).
pub open spec fn with_mirror_choice(ms: Seq<Monitor>, i: int, c: ConfigState) -> Seq<Monitor> {
    ms.update(
        i,
        Monitor {
            mirror_of: if c.mirror_idx < c.mirror_options@.len() && c.mirror_options@[c.mirror_idx as int]@
                != "(none)"@ {
                Some(c.mirror_options@[c.mirror_idx as int])
            } else {
                None
            },
            ..ms[i]
        },
    )
}

/// The monitor the form edits: `monitor_idx`, or the last one.
pub open spec fn edited_index(s: AppState) -> int {
    if s.config.monitor_idx < s.monitors@.len() {
        s.config.monitor_idx as int
    } else {
        s.monitors@.len() - 1
    }
}

/// Everything but the monitors, the form, the dirty flag and the active
/// profile is kept.
pub open spec fn keeps_rest(a: AppState, b: AppState) -> bool {
    b == (AppState {
        monitors: b.monitors,
        config: b.config,
        dirty: b.dirty,
        active_profile: b.active_profile,
        ..a
    })
}

/// The layout counts as edited: it has unsaved changes and is no longer
/// the profile last loaded or saved.
pub open spec fn edited(a: AppState, b: AppState) -> bool {
    b.dirty && b.active_profile is None
}

/// The dirty flag and the active profile are as they were.
pub open spec fn same_marks(a: AppState, b: AppState) -> bool {
    b.dirty == a.dirty && b.active_profile == a.active_profile
}

/// Nothing changes.
pub open spec fn unchanged(a: AppState, b: AppState) -> bool {
    &&& b.monitors == a.monitors
    &&& b.config == a.config
    &&& same_marks(a, b)
}

pub open spec fn lowered_scale(v: u32) -> u32 {
    if v < 20 {
        10
    } else {
        (v - 10) as u32
    }
}

pub open spec fn raised_scale(v: u32) -> u32 {
    if v >= 990 {
        1000
    } else {
        (v + 10) as u32
    }
}

/// A dropdown step: left moves back unless at the first entry, right moves
/// forward unless at the last.
pub open spec fn steps(ev: KeyEvent, idx: usize, len: nat) -> bool {
    is_left(ev) && idx > 0 || is_right(ev) && idx + 1 < len
}

/// The position after a dropdown step.
pub open spec fn stepped(ev: KeyEvent, idx: usize) -> usize {
    if is_left(ev) {
        (idx - 1) as usize
    } else {
        (idx + 1) as usize
    }
}

/// Resolution field: step the resolution, reload the refresh list, and
/// give the monitor the selected mode.
pub open spec fn resolution_key_effect(a: AppState, b: AppState, ev: KeyEvent) -> bool {
    let c = a.config;
    let i = edited_index(a);
    if steps(ev, c.res_idx, c.resolutions@.len()) {
        let c1 = ConfigState { res_idx: stepped(ev, c.res_idx), ..c };
        &&& b.config == (ConfigState {
            refreshes: b.config.refreshes,
            refresh_idx: b.config.refresh_idx,
            ..c1
        })
        &&& refreshes_synced(c1, b.config, a.monitors@[i])
        &&& b.monitors@ == with_selected_mode(a.monitors@, i, b.config)
        &&& edited(a, b)
    } else {
        unchanged(a, b)
    }
}

/// Refresh field: step the refresh rate and give the monitor the mode.
pub open spec fn refresh_key_effect(a: AppState, b: AppState, ev: KeyEvent) -> bool {
    let c = a.config;
    if steps(ev, c.refresh_idx, c.refreshes@.len()) {
        &&& b.config == (ConfigState { refresh_idx: stepped(ev, c.refresh_idx), ..c })
        &&& b.monitors@ == with_selected_mode(a.monitors@, edited_index(a), b.config)
        &&& edited(a, b)
    } else {
        unchanged(a, b)
    }
}

/// Scale field: `,`/`.` step the scale by 0.10 within 0.10..10.00, digits
/// are typed into the scale text, Backspace deletes from it.
pub open spec fn scale_key_effect(a: AppState, b: AppState, ev: KeyEvent) -> bool {
    let ms = a.monitors@;
    let c = a.config;
    let i = edited_index(a);
    if ev.code == KeyCode::Char(',') || ev.code == KeyCode::Char('.') {
        let v = if ev.code == KeyCode::Char(',') {
            lowered_scale(ms[i].scale)
        } else {
            raised_scale(ms[i].scale)
        };
        &&& b.monitors@ == ms.update(i, Monitor { scale: v, ..ms[i] })
        &&& b.config == (ConfigState { scale_str: b.config.scale_str, ..c })
        &&& b.config.scale_str@ == fixed2(v as nat)
        &&& edited(a, b)
    } else if ev.code matches KeyCode::Char(ch) && '0' <= ch <= '9' {
        &&& b.config == (ConfigState {
            scale_str: b.config.scale_str,
            scale_editing: true,
            ..c
        })
        &&& b.config.scale_str@ == c.scale_str@.push(ev.code->Char_0)
        &&& b.monitors == a.monitors
        &&& same_marks(a, b)
    } else if ev.code == KeyCode::Backspace {
        &&& b.config == (ConfigState { scale_str: b.config.scale_str, ..c })
        &&& b.config.scale_str@ == (if c.scale_str@.len() > 0 {
            c.scale_str@.drop_last()
        } else {
            c.scale_str@
        })
        &&& b.monitors == a.monitors
        &&& same_marks(a, b)
    } else {
        unchanged(a, b)
    }
}

/// Transform field: cycle through the eight transforms.
pub open spec fn transform_key_effect(a: AppState, b: AppState, ev: KeyEvent) -> bool {
    let ms = a.monitors@;
    let c = a.config;
    let i = edited_index(a);
    if is_left(ev) || is_right(ev) {
        let t = if is_left(ev) {
            if c.transform_idx == 0 {
                7
            } else {
                c.transform_idx - 1
            }
        } else {
            (c.transform_idx + 1) % 8
        };
        &&& b.config == (ConfigState { transform_idx: t as usize, ..c })
        &&& b.monitors@ == ms.update(i, Monitor { transform: all_transforms()[t], ..ms[i] })
        &&& edited(a, b)
    } else {
        unchanged(a, b)
    }
}

/// VRR field: a toggle key flips it.
pub open spec fn vrr_key_effect(a: AppState, b: AppState, ev: KeyEvent) -> bool {
    let ms = a.monitors@;
    let i = edited_index(a);
    if is_toggle(ev) {
        &&& b.config == a.config
        &&& b.monitors@ == ms.update(i, Monitor { vrr: !ms[i].vrr, ..ms[i] })
        &&& edited(a, b)
    } else {
        unchanged(a, b)
    }
}

/// DPMS field: a toggle key flips it.
pub open spec fn dpms_key_effect(a: AppState, b: AppState, ev: KeyEvent) -> bool {
    let ms = a.monitors@;
    let i = edited_index(a);
    if is_toggle(ev) {
        &&& b.config == a.config
        &&& b.monitors@ == ms.update(i, Monitor { dpms: !ms[i].dpms, ..ms[i] })
        &&& edited(a, b)
    } else {
        unchanged(a, b)
    }
}

/// Mirror field: step the option and set the monitor's mirror source.
pub open spec fn mirror_of_key_effect(a: AppState, b: AppState, ev: KeyEvent) -> bool {
    let c = a.config;
    if steps(ev, c.mirror_idx, c.mirror_options@.len()) {
        &&& b.config == (ConfigState { mirror_idx: stepped(ev, c.mirror_idx), ..c })
        &&& b.monitors@ == with_mirror_choice(a.monitors@, edited_index(a), b.config)
        &&& edited(a, b)
    } else {
        unchanged(a, b)
    }
}

/// Effect of a key on the focused field (monitors non-empty).
pub open spec fn field_key_effect(a: AppState, b: AppState, ev: KeyEvent) -> bool {
    match config_field_at(a.config.focused as nat) {
        ConfigField::Resolution => resolution_key_effect(a, b, ev),
        ConfigField::Refresh => refresh_key_effect(a, b, ev),
        ConfigField::Scale => scale_key_effect(a, b, ev),
        ConfigField::Transform => transform_key_effect(a, b, ev),
        ConfigField::Vrr => vrr_key_effect(a, b, ev),
        ConfigField::Dpms => dpms_key_effect(a, b, ev),
        ConfigField::MirrorOf => mirror_of_key_effect(a, b, ev),
    }
}

/// The field keys that cannot index out of range or overflow.
pub open spec fn field_key_ok(s: AppState, ev: KeyEvent) -> bool {
    s.monitors@.len() > 0 && config_field_at(s.config.focused as nat) == ConfigField::Transform ==> {
        &&& is_left(ev) ==> s.config.transform_idx <= 8
        &&& is_right(ev) ==> s.config.transform_idx < usize::MAX
    }
}

fn sync_mode_to_monitor(state: &mut AppState, idx: usize)
    requires
        idx < old(state).monitors@.len(),
    ensures
        final(state).monitors@ == with_selected_mode(old(state).monitors@, idx as int, old(state).config),
        *final(state) == (AppState { monitors: final(state).monitors, ..*old(state) }),
{
    if state.config.res_idx < state.config.resolutions.len() && state.config.refresh_idx
        < state.config.refreshes.len() {
        let (w, h) = state.config.resolutions[state.config.res_idx];
        let r = state.config.refreshes[state.config.refresh_idx];
        state.monitors[idx].active_mode = Mode { width: w, height: h, refresh: r };
        assert(state.monitors@ =~= with_selected_mode(old(state).monitors@, idx as int, old(state).config));
    }
}

fn sync_mirror_to_monitor(state: &mut AppState, idx: usize)
    requires
        idx < old(state).monitors@.len(),
    ensures
        final(state).monitors@ == with_mirror_choice(old(state).monitors@, idx as int, old(state).config),
        *final(state) == (AppState { monitors: final(state).monitors, ..*old(state) }),
{
    let chosen = if state.config.mirror_idx < state.config.mirror_options.len() {
        let o = &state.config.mirror_options[state.config.mirror_idx];
        if str_eq(o.as_str(), "(none)") {
            None
        } else {
            Some(o.clone())
        }
    } else {
        None
    };
    state.monitors[idx].mirror_of = chosen;
    assert(state.monitors@ =~= with_mirror_choice(old(state).monitors@, idx as int, old(state).config));
}

fn fixed2_string(v: u32) -> (s: String)
    ensures
        s@ == fixed2(v as nat),
{
    let mut s = String::new();
    push_fixed2(&mut s, v as u64);
    s
}

fn key_left(event: KeyEvent) -> (b: bool)
    ensures
        b == is_left(event),
{
    event.code == KeyCode::Char('h') || event.code == KeyCode::Left
}

fn key_right(event: KeyEvent) -> (b: bool)
    ensures
        b == is_right(event),
{
    event.code == KeyCode::Char('l') || event.code == KeyCode::Right
}

fn resolution_key(event: KeyEvent, state: &mut AppState, idx: usize)
    requires
        old(state).monitors@.len() > 0,
        idx == edited_index(*old(state)),
    ensures
        keeps_rest(*old(state), *final(state)),
        resolution_key_effect(*old(state), *final(state), event),
{
    let left = key_left(event);
    let right = key_right(event);
    if left && state.config.res_idx > 0 || right && state.config.res_idx
        < state.config.resolutions.len() && state.config.res_idx + 1
        < state.config.resolutions.len() {
        if left {
            state.config.res_idx = state.config.res_idx - 1;
        } else {
            state.config.res_idx = state.config.res_idx + 1;
        }
        state.config.update_refreshes(&state.monitors[idx]);
        sync_mode_to_monitor(state, idx);
        state.mark_dirty();
    }
}

fn refresh_key(event: KeyEvent, state: &mut AppState, idx: usize)
    requires
        old(state).monitors@.len() > 0,
        idx == edited_index(*old(state)),
    ensures
        keeps_rest(*old(state), *final(state)),
        refresh_key_effect(*old(state), *final(state), event),
{
    let left = key_left(event);
    let right = key_right(event);
    if left && state.config.refresh_idx > 0 || right && state.config.refresh_idx
        < state.config.refreshes.len() && state.config.refresh_idx + 1
        < state.config.refreshes.len() {
        if left {
            state.config.refresh_idx = state.config.refresh_idx - 1;
        } else {
            state.config.refresh_idx = state.config.refresh_idx + 1;
        }
        sync_mode_to_monitor(state, idx);
        state.mark_dirty();
    }
}

fn scale_key(event: KeyEvent, state: &mut AppState, idx: usize)
    requires
        old(state).monitors@.len() > 0,
        idx == edited_index(*old(state)),
    ensures
        keeps_rest(*old(state), *final(state)),
        scale_key_effect(*old(state), *final(state), event),
{
    match event.code {
        KeyCode::Char(',') => {
            let s = state.monitors[idx].scale;
            let v = if s < 20 {
                10
            } else {
                s - 10
            };
            state.monitors[idx].scale = v;
            state.config.scale_str = fixed2_string(v);
            state.mark_dirty();
        },
        KeyCode::Char('.') => {
            let s = state.monitors[idx].scale;
            let v = if s >= 990 {
                1000
            } else {
                s + 10
            };
            state.monitors[idx].scale = v;
            state.config.scale_str = fixed2_string(v);
            state.mark_dirty();
        },
        KeyCode::Char(c) => {
            if '0' <= c && c <= '9' {
                state.config.scale_editing = true;
                push_char(&mut state.config.scale_str, c);
            }
        },
        KeyCode::Backspace => {
            pop_char(&mut state.config.scale_str);
        },
        _ => {},
    }
}

fn transform_key(event: KeyEvent, state: &mut AppState, idx: usize)
    requires
        old(state).monitors@.len() > 0,
        idx == edited_index(*old(state)),
        field_key_ok(*old(state), event),
        config_field_at(old(state).config.focused as nat) == ConfigField::Transform,
    ensures
        keeps_rest(*old(state), *final(state)),
        transform_key_effect(*old(state), *final(state), event),
{
    let left = key_left(event);
    let right = key_right(event);
    if left || right {
        let all = Transform::all();
        let t = if left {
            if state.config.transform_idx == 0 {
                7
            } else {
                state.config.transform_idx - 1
            }
        } else {
            (state.config.transform_idx + 1) % 8
        };
        state.config.transform_idx = t;
        state.monitors[idx].transform = all[t];
        state.mark_dirty();
    }
}

fn toggle_key(event: KeyEvent, state: &mut AppState, idx: usize, vrr: bool)
    requires
        old(state).monitors@.len() > 0,
        idx == edited_index(*old(state)),
    ensures
        keeps_rest(*old(state), *final(state)),
        vrr ==> vrr_key_effect(*old(state), *final(state), event),
        !vrr ==> dpms_key_effect(*old(state), *final(state), event),
{
    if key_left(event) || key_right(event) || event.code == KeyCode::Char(' ') {
        if vrr {
            state.monitors[idx].vrr = !state.monitors[idx].vrr;
        } else {
            state.monitors[idx].dpms = !state.monitors[idx].dpms;
        }
        state.mark_dirty();
    }
}

fn mirror_key(event: KeyEvent, state: &mut AppState, idx: usize)
    requires
        old(state).monitors@.len() > 0,
        idx == edited_index(*old(state)),
    ensures
        keeps_rest(*old(state), *final(state)),
        mirror_of_key_effect(*old(state), *final(state), event),
{
    let left = key_left(event);
    let right = key_right(event);
    if left && state.config.mirror_idx > 0 || right && state.config.mirror_idx
        < state.config.mirror_options.len() && state.config.mirror_idx + 1
        < state.config.mirror_options.len() {
        if left {
            state.config.mirror_idx = state.config.mirror_idx - 1;
        } else {
            state.config.mirror_idx = state.config.mirror_idx + 1;
        }
        sync_mirror_to_monitor(state, idx);
        state.mark_dirty();
    }
}

/// A key on the focused field: h/l (or arrows) step dropdowns, `,`/`.`
/// step the scale by 0.1 within 0.1..10, digits type a scale, toggles flip.
pub fn handle_field_key(event: KeyEvent, state: &mut AppState)
    requires
        field_key_ok(*old(state), event),
    ensures
        keeps_rest(*old(state), *final(state)),
        old(state).monitors@.len() == 0 ==> unchanged(*old(state), *final(state)),
        old(state).monitors@.len() > 0 ==> field_key_effect(*old(state), *final(state), event),
{
    let n = state.monitors.len();
    if n == 0 {
        return;
    }
    let idx = if state.config.monitor_idx < n {
        state.config.monitor_idx
    } else {
        n - 1
    };
    match state.config.current_field() {
        ConfigField::Resolution => resolution_key(event, state, idx),
        ConfigField::Refresh => refresh_key(event, state, idx),
        ConfigField::Scale => scale_key(event, state, idx),
        ConfigField::Transform => transform_key(event, state, idx),
        ConfigField::Vrr => toggle_key(event, state, idx, true),
        ConfigField::Dpms => toggle_key(event, state, idx, false),
        ConfigField::MirrorOf => mirror_key(event, state, idx),
    }
}

/// `v` kept within 0.10..10.00.
pub open spec fn clamped_scale(v: u32) -> u32 {
    if v < 10 {
        10
    } else if v > 1000 {
        1000
    } else {
        v
    }
}

/// The scale a commit takes from the typed text: the number kept within
/// 0.10..10.00. A number too large to count in hundredths, or an infinity,
/// lies beyond 10.00 and gives 10.00; a negative one gives 0.10; anything
/// else is no scale.
pub open spec fn committed_scale(text: Seq<char>) -> Option<u32> {
    match parse_hundredths_spec(text) {
        Some(v) => Some(clamped_scale(v)),
        None => if !signed_number(text) {
            None
        } else if negative_sign(text) {
            Some(10u32)
        } else {
            Some(1000u32)
        },
    }
}

/// The typed scale committed to the edited monitor when it reads as one;
/// the form leaves scale editing either way. Says nothing of `dirty`.
pub open spec fn commit_effect(a: AppState, b: AppState) -> bool {
    match committed_scale(a.config.scale_str@) {
        Some(v) => {
            let i = edited_index(a);
            &&& b.monitors@ == a.monitors@.update(i, Monitor { scale: v, ..a.monitors@[i] })
            &&& b.config == (ConfigState {
                scale_str: b.config.scale_str,
                scale_editing: false,
                ..a.config
            })
            &&& b.config.scale_str@ == fixed2(v as nat)
        },
        None => {
            &&& b.monitors == a.monitors
            &&& b.config == (ConfigState { scale_editing: false, ..a.config })
        },
    }
}

/// The scale a commit of `text` takes, if any.
fn commit_value(text: &String) -> (r: Option<u32>)
    ensures
        r == committed_scale(text@),
{
    let chars = chars_of(text.as_str());
    let n = chars.len();
    assert(chars@.subrange(0, n as int) =~= chars@);
    match parse_hundredths_in(&chars, 0, n) {
        Some(v) => Some(
            if v < 10 {
                10
            } else if v > 1000 {
                1000
            } else {
                v
            },
        ),
        None => {
            let (number, negative) = signed_number_in(&chars, 0, n);
            if !number {
                None
            } else if negative {
                Some(10)
            } else {
                Some(1000)
            }
        },
    }
}

/// Commits the typed scale (clamped to 0.10..10.00) to the edited monitor.
pub fn commit_scale(state: &mut AppState)
    requires
        committed_scale(old(state).config.scale_str@) is Some ==> old(state).monitors@.len() > 0,
    ensures
        commit_effect(*old(state), *final(state)),
        committed_scale(old(state).config.scale_str@) is Some ==> edited(*old(state), *final(state)),
        committed_scale(old(state).config.scale_str@) is None ==> same_marks(*old(state), *final(state)),
        keeps_rest(*old(state), *final(state)),
{
    match commit_value(&state.config.scale_str) {
        Some(c) => {
            let len = state.monitors.len();
            let idx = if state.config.monitor_idx < len {
                state.config.monitor_idx
            } else {
                len - 1
            };
            state.monitors[idx].scale = c;
            state.config.scale_str = fixed2_string(c);
            state.mark_dirty();
        },
        None => {},
    }
    state.config.scale_editing = false;
}

/// After `apply`: the layout is queued for applying, the status says so,
/// and the edits count as saved.
pub open spec fn applied(a: AppState, b: AppState) -> bool {
    &&& b == (AppState { pending_apply: true, status: b.status, dirty: false, ..a })
    &&& shows(b.status, "Applying..."@, StatusLevel::Info)
}

/// Queues the current layout for applying.
pub fn apply_current(state: &mut AppState)
    ensures
        applied(*old(state), *final(state)),
{
    state.pending_apply = true;
    state.set_status(String::from_str("Applying..."), StatusLevel::Info);
    state.dirty = false;
}

pub open spec fn is_next_key(ev: KeyEvent) -> bool {
    ev.code == KeyCode::Char('j') || ev.code == KeyCode::Down || ev.code == KeyCode::Tab
}

pub open spec fn is_prev_key(ev: KeyEvent) -> bool {
    ev.code == KeyCode::Char('k') || ev.code == KeyCode::Up || ev.code == KeyCode::BackTab
}

/// Keys the config tab handles itself; the others go to the focused field.
pub open spec fn is_form_key(ev: KeyEvent) -> bool {
    is_next_key(ev) || is_prev_key(ev) || ev.code == KeyCode::Char('[') || ev.code == KeyCode::Char(
        ']',
    ) || ev.code == KeyCode::Char('a') || ev.code == KeyCode::Char('s') || ev.code == KeyCode::Esc
        || ev.code == KeyCode::Enter
}

/// The monitor `[` moves to: the previous one, wrapping to the last.
pub open spec fn prev_monitor(s: AppState) -> usize {
    if s.config.monitor_idx == 0 {
        (s.monitors@.len() - 1) as usize
    } else {
        (s.config.monitor_idx - 1) as usize
    }
}

/// The monitor `]` moves to: the next one, wrapping to the first.
pub open spec fn next_monitor(s: AppState) -> usize {
    ((s.config.monitor_idx + 1) % (s.monitors@.len() as int)) as usize
}

/// The form reloaded from monitor `k` (clamped to the list), the layout
/// selecting `k`.
pub open spec fn moved_to_monitor(a: AppState, b: AppState, k: usize) -> bool {
    &&& b == (AppState { layout: LayoutState { selected: k, ..a.layout }, config: b.config, ..a })
    &&& synced_from(
        a.config,
        b.config,
        a.monitors@,
        if k < a.monitors@.len() {
            k as int
        } else {
            a.monitors@.len() - 1
        },
    )
}

/// The config keys that cannot overflow or index out of range here.
pub open spec fn config_key_ok(s: AppState, ev: KeyEvent) -> bool {
    &&& is_next_key(ev) ==> s.config.focused < usize::MAX
    &&& ev.code == KeyCode::Char(']') && s.monitors@.len() > 0 ==> s.config.monitor_idx < usize::MAX
    &&& ev.code == KeyCode::Enter && config_field_at(s.config.focused as nat) == ConfigField::Scale
        && committed_scale(s.config.scale_str@) is Some ==> s.monitors@.len() > 0
    &&& !is_form_key(ev) ==> field_key_ok(s, ev)
}

fn switch_monitor(state: &mut AppState, k: usize)
    requires
        old(state).monitors@.len() > 0,
    ensures
        moved_to_monitor(*old(state), *final(state), k),
{
    state.layout.selected = k;
    state.config.sync_from_monitor(k, &state.monitors);
}

/// Effect of a config-tab key.
pub open spec fn config_key_effect(a: AppState, b: AppState, ev: KeyEvent, e: Effect) -> bool {
    &&& (ev.code != KeyCode::Char('s') ==> e == Effect::Continue)
    &&& (is_next_key(ev) ==> b == (AppState {
        config: ConfigState {
            focused: ((a.config.focused + 1) % 7) as usize,
            scale_editing: false,
            ..a.config
        },
        ..a
    }))
    &&& (is_prev_key(ev) ==> b == (AppState {
        config: ConfigState {
            focused: if a.config.focused == 0 {
                6
            } else {
                (a.config.focused - 1) as usize
            },
            scale_editing: false,
            ..a.config
        },
        ..a
    }))
    &&& (ev.code == KeyCode::Char('[') ==> if a.monitors@.len() > 0 {
        moved_to_monitor(a, b, prev_monitor(a))
    } else {
        b == a
    })
    &&& (ev.code == KeyCode::Char(']') ==> if a.monitors@.len() > 0 {
        moved_to_monitor(a, b, next_monitor(a))
    } else {
        b == a
    })
    &&& (ev.code == KeyCode::Char('a') ==> applied(a, b))
    &&& (ev.code == KeyCode::Char('s') ==> save_requested(a, b, e))
    &&& (ev.code == KeyCode::Esc ==> {
        let c0 = ConfigState { scale_editing: false, ..a.config };
        &&& b == (AppState { config: b.config, ..a })
        &&& a.monitors@.len() == 0 ==> b.config == c0
        &&& a.monitors@.len() > 0 ==> synced_from(
            c0,
            b.config,
            a.monitors@,
            if a.config.monitor_idx < a.monitors@.len() {
                a.config.monitor_idx as int
            } else {
                a.monitors@.len() - 1
            },
        )
    })
    &&& (ev.code == KeyCode::Enter ==> {
        &&& config_field_at(a.config.focused as nat) == ConfigField::Scale ==> commit_effect(
            a,
            b,
        )
        &&& config_field_at(a.config.focused as nat) != ConfigField::Scale ==> {
            &&& b.monitors == a.monitors
            &&& b.config == a.config
        }
        &&& b.active_profile == (if config_field_at(a.config.focused as nat) == ConfigField::Scale
            && committed_scale(a.config.scale_str@) is Some {
            None
        } else {
            a.active_profile
        })
        &&& applied(
            AppState {
                monitors: b.monitors,
                config: b.config,
                active_profile: b.active_profile,
                ..a
            },
            b,
        )
    })
    &&& (!is_form_key(ev) ==> {
        &&& pushed_undo(a.undo_stack@, b.undo_stack@, a.monitors@)
        &&& keeps_rest(AppState { undo_stack: b.undo_stack, ..a }, b)
        &&& a.monitors@.len() == 0 ==> unchanged(a, b)
        &&& a.monitors@.len() > 0 ==> field_key_effect(
            AppState { undo_stack: b.undo_stack, ..a },
            b,
            ev,
        )
    })
}

/// Config-tab keys: j/k (Tab/BackTab, arrows) move between fields, `[`/`]`
/// switch monitor, `a` applies, `s` saves the layout as the profile named
/// in the name input, Esc reloads the form, Enter commits a typed scale and applies;
/// other keys edit the focused field after an undo snapshot.
pub fn handle_key(event: KeyEvent, state: &mut AppState) -> (e: Effect)
    requires
        config_key_ok(*old(state), event),
    ensures
        config_key_effect(*old(state), *final(state), event, e),
{
    match event.code {
        KeyCode::Char('j') | KeyCode::Down | KeyCode::Tab => {
            state.config.scale_editing = false;
            state.config.next_field();
        },
        KeyCode::Char('k') | KeyCode::Up | KeyCode::BackTab => {
            state.config.scale_editing = false;
            state.config.prev_field();
        },
        KeyCode::Char('[') => {
            let count = state.monitors.len();
            if count > 0 {
                let k = if state.config.monitor_idx == 0 {
                    count - 1
                } else {
                    state.config.monitor_idx - 1
                };
                switch_monitor(state, k);
            }
        },
        KeyCode::Char(']') => {
            let count = state.monitors.len();
            if count > 0 {
                let k = (state.config.monitor_idx + 1) % count;
                switch_monitor(state, k);
            }
        },
        KeyCode::Char('a') => {
            apply_current(state);
        },
        KeyCode::Char('s') => {
            return do_save(state);
        },
        KeyCode::Esc => {
            state.config.scale_editing = false;
            let idx = state.config.monitor_idx;
            state.config.sync_from_monitor(idx, &state.monitors);
        },
        KeyCode::Enter => {
            if state.config.current_field() == ConfigField::Scale {
                commit_scale(state);
            }
            apply_current(state);
        },
        _ => {
            state.push_undo();
            handle_field_key(event, state);
        },
    }
    Effect::Continue
}

/// The key a wheel step stands for: up steps a field right, down left.
pub open spec fn scroll_key(kind: MouseEventKind) -> KeyEvent {
    KeyEvent {
        code: if kind == MouseEventKind::ScrollUp {
            KeyCode::Right
        } else {
            KeyCode::Left
        },
        shift: false,
        ctrl: false,
    }
}

/// The mouse events that cannot overflow here.
pub open spec fn config_mouse_ok(s: AppState, ev: MouseEvent) -> bool {
    (ev.kind == MouseEventKind::ScrollUp || ev.kind == MouseEventKind::ScrollDown) ==> field_key_ok(
        s,
        scroll_key(ev.kind),
    )
}

/// Effect of a config-tab mouse event.
pub open spec fn config_mouse_effect(a: AppState, b: AppState, ev: MouseEvent) -> bool {
    &&& (a.monitors@.len() == 0 ==> b == a)
    &&& (a.monitors@.len() > 0 && ev.kind == MouseEventKind::Down(MouseButton::Left) ==> b == (if 5 <= ev.row < 12 {
        AppState {
            config: ConfigState { focused: (ev.row - 5) as usize, ..a.config },
            ..a
        }
    } else {
        a
    }))
    &&& (a.monitors@.len() > 0 && (ev.kind == MouseEventKind::ScrollUp || ev.kind
        == MouseEventKind::ScrollDown) ==> {
        &&& pushed_undo(a.undo_stack@, b.undo_stack@, a.monitors@)
        &&& keeps_rest(AppState { undo_stack: b.undo_stack, ..a }, b)
        &&& field_key_effect(
            AppState { undo_stack: b.undo_stack, ..a },
            b,
            scroll_key(ev.kind),
        )
    })
    &&& (a.monitors@.len() > 0 && ev.kind != MouseEventKind::Down(MouseButton::Left)
        && ev.kind != MouseEventKind::ScrollUp && ev.kind != MouseEventKind::ScrollDown
        ==> b == a)
}

/// Config-tab mouse: a click on a field row (rows 5.. of the screen)
/// focuses it; the wheel steps the focused field after an undo snapshot.
/// Nothing happens without monitors.
pub fn handle_mouse(event: MouseEvent, state: &mut AppState)
    requires
        config_mouse_ok(*old(state), event),
    ensures
        config_mouse_effect(*old(state), *final(state), event),
{
    if state.monitors.len() == 0 {
        return;
    }
    let row = event.row;
    match event.kind {
        MouseEventKind::Down(MouseButton::Left) => {
            if row >= 5 {
                let field_idx = (row - 5) as usize;
                if field_idx < CONFIG_FIELD_COUNT {
                    state.config.focused = field_idx;
                }
            }
        },
        MouseEventKind::ScrollUp => {
            state.push_undo();
            handle_field_key(KeyEvent { code: KeyCode::Right, shift: false, ctrl: false }, state);
        },
        MouseEventKind::ScrollDown => {
            state.push_undo();
            handle_field_key(KeyEvent { code: KeyCode::Left, shift: false, ctrl: false }, state);
        },
        _ => {},
    }
}

/// Whether `field_key_ok` holds, for callers that cannot evaluate it.
pub fn field_key_allowed(state: &AppState, event: KeyEvent) -> (r: bool)
    ensures
        r == field_key_ok(*state, event),
{
    if state.monitors.len() > 0 && state.config.current_field() == ConfigField::Transform {
        (!key_left(event) || state.config.transform_idx <= 8) && (!key_right(event)
            || state.config.transform_idx < usize::MAX)
    } else {
        true
    }
}

/// Whether the typed scale reads as a scale.
fn scale_parses(state: &AppState) -> (r: bool)
    ensures
        r == committed_scale(state.config.scale_str@) is Some,
{
    commit_value(&state.config.scale_str).is_some()
}

/// Whether `config_key_ok` holds, for callers that cannot evaluate it.
pub fn config_key_allowed(state: &AppState, event: KeyEvent) -> (r: bool)
    ensures
        r == config_key_ok(*state, event),
{
    let next = event.code == KeyCode::Char('j') || event.code == KeyCode::Down || event.code
        == KeyCode::Tab;
    let prev = event.code == KeyCode::Char('k') || event.code == KeyCode::Up || event.code
        == KeyCode::BackTab;
    let form = next || prev || event.code == KeyCode::Char('[') || event.code == KeyCode::Char(']')
        || event.code == KeyCode::Char('a') || event.code == KeyCode::Char('s') || event.code
        == KeyCode::Esc || event.code == KeyCode::Enter;
    let n = state.monitors.len();
    (!next || state.config.focused < usize::MAX) && (!(event.code == KeyCode::Char(']') && n > 0)
        || state.config.monitor_idx < usize::MAX) && (!(event.code == KeyCode::Enter
        && state.config.current_field() == ConfigField::Scale && scale_parses(state)) || n > 0)
        && (form || field_key_allowed(state, event))
}

/// Whether `config_mouse_ok` holds, for callers that cannot evaluate it.
pub fn config_mouse_allowed(state: &AppState, event: MouseEvent) -> (r: bool)
    ensures
        r == config_mouse_ok(*state, event),
{
    if event.kind == MouseEventKind::ScrollUp {
        field_key_allowed(state, KeyEvent { code: KeyCode::Right, shift: false, ctrl: false })
    } else if event.kind == MouseEventKind::ScrollDown {
        field_key_allowed(state, KeyEvent { code: KeyCode::Left, shift: false, ctrl: false })
    } else {
        true
    }
}

/// Moving to the next field and back returns to the same field, and seven
/// steps go round the form.
pub proof fn law_field_cycle(f: usize)
    requires
        f < 7,
    ensures
        ({
            let n = ((f + 1) % 7) as usize;
            (if n == 0 { 6 } else { n - 1 }) == f
        }),
        config_field_at(((f + 7) % 7) as nat) == config_field_at(f as nat),
{
}

/// The `,` and `.` steps keep a scale within 0.10..10.00, and move one
/// inside it by exactly 0.10 where there is room.
pub proof fn law_scale_steps_bounded(v: u32)
    ensures
        10 <= lowered_scale(v) <= 1000 || v > 1010,
        10 <= raised_scale(v) <= 1000 || v < 0,
        20 <= v <= 1010 ==> lowered_scale(v) == v - 10,
        v < 990 ==> raised_scale(v) == v + 10,
        lowered_scale(v) <= v || v < 10,
        raised_scale(v) >= v || v > 1000,
{
}

/// Committing the scale shown after a commit changes nothing more: the
/// text reads back as the value the monitor holds.
pub proof fn law_commit_idempotent(a: AppState, b: AppState, c: AppState)
    requires
        committed_scale(a.config.scale_str@) is Some,
        a.monitors@.len() > 0,
        commit_effect(a, b),
        commit_effect(b, c),
    ensures
        c.monitors@ == b.monitors@,
        c.config.scale_str@ == b.config.scale_str@,
        c.config == (ConfigState { scale_str: c.config.scale_str, ..b.config }),
{
    let v = committed_scale(a.config.scale_str@)->0;
    lemma_parse_fixed2(v);
    let i = edited_index(a);
    assert(edited_index(b) == i);
    assert(b.monitors@[i] == (Monitor { scale: v, ..a.monitors@[i] }));
    assert(c.monitors@ =~= b.monitors@);
}

/// The text shown for a field of the form, for monitor `m`.
pub open spec fn field_text(field: ConfigField, c: ConfigState, m: Monitor) -> Seq<char> {
    match field {
        ConfigField::Resolution => if c.res_idx < c.resolutions@.len() {
            dec_nat(c.resolutions@[c.res_idx as int].0 as nat) + "x"@ + dec_nat(
                c.resolutions@[c.res_idx as int].1 as nat,
            ) + "  (h/l to change)"@
        } else {
            dec_nat(m.active_mode.width as nat) + "x"@ + dec_nat(m.active_mode.height as nat)
        },
        ConfigField::Refresh => if c.refresh_idx < c.refreshes@.len() {
            fixed2(c.refreshes@[c.refresh_idx as int] as nat) + " Hz  (h/l to change)"@
        } else {
            fixed2(m.active_mode.refresh as nat) + " Hz"@
        },
        ConfigField::Scale => if c.scale_editing {
            c.scale_str@ + "|  (Enter to commit, ,/. for ±0.1)"@
        } else {
            c.scale_str@ + "  (,/. for ±0.1)"@
        },
        ConfigField::Transform => transform_label(
            all_transforms()[if c.transform_idx < 8 {
                c.transform_idx as int
            } else {
                7
            }],
        ),
        ConfigField::Vrr => if m.vrr {
            "ON"@
        } else {
            "OFF"@
        },
        ConfigField::Dpms => if m.dpms {
            "ON"@
        } else {
            "OFF"@
        },
        ConfigField::MirrorOf => if c.mirror_idx < c.mirror_options@.len() {
            c.mirror_options@[c.mirror_idx as int]@
        } else {
            "(none)"@
        },
    }
}

/// The text shown for a field of the form, for monitor `m`.
pub fn field_value(field: ConfigField, state: &AppState, m: &Monitor) -> (s: String)
    ensures
        s@ == field_text(field, state.config, *m),
{
    let c = &state.config;
    let mut s = String::new();
    match field {
        ConfigField::Resolution => {
            if c.res_idx < c.resolutions.len() {
                let (w, h) = c.resolutions[c.res_idx];
                push_dec(&mut s, w as u64);
                push_str(&mut s, "x");
                push_dec(&mut s, h as u64);
                push_str(&mut s, "  (h/l to change)");
            } else {
                push_dec(&mut s, m.active_mode.width as u64);
                push_str(&mut s, "x");
                push_dec(&mut s, m.active_mode.height as u64);
            }
        },
        ConfigField::Refresh => {
            if c.refresh_idx < c.refreshes.len() {
                push_fixed2(&mut s, c.refreshes[c.refresh_idx] as u64);
                push_str(&mut s, " Hz  (h/l to change)");
            } else {
                push_fixed2(&mut s, m.active_mode.refresh as u64);
                push_str(&mut s, " Hz");
            }
        },
        ConfigField::Scale => {
            push_str(&mut s, c.scale_str.as_str());
            if c.scale_editing {
                push_str(&mut s, "|  (Enter to commit, ,/. for ±0.1)");
            } else {
                push_str(&mut s, "  (,/. for ±0.1)");
            }
        },
        ConfigField::Transform => {
            let all = Transform::all();
            let k = if c.transform_idx < 8 {
                c.transform_idx
            } else {
                7
            };
            push_str(&mut s, all[k].label());
        },
        ConfigField::Vrr => {
            push_str(&mut s, if m.vrr { "ON" } else { "OFF" });
        },
        ConfigField::Dpms => {
            push_str(&mut s, if m.dpms { "ON" } else { "OFF" });
        },
        ConfigField::MirrorOf => {
            if c.mirror_idx < c.mirror_options.len() {
                push_str(&mut s, c.mirror_options[c.mirror_idx].as_str());
            } else {
                push_str(&mut s, "(none)");
            }
        },
    }
    assert(s@ =~= field_text(field, state.config, *m));
    s
}

} // verus!
