//! The shared Hyprland layout store: a list of `hl.monitor()` rules, built
//! from the live layout and overlaid back onto live monitors. An empty
//! `output` is the wildcard default rule.
use vstd::prelude::*;

use crate::monitor::{
    find_slave, mirror_slave, mode_parse_spec, whole_hz, Mode, Monitor,
};
use crate::text::{
    chars_of, dec_int, dec_nat, find_char, fixed2, parse_hundredths_in, parse_hundredths_spec,
    parse_i32_in, parse_i32_spec, push_dec, push_dec_i64, push_fixed2, push_str, split_once,
    str_eq, is_digit, lemma_dec_nat, lemma_first_index, lemma_parse_dec_hundredths,
    lemma_parse_dec_i32, lemma_parse_dec_u32, lemma_parse_fixed2, trim_hz,
};

verus! {

/// One `hl.monitor()` rule.
#[derive(Debug, Clone, PartialEq, Eq)]
pub struct MonitorRule {
    pub output: String,
    pub mode: String,
    pub position: String,
    pub scale: String,
    pub mirror: Option<String>,
}

/// The rules file.
#[derive(Debug, Clone, PartialEq, Eq)]
pub struct MonitorsFile {
    pub monitors: Vec<MonitorRule>,
}

/// `preferred`: keep the live mode.
pub fn default_mode() -> (s: String)
    ensures
        s@ == "preferred"@,
{
    String::from_str("preferred")
}

/// `auto`: keep the live position.
pub fn default_position() -> (s: String)
    ensures
        s@ == "auto"@,
{
    String::from_str("auto")
}

/// `auto`: keep the live scale.
pub fn default_scale() -> (s: String)
    ensures
        s@ == "auto"@,
{
    String::from_str("auto")
}

/// The wildcard rule that keeps every live value.
pub open spec fn is_wildcard_default(r: MonitorRule) -> bool {
    &&& r.output@ == Seq::<char>::empty()
    &&& r.mode@ == "preferred"@
    &&& r.position@ == "auto"@
    &&& r.scale@ == "auto"@
    &&& r.mirror is None
}

impl Default for MonitorRule {
    fn default() -> (r: Self)
        ensures
            is_wildcard_default(r),
    {
        MonitorRule {
            output: String::new(),
            mode: default_mode(),
            position: default_position(),
            scale: default_scale(),
            mirror: None,
        }
    }
}

impl Default for MonitorsFile {
    fn default() -> (f: Self)
        ensures
            f.monitors@.len() == 1,
            is_wildcard_default(f.monitors@[0]),
    {
        let mut monitors: Vec<MonitorRule> = Vec::new();
        monitors.push(MonitorRule::default());
        MonitorsFile { monitors }
    }
}

/// A file read from disk, with an empty rule list read as no file: the
/// loader then falls back to the wildcard default rather than applying zero
/// rules.
pub fn non_empty(file: MonitorsFile) -> (r: Option<MonitorsFile>)
    ensures
        file.monitors@.len() == 0 ==> r is None,
        file.monitors@.len() > 0 ==> r == Some(file),
{
    if file.monitors.len() == 0 {
        None
    } else {
        Some(file)
    }
}

/// The rule text of a mode: `WxH@R` with the rate in whole hertz.
pub open spec fn rule_mode(m: Mode) -> Seq<char> {
    dec_nat(m.width as nat) + "x"@ + dec_nat(m.height as nat) + "@"@ + dec_nat(whole_hz(m.refresh))
}

pub open spec fn rule_position(m: Monitor) -> Seq<char> {
    dec_int(m.x as int) + "x"@ + dec_int(m.y as int)
}

/// The rule written for a monitor (an enabled one that mirrors nothing).
pub open spec fn rule_of(m: Monitor, all: Seq<Monitor>, r: MonitorRule) -> bool {
    &&& r.output@ == m.name@
    &&& r.mode@ == rule_mode(m.active_mode)
    &&& r.position@ == rule_position(m)
    &&& r.scale@ == fixed2(m.scale as nat)
    &&& match r.mirror {
        Some(s) => mirror_slave(all, m.name@) == Some(s@),
        None => mirror_slave(all, m.name@) is None,
    }
}

/// The monitors that get a rule: enabled and not mirroring another.
pub open spec fn ruled(ms: Seq<Monitor>) -> Seq<Monitor>
    decreases ms.len(),
{
    if ms.len() == 0 {
        Seq::empty()
    } else if !ms.last().disabled && ms.last().mirror_of is None {
        ruled(ms.drop_last()).push(ms.last())
    } else {
        ruled(ms.drop_last())
    }
}

fn rule_for_monitor(m: &Monitor, all: &Vec<Monitor>) -> (r: MonitorRule)
    ensures
        rule_of(*m, all@, r),
{
    let mut mode = String::new();
    push_dec(&mut mode, m.active_mode.width as u64);
    push_str(&mut mode, "x");
    push_dec(&mut mode, m.active_mode.height as u64);
    push_str(&mut mode, "@");
    push_dec(&mut mode, (m.active_mode.refresh as u64 + 50) / 100);
    assert(mode@ =~= rule_mode(m.active_mode));
    let mut position = String::new();
    push_dec_i64(&mut position, m.x as i64);
    push_str(&mut position, "x");
    push_dec_i64(&mut position, m.y as i64);
    assert(position@ =~= rule_position(*m));
    let mut scale = String::new();
    push_fixed2(&mut scale, m.scale as u64);
    assert(scale@ =~= fixed2(m.scale as nat));
    let mirror = match find_slave(all, &m.name) {
        Some(j) => Some(all[j].name.clone()),
        None => None,
    };
    MonitorRule { output: m.name.clone(), mode, position, scale, mirror }
}

/// Persist the layout as named rules. Mirror slaves are omitted (the mirror
/// is recorded on the source); when nothing is writable the wildcard
/// default is written, so the file is never empty.
pub fn from_monitors(monitors: &Vec<Monitor>) -> (f: MonitorsFile)
    ensures
        ruled(monitors@).len() == 0 ==> f.monitors@.len() == 1 && is_wildcard_default(
            f.monitors@[0],
        ),
        ruled(monitors@).len() > 0 ==> f.monitors@.len() == ruled(monitors@).len() && forall|i: int|
            0 <= i < f.monitors@.len() ==> rule_of(ruled(monitors@)[i], monitors@, #[trigger] f.monitors@[i]),
{
    let mut rules: Vec<MonitorRule> = Vec::new();
    let mut i: usize = 0;
    while i < monitors.len()
        invariant
            i <= monitors.len(),
            rules@.len() == ruled(monitors@.take(i as int)).len(),
            forall|k: int|
                0 <= k < rules@.len() ==> rule_of(
                    ruled(monitors@.take(i as int))[k],
                    monitors@,
                    #[trigger] rules@[k],
                ),
        decreases monitors.len() - i,
    {
        assert(monitors@.take(i + 1).drop_last() =~= monitors@.take(i as int));
        assert(monitors@.take(i + 1).last() == monitors@[i as int]);
        let m = &monitors[i];
        if !m.disabled && m.mirror_of.is_none() {
            let r = rule_for_monitor(m, monitors);
            rules.push(r);
        }
        i = i + 1;
    }
    assert(monitors@.take(i as int) =~= monitors@);
    if rules.len() == 0 {
        MonitorsFile::default()
    } else {
        MonitorsFile { monitors: rules }
    }
}


/// `XxY`, two `i32`s.
pub open spec fn parse_position_spec(s: Seq<char>) -> Option<(i32, i32)> {
    match split_once(s, 'x') {
        Some((a, b)) => match (parse_i32_spec(a), parse_i32_spec(b)) {
            (Some(x), Some(y)) => Some((x, y)),
            _ => None,
        },
        None => None,
    }
}

pub fn parse_position(s: &str) -> (r: Option<(i32, i32)>)
    ensures
        r == parse_position_spec(s@),
{
    let v = chars_of(s);
    let n = v.len();
    assert(v@.subrange(0, n as int) =~= s@);
    match find_char(&v, 0, n, 'x') {
        Some(k) => {
            assert(s@.take(k as int) =~= v@.subrange(0, k as int));
            assert(s@.skip(k + 1) =~= v@.subrange(k + 1, n as int));
            match (parse_i32_in(&v, 0, k), parse_i32_in(&v, k + 1, n)) {
                (Some(x), Some(y)) => Some((x, y)),
                _ => None,
            }
        },
        None => None,
    }
}

/// Index of the first rule whose output is `name`, or -1.
pub open spec fn first_rule_named(rules: Seq<MonitorRule>, name: Seq<char>) -> int
    decreases rules.len(),
{
    if rules.len() == 0 {
        -1
    } else if rules[0].output@ == name {
        0
    } else {
        let r = first_rule_named(rules.drop_first(), name);
        if r < 0 {
            -1
        } else {
            r + 1
        }
    }
}

/// The rule for a monitor: the first naming it, else the first wildcard.
pub open spec fn rule_for(rules: Seq<MonitorRule>, name: Seq<char>) -> Option<MonitorRule> {
    if first_rule_named(rules, name) >= 0 {
        Some(rules[first_rule_named(rules, name)])
    } else if first_rule_named(rules, Seq::empty()) >= 0 {
        Some(rules[first_rule_named(rules, Seq::empty())])
    } else {
        None
    }
}

proof fn lemma_first_rule_named(rules: Seq<MonitorRule>, name: Seq<char>, i: int)
    requires
        0 <= i <= rules.len(),
        forall|j: int| 0 <= j < i ==> (#[trigger] rules[j]).output@ != name,
        i < rules.len() ==> rules[i].output@ == name,
    ensures
        first_rule_named(rules, name) == (if i == rules.len() { -1 } else { i }),
    decreases rules.len(),
{
    if rules.len() > 0 && i > 0 {
        assert forall|j: int| 0 <= j < i - 1 implies (#[trigger] rules.drop_first()[j]).output@ != name by {
            assert(rules.drop_first()[j] == rules[j + 1]);
        }
        lemma_first_rule_named(rules.drop_first(), name, i - 1);
    }
}

fn first_rule_with(rules: &Vec<MonitorRule>, name: &str) -> (r: Option<usize>)
    ensures
        match r {
            Some(j) => j < rules.len() && first_rule_named(rules@, name@) == j,
            None => first_rule_named(rules@, name@) == -1,
        },
{
    let mut i: usize = 0;
    while i < rules.len()
        invariant
            i <= rules.len(),
            forall|j: int| 0 <= j < i ==> (#[trigger] rules@[j]).output@ != name@,
        decreases rules.len() - i,
    {
        if str_eq(rules[i].output.as_str(), name) {
            proof {
                lemma_first_rule_named(rules@, name@, i as int);
            }
            return Some(i);
        }
        i = i + 1;
    }
    proof {
        lemma_first_rule_named(rules@, name@, i as int);
    }
    None
}

/// Finds the rule that applies to the monitor named `name`.
pub fn find_rule(rules: &Vec<MonitorRule>, name: &str) -> (r: Option<usize>)
    ensures
        match r {
            Some(j) => j < rules.len() && rule_for(rules@, name@) == Some(rules@[j as int]),
            None => rule_for(rules@, name@) is None,
        },
{
    match first_rule_with(rules, name) {
        Some(j) => Some(j),
        None => {
            let r = first_rule_with(rules, "");
            proof {
                reveal_strlit("");
                assert(""@ =~= Seq::<char>::empty());
            }
            r
        },
    }
}

/// The mode a rule sets: its text parsed with `Hz` appended, else as is;
/// unchanged when it is `preferred` or does not parse.
pub open spec fn rule_mode_for(m: Mode, r: MonitorRule) -> Mode {
    if r.mode@ == "preferred"@ {
        m
    } else {
        match mode_parse_spec(r.mode@ + "Hz"@) {
            Some(md) => md,
            None => match mode_parse_spec(r.mode@) {
                Some(md) => md,
                None => m,
            },
        }
    }
}

/// Applies a rule's mode, position and scale to a monitor; `preferred` and
/// `auto` leave the live value, as does a value that does not parse or a
/// scale that is not positive.
pub open spec fn with_rule_fields(m: Monitor, r: MonitorRule) -> Monitor {
    let pos = if r.position@ == "auto"@ {
        None
    } else {
        parse_position_spec(r.position@)
    };
    let scale = if r.scale@ == "auto"@ {
        m.scale
    } else {
        match parse_hundredths_spec(r.scale@) {
            Some(v) => if v > 0 {
                v
            } else {
                m.scale
            },
            None => m.scale,
        }
    };
    Monitor {
        active_mode: rule_mode_for(m.active_mode, r),
        x: match pos {
            Some(p) => p.0,
            None => m.x,
        },
        y: match pos {
            Some(p) => p.1,
            None => m.y,
        },
        scale,
        ..m
    }
}

pub fn apply_rule_fields(m: &mut Monitor, rule: &MonitorRule)
    ensures
        *final(m) == with_rule_fields(*old(m), *rule),
{
    if !str_eq(rule.mode.as_str(), "preferred") {
        let mut with_hz = rule.mode.clone();
        push_str(&mut with_hz, "Hz");
        let parsed = match Mode::parse(with_hz.as_str()) {
            Some(md) => Some(md),
            None => Mode::parse(rule.mode.as_str()),
        };
        if let Some(md) = parsed {
            m.active_mode = md;
        }
    }
    if !str_eq(rule.position.as_str(), "auto") {
        if let Some((x, y)) = parse_position(rule.position.as_str()) {
            m.x = x;
            m.y = y;
        }
    }
    if !str_eq(rule.scale.as_str(), "auto") {
        let v = chars_of(rule.scale.as_str());
        assert(v@.subrange(0, v@.len() as int) =~= rule.scale@);
        if let Some(scale) = parse_hundredths_in(&v, 0, v.len()) {
            if scale > 0 {
                m.scale = scale;
            }
        }
    }
}


/// Some rule names an output: the file is a full layout.
pub open spec fn has_specific(rules: Seq<MonitorRule>) -> bool {
    exists|i: int| 0 <= i < rules.len() && (#[trigger] rules[i]).output@.len() > 0
}

/// Index of the first monitor named `name`, or -1.
pub open spec fn first_named(ms: Seq<Monitor>, name: Seq<char>) -> int
    decreases ms.len(),
{
    if ms.len() == 0 {
        -1
    } else if ms[0].name@ == name {
        0
    } else {
        let r = first_named(ms.drop_first(), name);
        if r < 0 {
            -1
        } else {
            r + 1
        }
    }
}

pub proof fn lemma_first_named(ms: Seq<Monitor>, name: Seq<char>, i: int)
    requires
        0 <= i <= ms.len(),
        forall|j: int| 0 <= j < i ==> (#[trigger] ms[j]).name@ != name,
        i < ms.len() ==> ms[i].name@ == name,
    ensures
        first_named(ms, name) == (if i == ms.len() { -1 } else { i }),
    decreases ms.len(),
{
    if ms.len() > 0 && i > 0 {
        assert forall|j: int| 0 <= j < i - 1 implies (#[trigger] ms.drop_first()[j]).name@ != name by {
            assert(ms.drop_first()[j] == ms[j + 1]);
        }
        lemma_first_named(ms.drop_first(), name, i - 1);
    }
}

pub open spec fn without_mirrors(ms: Seq<Monitor>) -> Seq<Monitor> {
    ms.map_values(|m: Monitor| Monitor { mirror_of: None, ..m })
}

/// Applies the mirror pairs of the first `k` rules: the first monitor named
/// by a rule's non-empty `mirror` mirrors the rule's (non-empty) output.
pub open spec fn mirror_rules(rules: Seq<MonitorRule>, ms: Seq<Monitor>, k: int) -> Seq<Monitor>
    decreases k,
{
    if k <= 0 {
        ms
    } else {
        let p = mirror_rules(rules, ms, k - 1);
        let r = rules[k - 1];
        match r.mirror {
            Some(sn) => if sn@.len() > 0 && r.output@.len() > 0 && first_named(p, sn@) >= 0 {
                p.update(
                    first_named(p, sn@),
                    Monitor { mirror_of: Some(r.output), ..p[first_named(p, sn@)] },
                )
            } else {
                p
            },
            None => p,
        }
    }
}

/// Mirrors after the overlay: a full layout replaces the live mirrors with
/// its own; a wildcard-only file keeps them.
pub open spec fn overlay_mirrors(rules: Seq<MonitorRule>, ms: Seq<Monitor>) -> Seq<Monitor> {
    if has_specific(rules) {
        mirror_rules(rules, without_mirrors(ms), rules.len() as int)
    } else {
        ms
    }
}

/// The monitors after overlaying the rules.
pub open spec fn overlay(rules: Seq<MonitorRule>, ms: Seq<Monitor>) -> Seq<Monitor> {
    let p = overlay_mirrors(rules, ms);
    Seq::new(
        p.len(),
        |i: int|
            match rule_for(rules, p[i].name@) {
                Some(r) => with_rule_fields(p[i], r),
                None => p[i],
            },
    )
}

/// The first monitor named `name`.
pub fn find_named(ms: &Vec<Monitor>, name: &str) -> (r: Option<usize>)
    ensures
        match r {
            Some(j) => j < ms.len() && first_named(ms@, name@) == j,
            None => first_named(ms@, name@) == -1,
        },
{
    let mut i: usize = 0;
    while i < ms.len()
        invariant
            i <= ms.len(),
            forall|j: int| 0 <= j < i ==> (#[trigger] ms@[j]).name@ != name@,
        decreases ms.len() - i,
    {
        if str_eq(ms[i].name.as_str(), name) {
            proof {
                lemma_first_named(ms@, name@, i as int);
            }
            return Some(i);
        }
        i = i + 1;
    }
    proof {
        lemma_first_named(ms@, name@, i as int);
    }
    None
}

/// Overlay persisted rules onto live monitors (matched by name; an empty
/// `output` is the wildcard fallback).
pub fn apply_to_monitors(file: &MonitorsFile, monitors: &mut Vec<Monitor>)
    ensures
        final(monitors)@ == overlay(file.monitors@, old(monitors)@),
{
    let rules = &file.monitors;
    let mut specific = false;
    let mut k: usize = 0;
    while k < rules.len()
        invariant
            k <= rules.len(),
            specific == exists|i: int| 0 <= i < k && (#[trigger] rules@[i]).output@.len() > 0,
        decreases rules.len() - k,
    {
        if rules[k].output.as_str().unicode_len() > 0 {
            specific = true;
        }
        k = k + 1;
    }
    let ghost orig = monitors@;
    if specific {
        let mut i: usize = 0;
        while i < monitors.len()
            invariant
                i <= monitors.len() == orig.len(),
                forall|j: int| 0 <= j < i ==> #[trigger] monitors@[j] == without_mirrors(orig)[j],
                forall|j: int| i <= j < monitors.len() ==> #[trigger] monitors@[j] == orig[j],
            decreases monitors.len() - i,
        {
            monitors[i].mirror_of = None;
            i = i + 1;
        }
        assert(monitors@ =~= without_mirrors(orig));
        let ghost cleared = monitors@;
        let mut r: usize = 0;
        while r < rules.len()
            invariant
                r <= rules.len(),
                monitors@ == mirror_rules(rules@, cleared, r as int),
            decreases rules.len() - r,
        {
            let rule = &rules[r];
            match &rule.mirror {
                Some(slave_name) => {
                    if slave_name.as_str().unicode_len() > 0 && rule.output.as_str().unicode_len()
                        > 0 {
                        match find_named(monitors, slave_name.as_str()) {
                            Some(j) => {
                                monitors[j].mirror_of = Some(rule.output.clone());
                            },
                            None => {},
                        }
                    }
                },
                None => {},
            }
            r = r + 1;
        }
    }
    let ghost mid = monitors@;
    assert(mid == overlay_mirrors(file.monitors@, orig));
    let mut i: usize = 0;
    while i < monitors.len()
        invariant
            i <= monitors.len() == mid.len(),
            mid == overlay_mirrors(file.monitors@, orig),
            rules == &file.monitors,
            forall|j: int| 0 <= j < i ==> #[trigger] monitors@[j] == overlay(file.monitors@, orig)[j],
            forall|j: int| i <= j < monitors.len() ==> #[trigger] monitors@[j] == mid[j],
        decreases monitors.len() - i,
    {
        match find_rule(rules, monitors[i].name.as_str()) {
            Some(j) => {
                apply_rule_fields(&mut monitors[i], &rules[j]);
            },
            None => {},
        }
        i = i + 1;
    }
    assert(monitors@ =~= overlay(file.monitors@, orig));
}


proof fn lemma_position_parses(m: Monitor)
    ensures
        parse_position_spec(rule_position(m)) == Some((m.x, m.y)),
{
    let a = dec_int(m.x as int);
    let b = dec_int(m.y as int);
    let p = rule_position(m);
    reveal_strlit("x");
    assert(p =~= a + seq!['x'] + b);
    if m.x < 0 {
        lemma_dec_nat((-m.x) as nat);
    } else {
        lemma_dec_nat(m.x as nat);
    }
    assert forall|j: int| 0 <= j < a.len() implies p[j] != 'x' by {
        assert(p[j] == a[j]);
        if m.x < 0 {
            if j > 0 {
                assert(a[j] == dec_nat((-m.x) as nat)[j - 1]);
                assert(is_digit(dec_nat((-m.x) as nat)[j - 1]));
            }
        } else {
            assert(is_digit(dec_nat(m.x as nat)[j]));
        }
    }
    lemma_first_index(p, 'x', a.len() as int);
    assert(p.take(a.len() as int) =~= a);
    assert(p.skip(a.len() as int + 1) =~= b);
    lemma_parse_dec_i32(m.x);
    lemma_parse_dec_i32(m.y);
}

proof fn lemma_rule_mode_parses(md: Mode)
    requires
        whole_hz(md.refresh) * 100 <= u32::MAX,
    ensures
        mode_parse_spec(rule_mode(md) + "Hz"@) == Some(
            Mode { width: md.width, height: md.height, refresh: (whole_hz(md.refresh) * 100) as u32 },
        ),
{
    let a = dec_nat(md.width as nat);
    let b = dec_nat(md.height as nat);
    let c = dec_nat(whole_hz(md.refresh));
    lemma_dec_nat(md.width as nat);
    lemma_dec_nat(md.height as nat);
    lemma_dec_nat(whole_hz(md.refresh));
    reveal_strlit("x");
    reveal_strlit("@");
    reveal_strlit("Hz");
    let t = rule_mode(md);
    assert(t =~= a + seq!['x'] + b + seq!['@'] + c);
    let th = t + "Hz"@;
    assert(th.take(th.len() - 2) =~= t);
    assert(is_digit(t.last()));
    assert(t[t.len() - 1] == t.last());
    assert(trim_hz(t) == t);
    assert(trim_hz(th) == trim_hz(th.take(th.len() - 2)));
    assert(trim_hz(th) == t);
    let at = a.len() + 1 + b.len();
    assert forall|j: int| 0 <= j < at implies t[j] != '@' by {
        if j < a.len() {
            assert(t[j] == a[j]);
            assert(is_digit(a[j]));
        } else if j > a.len() {
            assert(t[j] == b[j - a.len() - 1]);
            assert(is_digit(b[j - a.len() - 1]));
        }
    }
    lemma_first_index(t, '@', at as int);
    let res = t.take(at as int);
    assert(res =~= a + seq!['x'] + b);
    assert(t.skip(at as int + 1) =~= c);
    assert forall|j: int| 0 <= j < a.len() implies res[j] != 'x' by {
        assert(res[j] == a[j]);
        assert(is_digit(a[j]));
    }
    lemma_first_index(res, 'x', a.len() as int);
    assert(res.take(a.len() as int) =~= a);
    assert(res.skip(a.len() as int + 1) =~= b);
    lemma_parse_dec_u32(md.width);
    lemma_parse_dec_u32(md.height);
    lemma_parse_dec_hundredths(whole_hz(md.refresh));
}

/// Every monitor of `ms` has a different name.
pub open spec fn names_unique(ms: Seq<Monitor>) -> bool {
    forall|i: int, j: int| 0 <= i < j < ms.len() ==> (#[trigger] ms[i]).name@ != (#[trigger] ms[j]).name@
}

pub open spec fn gets_rule(m: Monitor) -> bool {
    !m.disabled && m.mirror_of is None
}

/// Position of monitor `i` among the monitors that get a rule.
pub open spec fn ruled_pos(ms: Seq<Monitor>, i: int) -> int {
    ruled(ms.take(i)).len() as int
}

proof fn lemma_ruled_step(ms: Seq<Monitor>, j: int)
    requires
        0 <= j < ms.len(),
    ensures
        ruled(ms.take(j + 1)) == (if gets_rule(ms[j]) {
            ruled(ms.take(j)).push(ms[j])
        } else {
            ruled(ms.take(j))
        }),
{
    assert(ms.take(j + 1).drop_last() =~= ms.take(j));
    assert(ms.take(j + 1).last() == ms[j]);
}

proof fn lemma_ruled_monotone(ms: Seq<Monitor>, i: int, j: int)
    requires
        0 <= i < j <= ms.len(),
    ensures
        ruled_pos(ms, i) <= ruled_pos(ms, j),
        gets_rule(ms[i]) ==> ruled_pos(ms, i) < ruled_pos(ms, j),
    decreases j - i,
{
    lemma_ruled_step(ms, j - 1);
    if i < j - 1 {
        lemma_ruled_monotone(ms, i, j - 1);
    }
}

proof fn lemma_ruled_at(ms: Seq<Monitor>, i: int, j: int)
    requires
        0 <= i < j <= ms.len(),
        gets_rule(ms[i]),
    ensures
        ruled_pos(ms, i) < ruled(ms.take(j)).len(),
        ruled(ms.take(j))[ruled_pos(ms, i)] == ms[i],
    decreases j - i,
{
    lemma_ruled_step(ms, j - 1);
    if i < j - 1 {
        lemma_ruled_at(ms, i, j - 1);
    }
}

proof fn lemma_ruled_origin(ms: Seq<Monitor>, k: int, j: int)
    requires
        0 <= j <= ms.len(),
        0 <= k < ruled(ms.take(j)).len(),
    ensures
        exists|i: int|
            0 <= i < j && gets_rule(ms[i]) && ruled_pos(ms, i) == k && ruled(ms.take(j))[k] == ms[i],
    decreases j,
{
    if j > 0 {
        lemma_ruled_step(ms, j - 1);
        if k < ruled(ms.take(j - 1)).len() {
            lemma_ruled_origin(ms, k, j - 1);
            let i = choose|i: int|
                0 <= i < j - 1 && gets_rule(ms[i]) && ruled_pos(ms, i) == k && ruled(ms.take(j - 1))[k]
                    == ms[i];
            assert(ruled(ms.take(j))[k] == ms[i]);
        } else {
            assert(ruled_pos(ms, j - 1) == k);
        }
    } else {
        assert(ms.take(0) =~= Seq::<Monitor>::empty());
    }
}

/// The overlay's mirror phase touches nothing but `mirror_of`.
proof fn lemma_mirror_phase_keeps(rules: Seq<MonitorRule>, ms: Seq<Monitor>, k: int)
    requires
        0 <= k <= rules.len(),
    ensures
        mirror_rules(rules, ms, k).len() == ms.len(),
        forall|i: int|
            0 <= i < ms.len() ==> #[trigger] mirror_rules(rules, ms, k)[i] == (Monitor {
                mirror_of: mirror_rules(rules, ms, k)[i].mirror_of,
                ..ms[i]
            }),
    decreases k,
{
    if k > 0 {
        lemma_mirror_phase_keeps(rules, ms, k - 1);
        let p = mirror_rules(rules, ms, k - 1);
        let r = rules[k - 1];
        match r.mirror {
            Some(sn) => {
                if sn@.len() > 0 && r.output@.len() > 0 && first_named(p, sn@) >= 0 {
                    let j = first_named(p, sn@);
                    lemma_first_named_bounds(p, sn@);
                    let q = p.update(j, Monitor { mirror_of: Some(r.output), ..p[j] });
                    assert(mirror_rules(rules, ms, k) == q);
                    assert forall|i: int| 0 <= i < ms.len() implies #[trigger] q[i] == (Monitor {
                        mirror_of: q[i].mirror_of,
                        ..ms[i]
                    }) by {
                        assert(p[i] == (Monitor { mirror_of: p[i].mirror_of, ..ms[i] }));
                    }
                }
            },
            None => {},
        }
    }
}

proof fn lemma_first_named_bounds(ms: Seq<Monitor>, name: Seq<char>)
    ensures
        first_named(ms, name) < ms.len(),
    decreases ms.len(),
{
    if ms.len() > 0 {
        lemma_first_named_bounds(ms.drop_first(), name);
    }
}

/// What a save writes, a load restores: overlaying the rules written for a
/// layout (names all different) back onto it gives each ruled monitor its
/// position, scale and size again, with the rate rounded to whole hertz.
pub proof fn law_store_roundtrip(ms: Seq<Monitor>, rules: Seq<MonitorRule>, i: int)
    requires
        0 <= i < ms.len(),
        gets_rule(ms[i]),
        names_unique(ms),
        whole_hz(ms[i].active_mode.refresh) * 100 <= u32::MAX,
        rules.len() == ruled(ms).len(),
        forall|k: int| 0 <= k < rules.len() ==> rule_of(ruled(ms)[k], ms, #[trigger] rules[k]),
    ensures
        overlay(rules, ms)[i].name == ms[i].name,
        overlay(rules, ms)[i].x == ms[i].x,
        overlay(rules, ms)[i].y == ms[i].y,
        overlay(rules, ms)[i].scale == ms[i].scale,
        overlay(rules, ms)[i].active_mode == (Mode {
            width: ms[i].active_mode.width,
            height: ms[i].active_mode.height,
            refresh: (whole_hz(ms[i].active_mode.refresh) * 100) as u32,
        }),
{
    assert(ms.take(ms.len() as int) =~= ms);
    lemma_ruled_at(ms, i, ms.len() as int);
    let k = ruled_pos(ms, i);
    let m = ms[i];
    let r = rules[k];
    assert(rule_of(ruled(ms)[k], ms, r));
    assert(ruled(ms)[k] == m);
    assert forall|k2: int| 0 <= k2 < k implies (#[trigger] rules[k2]).output@ != m.name@ by {
        assert(rule_of(ruled(ms)[k2], ms, rules[k2]));
        lemma_ruled_origin(ms, k2, ms.len() as int);
        let i2 = choose|i2: int|
            0 <= i2 < ms.len() && gets_rule(ms[i2]) && ruled_pos(ms, i2) == k2 && ruled(
                ms.take(ms.len() as int),
            )[k2] == ms[i2];
        if i2 >= i {
            if i2 > i {
                lemma_ruled_monotone(ms, i, i2);
            }
        } else {
            assert(ms[i2].name@ != ms[i].name@);
        }
    }
    lemma_first_rule_named(rules, m.name@, k);
    lemma_mirror_phase_keeps(rules, without_mirrors(ms), rules.len() as int);
    let p = overlay_mirrors(rules, ms);
    assert(p[i].name == m.name && p[i].x == m.x && p[i].y == m.y && p[i].scale == m.scale
        && p[i].active_mode == m.active_mode);
    assert(rule_for(rules, p[i].name@) == Some(r));
    lemma_position_parses(m);
    lemma_rule_mode_parses(m.active_mode);
    lemma_parse_fixed2(m.scale);
    reveal_strlit("auto");
    reveal_strlit("preferred");
    lemma_dec_nat(m.active_mode.width as nat);
    assert(is_digit(r.mode@[0]));
    assert(r.mode@ != "preferred"@);
    lemma_dec_nat((m.scale / 100) as nat);
    assert(is_digit(r.scale@[0]));
    assert(r.scale@ != "auto"@);
    if m.x < 0 {
        assert(r.position@[0] == '-');
    } else {
        lemma_dec_nat(m.x as nat);
        assert(is_digit(r.position@[0]));
    }
    assert(r.position@ != "auto"@);
}


/// Overlaying a wildcard-only default file changes nothing: geometry, modes
/// and mirrors stay live.
pub proof fn law_wildcard_overlay_keeps(rules: Seq<MonitorRule>, ms: Seq<Monitor>)
    requires
        rules.len() == 1,
        is_wildcard_default(rules[0]),
    ensures
        overlay(rules, ms) == ms,
{
    assert(!has_specific(rules));
    assert forall|i: int| 0 <= i < ms.len() implies #[trigger] overlay(rules, ms)[i] == ms[i] by {
        let name = ms[i].name@;
        if name.len() == 0 {
            assert(name =~= rules[0].output@);
            assert(first_rule_named(rules, name) == 0);
        } else {
            assert(rules.drop_first().len() == 0);
            assert(first_rule_named(rules.drop_first(), name) == -1);
            assert(rules[0].output@.len() != name.len());
            assert(first_rule_named(rules, name) == -1);
            assert(first_rule_named(rules, Seq::empty()) == 0);
        }
        assert(rule_for(rules, name) == Some(rules[0]));
        assert(with_rule_fields(ms[i], rules[0]) == ms[i]);
    }
    assert(overlay(rules, ms) =~= ms);
}


/// The index that `first_named` finds holds a monitor of that name.
proof fn lemma_first_named_found(ms: Seq<Monitor>, name: Seq<char>)
    ensures
        first_named(ms, name) < ms.len(),
        first_named(ms, name) >= 0 ==> ms[first_named(ms, name)].name@ == name,
    decreases ms.len(),
{
    if ms.len() > 0 && ms[0].name@ != name {
        lemma_first_named_found(ms.drop_first(), name);
    }
}

/// Applying mirror pairs keeps the names and the count, and leaves alone a
/// monitor that no rule's non-empty `mirror` names.
proof fn lemma_mirror_rules_spare(rules: Seq<MonitorRule>, base: Seq<Monitor>, k: int, i: int)
    requires
        0 <= k <= rules.len(),
        0 <= i < base.len(),
        forall|r: int|
            0 <= r < rules.len() ==> !((#[trigger] rules[r]).mirror matches Some(sn) && sn@.len()
                > 0 && sn@ == base[i].name@),
    ensures
        mirror_rules(rules, base, k).len() == base.len(),
        forall|j: int|
            0 <= j < base.len() ==> (#[trigger] mirror_rules(rules, base, k)[j]).name
                == base[j].name,
        mirror_rules(rules, base, k)[i] == base[i],
    decreases k,
{
    if k > 0 {
        lemma_mirror_rules_spare(rules, base, k - 1, i);
        let p = mirror_rules(rules, base, k - 1);
        let r = rules[k - 1];
        match r.mirror {
            Some(sn) => {
                lemma_first_named_found(p, sn@);
                if sn@.len() > 0 && r.output@.len() > 0 && first_named(p, sn@) >= 0 {
                    assert(p[first_named(p, sn@)].name == base[first_named(p, sn@)].name);
                    assert(first_named(p, sn@) != i);
                }
            },
            None => {},
        }
    }
}

/// A file that names at least one output is a full layout: it replaces the
/// live mirrors. After the overlay, a monitor that no rule's non-empty
/// `mirror` names mirrors nothing, whatever it mirrored before.
pub proof fn law_full_layout_clears_mirrors(rules: Seq<MonitorRule>, ms: Seq<Monitor>, i: int)
    requires
        exists|r: int| 0 <= r < rules.len() && (#[trigger] rules[r]).output@.len() > 0,
        0 <= i < ms.len(),
        forall|r: int|
            0 <= r < rules.len() ==> !((#[trigger] rules[r]).mirror matches Some(sn) && sn@.len()
                > 0 && sn@ == ms[i].name@),
    ensures
        overlay(rules, ms).len() == ms.len(),
        overlay(rules, ms)[i].name == ms[i].name,
        overlay(rules, ms)[i].mirror_of is None,
{
    let base = without_mirrors(ms);
    assert(base[i].name == ms[i].name);
    assert(base[i].mirror_of is None);
    lemma_mirror_rules_spare(rules, base, rules.len() as int, i);
    let p = overlay_mirrors(rules, ms);
    assert(p[i] == base[i]);
    match rule_for(rules, p[i].name@) {
        Some(r) => {
            assert(with_rule_fields(p[i], r).mirror_of == p[i].mirror_of);
        },
        None => {},
    }
}

} // verus!
