//! Named profiles: snapshots of the monitor settings, and the timestamps
//! they carry.
use vstd::prelude::*;

use crate::monitor::{
    law_mode_compact_roundtrip, mode_compact, mode_parse_spec, transform_code, transform_from_code,
    Mode, Monitor, Transform,
};
use crate::store::{find_named, first_named, lemma_first_named, names_unique};
use crate::text::{chars_of, dec_nat, push_padded, push_str, str_eq, string_of, zero_pad};

verus! {

/// One monitor's settings in a profile. `scale` is in hundredths; an empty
/// `mirror_of` means no mirror.
#[derive(Debug, Clone)]
pub struct ProfileMonitor {
    pub name: String,
    pub mode: String,
    pub x: i32,
    pub y: i32,
    pub scale: u32,
    pub transform: u8,
    pub vrr: bool,
    pub dpms: bool,
    pub mirror_of: String,
}

#[derive(Debug, Clone)]
pub struct ProfileMeta {
    pub name: String,
    pub created: String,
}

#[derive(Debug, Clone)]
pub struct Profile {
    pub profile: ProfileMeta,
    pub monitors: Vec<ProfileMonitor>,
}

/// Floor of `a / b` for a positive `b`, as the civil-date algorithm needs.
pub open spec fn floor_div(a: int, b: int) -> int {
    a / b
}

/// Days since 1970-01-01 to a (year, month, day) civil date (Hinnant's
/// days-from-civil inverse).
pub open spec fn civil_date(z: int) -> (int, int, int) {
    let z2 = z + 719_468;
    let era = floor_div(z2, 146_097);
    let doe = z2 - era * 146_097;
    let yoe = (doe - doe / 1460 + doe / 36_524 - doe / 146_096) / 365;
    let y = yoe + era * 400;
    let doy = doe - (365 * yoe + yoe / 4 - yoe / 100);
    let mp = (5 * doy + 2) / 153;
    let d = doy - (153 * mp + 2) / 5 + 1;
    let m = if mp < 10 {
        mp + 3
    } else {
        mp - 9
    };
    (if m <= 2 {
        y + 1
    } else {
        y
    }, m, d)
}

/// Convert days since 1970-01-01 to a (year, month, day) civil date.
pub fn civil_from_days(z: i64) -> (r: (i64, u32, u32))
    requires
        z + 719_468 <= i64::MAX,
    ensures
        r.0 == civil_date(z as int).0,
        r.1 == civil_date(z as int).1,
        r.2 == civil_date(z as int).2,
{
    let z2: i64 = z + 719_468;
    let era: i64 = if z2 >= 0 {
        z2 / 146_097
    } else {
        let n: i64 = -z2;
        let q: i64 = (n + 146_096) / 146_097;
        -q
    };
    proof {
        if z2 < 0 {
            let n = -z2;
            assert((n + 146_096) / 146_097 == -(z2 / 146_097)) by (nonlinear_arith)
                requires
                    n == -z2,
                    z2 < 0,
            ;
        }
    }
    assert(era == floor_div(z2 as int, 146_097));
    let doe: u64 = (z2 - era * 146_097) as u64;
    assert(0 <= doe < 146_097);
    let yoe: u64 = (doe - doe / 1460 + doe / 36_524 - doe / 146_096) / 365;
    let y: i64 = yoe as i64 + era * 400;
    let doy: u64 = doe - (365 * yoe + yoe / 4 - yoe / 100);
    let mp: u64 = (5 * doy + 2) / 153;
    let d: u32 = (doy - (153 * mp + 2) / 5 + 1) as u32;
    let m: u32 = if mp < 10 {
        (mp + 3) as u32
    } else {
        (mp - 9) as u32
    };
    (if m <= 2 {
        y + 1
    } else {
        y
    }, m, d)
}

/// Seconds within the day -> (hours, minutes, seconds).
pub fn secs_of_day(secs: u64) -> (r: (u32, u32, u32))
    ensures
        r.0 == (secs / 3600) % 24,
        r.1 == (secs / 60) % 60,
        r.2 == secs % 60,
{
    (((secs / 3600) % 24) as u32, ((secs / 60) % 60) as u32, (secs % 60) as u32)
}


/// `YYYY-MM-DDTHH:MM:SSZ` for a count of seconds since the Unix epoch (UTC).
pub open spec fn iso_timestamp(secs: nat) -> Seq<char> {
    let day_secs = secs % 86_400;
    let h = (day_secs / 3600) % 24;
    let mi = (day_secs / 60) % 60;
    let s = day_secs % 60;
    let date = civil_date((secs / 86_400) as int);
    zero_pad(dec_nat(date.0 as nat), 4) + "-"@ + zero_pad(dec_nat(date.1 as nat), 2) + "-"@
        + zero_pad(dec_nat(date.2 as nat), 2) + "T"@ + zero_pad(dec_nat(h), 2) + ":"@ + zero_pad(
        dec_nat(mi),
        2,
    ) + ":"@ + zero_pad(dec_nat(s), 2) + "Z"@
}

proof fn lemma_civil_date_nonneg(z: int)
    requires
        z >= 0,
    ensures
        civil_date(z).0 >= 0,
        civil_date(z).1 >= 0,
        civil_date(z).2 >= 0,
{
}

/// Formats an instant as an ISO 8601 UTC timestamp.
pub fn format_timestamp(secs: u64) -> (s: String)
    ensures
        s@ == iso_timestamp(secs as nat),
{
    let (h, mi, sec) = secs_of_day(secs % 86_400);
    let days: i64 = (secs / 86_400) as i64;
    proof {
        lemma_civil_date_nonneg(days as int);
    }
    let (y, mo, d) = civil_from_days(days);
    let mut s = String::new();
    push_padded(&mut s, y as u64, 4);
    push_str(&mut s, "-");
    push_padded(&mut s, mo as u64, 2);
    push_str(&mut s, "-");
    push_padded(&mut s, d as u64, 2);
    push_str(&mut s, "T");
    push_padded(&mut s, h as u64, 2);
    push_str(&mut s, ":");
    push_padded(&mut s, mi as u64, 2);
    push_str(&mut s, ":");
    push_padded(&mut s, sec as u64, 2);
    push_str(&mut s, "Z");
    assert(s@ =~= iso_timestamp(secs as nat));
    s
}

/// Seconds since the Unix epoch by the system clock
/// (`SystemTime::now().duration_since(UNIX_EPOCH)`), 0 when the clock reads
/// before the epoch. Nothing is claimed of the value: it is the time.
#[verifier::external_body]
pub(crate) fn unix_time_secs() -> u64 {
    std::time::SystemTime::now().duration_since(std::time::UNIX_EPOCH).map(|d| d.as_secs()).unwrap_or(0)
}

/// The current time as an ISO 8601 UTC timestamp.
pub fn chrono_now() -> (s: String)
    ensures
        exists|t: u64| s@ == iso_timestamp(t as nat),
{
    let t = unix_time_secs();
    format_timestamp(t)
}


/// The profile entry recorded for a monitor.
pub open spec fn snapshot_of(m: Monitor, pm: ProfileMonitor) -> bool {
    &&& pm.name == m.name
    &&& pm.mode@ == mode_compact(m.active_mode)
    &&& pm.x == m.x
    &&& pm.y == m.y
    &&& pm.scale == m.scale
    &&& pm.transform == transform_code(m.transform)
    &&& pm.vrr == m.vrr
    &&& pm.dpms == m.dpms
    &&& match m.mirror_of {
        Some(s) => pm.mirror_of == s,
        None => pm.mirror_of@.len() == 0,
    }
}

fn snapshot(m: &Monitor) -> (pm: ProfileMonitor)
    ensures
        snapshot_of(*m, pm),
{
    ProfileMonitor {
        name: m.name.clone(),
        mode: m.active_mode.compact(),
        x: m.x,
        y: m.y,
        scale: m.scale,
        transform: m.transform.as_u8(),
        vrr: m.vrr,
        dpms: m.dpms,
        mirror_of: match &m.mirror_of {
            Some(s) => s.clone(),
            None => String::new(),
        },
    }
}

/// A profile named `name` holding every monitor's settings, stamped now.
pub fn from_monitors(name: &str, monitors: &Vec<Monitor>) -> (p: Profile)
    ensures
        p.profile.name@ == name@,
        exists|t: u64| p.profile.created@ == iso_timestamp(t as nat),
        p.monitors@.len() == monitors@.len(),
        forall|i: int| 0 <= i < monitors@.len() ==> snapshot_of(monitors@[i], #[trigger] p.monitors@[i]),
{
    let mut out: Vec<ProfileMonitor> = Vec::new();
    let mut i: usize = 0;
    while i < monitors.len()
        invariant
            i <= monitors.len(),
            out@.len() == i,
            forall|k: int| 0 <= k < i ==> snapshot_of(monitors@[k], #[trigger] out@[k]),
        decreases monitors.len() - i,
    {
        out.push(snapshot(&monitors[i]));
        i = i + 1;
    }
    Profile {
        profile: ProfileMeta { name: String::from_str(name), created: chrono_now() },
        monitors: out,
    }
}

/// A monitor with a profile entry's settings applied.
pub open spec fn with_profile(m: Monitor, pm: ProfileMonitor) -> Monitor {
    Monitor {
        active_mode: match mode_parse_spec(pm.mode@ + "Hz"@) {
            Some(md) => md,
            None => m.active_mode,
        },
        x: pm.x,
        y: pm.y,
        scale: pm.scale,
        transform: transform_from_code(pm.transform),
        vrr: pm.vrr,
        dpms: pm.dpms,
        mirror_of: if pm.mirror_of@.len() == 0 {
            None
        } else {
            Some(pm.mirror_of)
        },
        ..m
    }
}

/// The monitors after the first `k` profile entries are applied, each to
/// the first monitor of its name.
pub open spec fn apply_profile(pms: Seq<ProfileMonitor>, ms: Seq<Monitor>, k: int) -> Seq<Monitor>
    decreases k,
{
    if k <= 0 {
        ms
    } else {
        let p = apply_profile(pms, ms, k - 1);
        let pm = pms[k - 1];
        if first_named(p, pm.name@) >= 0 {
            p.update(first_named(p, pm.name@), with_profile(p[first_named(p, pm.name@)], pm))
        } else {
            p
        }
    }
}

/// Apply a profile's settings onto the live monitors (matched by name).
/// Monitors not in the profile are left unchanged.
pub fn apply_to_monitors(profile: &Profile, monitors: &mut Vec<Monitor>)
    ensures
        final(monitors)@ == apply_profile(profile.monitors@, old(monitors)@, profile.monitors@.len() as int),
{
    let ghost orig = monitors@;
    let mut k: usize = 0;
    while k < profile.monitors.len()
        invariant
            k <= profile.monitors.len(),
            monitors@ == apply_profile(profile.monitors@, orig, k as int),
        decreases profile.monitors.len() - k,
    {
        let pm = &profile.monitors[k];
        match find_named(monitors, pm.name.as_str()) {
            Some(j) => {
                let mut with_hz = pm.mode.clone();
                push_str(&mut with_hz, "Hz");
                if let Some(md) = Mode::parse(with_hz.as_str()) {
                    monitors[j].active_mode = md;
                }
                monitors[j].x = pm.x;
                monitors[j].y = pm.y;
                monitors[j].scale = pm.scale;
                monitors[j].transform = Transform::from_u8(pm.transform);
                monitors[j].vrr = pm.vrr;
                monitors[j].dpms = pm.dpms;
                monitors[j].mirror_of = if pm.mirror_of.as_str().unicode_len() == 0 {
                    None
                } else {
                    Some(pm.mirror_of.clone())
                };
            },
            None => {},
        }
        k = k + 1;
    }
}


proof fn lemma_apply_profile_steps(pms: Seq<ProfileMonitor>, ms: Seq<Monitor>, k: int)
    requires
        0 <= k <= ms.len(),
        pms.len() == ms.len(),
        names_unique(ms),
        forall|j: int| 0 <= j < ms.len() ==> (#[trigger] pms[j]).name == ms[j].name,
    ensures
        apply_profile(pms, ms, k).len() == ms.len(),
        forall|j: int| 0 <= j < k ==> #[trigger] apply_profile(pms, ms, k)[j] == with_profile(ms[j], pms[j]),
        forall|j: int| k <= j < ms.len() ==> #[trigger] apply_profile(pms, ms, k)[j] == ms[j],
    decreases k,
{
    if k > 0 {
        lemma_apply_profile_steps(pms, ms, k - 1);
        let p = apply_profile(pms, ms, k - 1);
        assert forall|j: int| 0 <= j < k - 1 implies (#[trigger] p[j]).name@ != pms[k - 1].name@ by {
            assert(p[j].name == ms[j].name);
            assert(ms[j].name@ != ms[k - 1].name@);
        }
        assert(p[k - 1] == ms[k - 1]);
        lemma_first_named(p, pms[k - 1].name@, k - 1);
    }
}

/// Restoring a profile gives every monitor back the settings it was saved
/// with, when monitor names are all different (a mirror source recorded
/// as an empty name reads back as no mirror).
pub proof fn law_profile_roundtrip(ms: Seq<Monitor>, pms: Seq<ProfileMonitor>, i: int)
    requires
        names_unique(ms),
        pms.len() == ms.len(),
        forall|j: int| 0 <= j < ms.len() ==> snapshot_of(ms[j], #[trigger] pms[j]),
        0 <= i < ms.len(),
        ms[i].mirror_of matches Some(s) ==> s@.len() > 0,
    ensures
        apply_profile(pms, ms, pms.len() as int)[i] == ms[i],
{
    assert forall|j: int| 0 <= j < ms.len() implies (#[trigger] pms[j]).name == ms[j].name by {
        assert(snapshot_of(ms[j], pms[j]));
    }
    lemma_apply_profile_steps(pms, ms, ms.len() as int);
    let m = ms[i];
    let pm = pms[i];
    assert(snapshot_of(m, pm));
    law_mode_compact_roundtrip(m.active_mode);
    assert(pm.mode@ + "Hz"@ == mode_compact(m.active_mode) + "Hz"@);
    assert(transform_from_code(transform_code(m.transform)) == m.transform);
    assert(with_profile(m, pm) == m);
}


/// Index of the last `c` in `s`, or -1.
pub open spec fn last_index(s: Seq<char>, c: char) -> int
    decreases s.len(),
{
    if s.len() == 0 {
        -1
    } else if s.last() == c {
        s.len() - 1
    } else {
        last_index(s.drop_last(), c)
    }
}

/// The stem of a file name whose extension is `toml` (`Path::file_stem` /
/// `Path::extension`: the extension follows the last dot, unless that dot
/// starts the name).
pub open spec fn toml_stem(name: Seq<char>) -> Option<Seq<char>> {
    let d = last_index(name, '.');
    if d > 0 && name.skip(d + 1) == "toml"@ {
        Some(name.take(d))
    } else {
        None
    }
}

/// `a` sorts strictly before `b`, character by character.
pub open spec fn lex_lt(a: Seq<char>, b: Seq<char>) -> bool
    decreases a.len(),
{
    if a.len() == 0 {
        b.len() > 0
    } else if b.len() == 0 {
        false
    } else if a[0] != b[0] {
        (a[0] as u32) < (b[0] as u32)
    } else {
        lex_lt(a.drop_first(), b.drop_first())
    }
}

pub open spec fn insert_name(s: Seq<Seq<char>>, x: Seq<char>) -> Seq<Seq<char>>
    decreases s.len(),
{
    if s.len() == 0 {
        seq![x]
    } else if lex_lt(x, s[0]) {
        seq![x] + s
    } else {
        seq![s[0]] + insert_name(s.drop_first(), x)
    }
}

/// `s` sorted (`sort` on strings).
pub open spec fn sort_names(s: Seq<Seq<char>>) -> Seq<Seq<char>>
    decreases s.len(),
{
    if s.len() == 0 {
        Seq::empty()
    } else {
        insert_name(sort_names(s.drop_last()), s.last())
    }
}

/// Stems of the `.toml` names, in order.
pub open spec fn toml_stems(names: Seq<String>) -> Seq<Seq<char>>
    decreases names.len(),
{
    if names.len() == 0 {
        Seq::empty()
    } else {
        match toml_stem(names.last()@) {
            Some(st) => toml_stems(names.drop_last()).push(st),
            None => toml_stems(names.drop_last()),
        }
    }
}

fn stem_of(name: &str) -> (r: Option<String>)
    ensures
        match r {
            Some(s) => toml_stem(name@) == Some(s@),
            None => toml_stem(name@) is None,
        },
{
    let v = chars_of(name);
    let mut d = v.len();
    assert(v@.take(d as int) =~= name@);
    while d > 0 && v[d - 1] != '.'
        invariant
            d <= v.len(),
            v@ == name@,
            last_index(name@, '.') == last_index(v@.take(d as int), '.'),
        decreases d,
    {
        assert(v@.take(d as int).drop_last() =~= v@.take(d - 1));
        d = d - 1;
    }
    if d <= 1 {
        return None;
    }
    assert(v@.take(d as int).last() == '.');
    let dot = d - 1;
    assert(last_index(name@, '.') == dot);
    let ext = string_of(&v, d, v.len());
    assert(name@.skip(dot + 1) =~= ext@);
    if str_eq(ext.as_str(), "toml") {
        let st = string_of(&v, 0, dot);
        assert(name@.take(dot as int) =~= st@);
        Some(st)
    } else {
        None
    }
}

fn lex_less(a: &str, b: &str) -> (r: bool)
    ensures
        r == lex_lt(a@, b@),
{
    let x = chars_of(a);
    let y = chars_of(b);
    let mut i: usize = 0;
    assert(x@.skip(0) =~= x@);
    assert(y@.skip(0) =~= y@);
    while i < x.len() && i < y.len() && x[i] == y[i]
        invariant
            i <= x.len(),
            i <= y.len(),
            x@ == a@,
            y@ == b@,
            lex_lt(a@, b@) == lex_lt(x@.skip(i as int), y@.skip(i as int)),
        decreases x.len() - i,
    {
        assert(x@.skip(i as int).drop_first() =~= x@.skip(i + 1));
        assert(y@.skip(i as int).drop_first() =~= y@.skip(i + 1));
        i = i + 1;
    }
    if i == x.len() {
        i < y.len()
    } else if i == y.len() {
        false
    } else {
        (x[i] as u32) < (y[i] as u32)
    }
}

proof fn lemma_insert_name_at(s: Seq<Seq<char>>, x: Seq<char>, j: int)
    requires
        0 <= j <= s.len(),
        forall|k: int| 0 <= k < j ==> !lex_lt(x, #[trigger] s[k]),
        j < s.len() ==> lex_lt(x, s[j]),
    ensures
        insert_name(s, x) == s.insert(j, x),
    decreases s.len(),
{
    if s.len() == 0 {
        assert(s.insert(j, x) =~= seq![x]);
    } else if j == 0 {
        assert(s.insert(j, x) =~= seq![x] + s);
    } else {
        lemma_insert_name_at(s.drop_first(), x, j - 1);
        assert(s.insert(j, x) =~= seq![s[0]] + s.drop_first().insert(j - 1, x));
    }
}

/// Profile names from the file names of the profile directory: the stems of
/// the `.toml` files, sorted.
pub fn profile_names(file_names: &Vec<String>) -> (r: Vec<String>)
    ensures
        r@.map_values(|s: String| s@) == sort_names(toml_stems(file_names@)),
{
    let mut out: Vec<String> = Vec::new();
    let mut i: usize = 0;
    while i < file_names.len()
        invariant
            i <= file_names.len(),
            out@.map_values(|s: String| s@) == sort_names(toml_stems(file_names@.take(i as int))),
        decreases file_names.len() - i,
    {
        assert(file_names@.take(i + 1).drop_last() =~= file_names@.take(i as int));
        assert(file_names@.take(i + 1).last() == file_names@[i as int]);
        let ghost stems = toml_stems(file_names@.take(i as int));
        match stem_of(file_names[i].as_str()) {
            Some(st) => {
                assert(toml_stems(file_names@.take(i + 1)) == stems.push(st@));
                assert(stems.push(st@).drop_last() =~= stems);
                let ghost before = out@.map_values(|s: String| s@);
                let mut j: usize = 0;
                while j < out.len()
                    invariant
                        j <= out.len(),
                        before == out@.map_values(|s: String| s@),
                        forall|k: int| 0 <= k < j ==> !lex_lt(st@, #[trigger] before[k]),
                    ensures
                        j <= out.len(),
                        forall|k: int| 0 <= k < j ==> !lex_lt(st@, #[trigger] before[k]),
                        j < out.len() ==> lex_lt(st@, before[j as int]),
                    decreases out.len() - j,
                {
                    if lex_less(st.as_str(), out[j].as_str()) {
                        break;
                    }
                    j = j + 1;
                }
                proof {
                    lemma_insert_name_at(before, st@, j as int);
                }
                out.insert(j, st);
                assert(out@.map_values(|s: String| s@) =~= before.insert(j as int, st@));
            },
            None => {},
        }
        i = i + 1;
    }
    assert(file_names@.take(i as int) =~= file_names@);
    out
}


proof fn lemma_lex_trans(a: Seq<char>, b: Seq<char>, c: Seq<char>)
    requires
        lex_lt(a, b),
        lex_lt(b, c),
    ensures
        lex_lt(a, c),
    decreases a.len(),
{
    if a.len() > 0 && b.len() > 0 && c.len() > 0 && a[0] == b[0] && b[0] == c[0] {
        lemma_lex_trans(a.drop_first(), b.drop_first(), c.drop_first());
    }
}

proof fn lemma_lex_asym(a: Seq<char>, b: Seq<char>)
    ensures
        !(lex_lt(a, b) && lex_lt(b, a)),
    decreases a.len(),
{
    if a.len() > 0 && b.len() > 0 && a[0] == b[0] {
        lemma_lex_asym(a.drop_first(), b.drop_first());
    }
}

/// No name of `s` sorts before one placed ahead of it.
pub open spec fn names_sorted(s: Seq<Seq<char>>) -> bool {
    forall|i: int, j: int| 0 <= i < j < s.len() ==> !lex_lt(#[trigger] s[j], #[trigger] s[i])
}

proof fn lemma_insert_name_position(s: Seq<Seq<char>>, x: Seq<char>) -> (j: int)
    ensures
        0 <= j <= s.len(),
        insert_name(s, x) == s.insert(j, x),
        forall|k: int| 0 <= k < j ==> !lex_lt(x, #[trigger] s[k]),
        j < s.len() ==> lex_lt(x, s[j]),
    decreases s.len(),
{
    if s.len() == 0 {
        assert(s.insert(0, x) =~= seq![x]);
        0
    } else if lex_lt(x, s[0]) {
        assert(s.insert(0, x) =~= seq![x] + s);
        0
    } else {
        let j = lemma_insert_name_position(s.drop_first(), x);
        assert(s.insert(j + 1, x) =~= seq![s[0]] + s.drop_first().insert(j, x));
        assert forall|k: int| 0 <= k < j + 1 implies !lex_lt(x, #[trigger] s[k]) by {
            if k > 0 {
                assert(s[k] == s.drop_first()[k - 1]);
            }
        }
        j + 1
    }
}

proof fn lemma_insert_name_sorted(s: Seq<Seq<char>>, x: Seq<char>)
    requires
        names_sorted(s),
    ensures
        names_sorted(insert_name(s, x)),
        insert_name(s, x).to_multiset() == s.to_multiset().insert(x),
{
    let j = lemma_insert_name_position(s, x);
    let t = s.insert(j, x);
    s.insert_ensures(j, x);
    assert forall|a: int, b: int| 0 <= a < b < t.len() implies !lex_lt(#[trigger] t[b], #[trigger] t[a]) by {
        if b < j {
        } else if b == j {
        } else if a < j {
            assert(t[b] == s[b - 1]);
            if lex_lt(t[b], t[a]) {
                assert(lex_lt(x, s[j]));
                assert(!lex_lt(x, s[a]));
                if b - 1 > j {
                    assert(!lex_lt(s[b - 1], s[j]));
                }
                assert(!lex_lt(s[b - 1], s[a]));
            }
        } else if a == j {
            assert(t[b] == s[b - 1]);
            if lex_lt(s[b - 1], x) {
                if b - 1 > j {
                    lemma_lex_trans(s[b - 1], x, s[j]);
                } else {
                    lemma_lex_asym(s[j], x);
                }
            }
        } else {
            assert(t[b] == s[b - 1]);
            assert(t[a] == s[a - 1]);
        }
    }
    t.to_multiset_ensures();
    assert(t.remove(j) =~= s);
    assert(t[j] == x);
    assert(t.to_multiset().count(x) > 0);
    assert(t.to_multiset() =~= s.to_multiset().insert(x));
}

/// Profile names come out sorted, holding exactly the stems of the `.toml`
/// files.
pub proof fn law_profile_names_sorted(s: Seq<Seq<char>>)
    ensures
        names_sorted(sort_names(s)),
        sort_names(s).to_multiset() == s.to_multiset(),
    decreases s.len(),
{
    if s.len() == 0 {
        assert(s =~= Seq::<Seq<char>>::empty());
        assert(sort_names(s) =~= s);
    } else {
        law_profile_names_sorted(s.drop_last());
        lemma_insert_name_sorted(sort_names(s.drop_last()), s.last());
        s.drop_last().to_multiset_ensures();
        assert(s.drop_last().push(s.last()) =~= s);
    }
}

} // verus!
