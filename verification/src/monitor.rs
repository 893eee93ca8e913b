use vstd::prelude::*;

use crate::text::{
    chars_of, dec_int, dec_nat, find_char, fixed2, parse_hundredths_in, parse_hundredths_spec,
    parse_u32_in, parse_u32_spec, push_char, push_dec, push_dec_i64, push_fixed2, push_str,
    split_once, trim_hz, trim_hz_end, contains_seq, str_contains, starts_with, to_lowercase, unicode_lowercase,
    str_eq, trim, trimmed, debug_quote, debug_quoted, lemma_dec_nat, lemma_parse_dec_u32, lemma_parse_fixed2, lemma_first_index, is_digit,
};

verus! {

/// Output rotation / flip, numbered as Hyprland numbers them.
#[derive(Debug, Clone, Copy, PartialEq, Eq, Structural)]
pub enum Transform {
    Normal,
    R90,
    R180,
    R270,
    Flipped,
    FlippedR90,
    FlippedR180,
    FlippedR270,
}

/// Hyprland's number for each transform.
pub open spec fn transform_code(t: Transform) -> u8 {
    match t {
        Transform::Normal => 0,
        Transform::R90 => 1,
        Transform::R180 => 2,
        Transform::R270 => 3,
        Transform::Flipped => 4,
        Transform::FlippedR90 => 5,
        Transform::FlippedR180 => 6,
        Transform::FlippedR270 => 7,
    }
}

pub open spec fn transform_label(t: Transform) -> Seq<char> {
    match t {
        Transform::Normal => "Normal"@,
        Transform::R90 => "90°"@,
        Transform::R180 => "180°"@,
        Transform::R270 => "270°"@,
        Transform::Flipped => "Flipped"@,
        Transform::FlippedR90 => "Flipped 90°"@,
        Transform::FlippedR180 => "Flipped 180°"@,
        Transform::FlippedR270 => "Flipped 270°"@,
    }
}

pub open spec fn all_transforms() -> Seq<Transform> {
    seq![
        Transform::Normal,
        Transform::R90,
        Transform::R180,
        Transform::R270,
        Transform::Flipped,
        Transform::FlippedR90,
        Transform::FlippedR180,
        Transform::FlippedR270,
    ]
}

/// The transform with Hyprland's number `v`; unknown numbers mean `Normal`.
pub open spec fn transform_from_code(v: u8) -> Transform {
    match v {
        1 => Transform::R90,
        2 => Transform::R180,
        3 => Transform::R270,
        4 => Transform::Flipped,
        5 => Transform::FlippedR90,
        6 => Transform::FlippedR180,
        7 => Transform::FlippedR270,
        _ => Transform::Normal,
    }
}

impl Transform {
    /// Decodes Hyprland's transform number; unknown numbers mean `Normal`.
    pub fn from_u8(v: u8) -> (t: Transform)
        ensures
            t == transform_from_code(v),
            v <= 7 ==> transform_code(t) == v,
            v > 7 ==> t == Transform::Normal,
    {
        match v {
            1 => Transform::R90,
            2 => Transform::R180,
            3 => Transform::R270,
            4 => Transform::Flipped,
            5 => Transform::FlippedR90,
            6 => Transform::FlippedR180,
            7 => Transform::FlippedR270,
            _ => Transform::Normal,
        }
    }

    /// Name shown in the config view.
    pub fn label(self) -> (s: &'static str)
        ensures
            s@ == transform_label(self),
    {
        match self {
            Transform::Normal => "Normal",
            Transform::R90 => "90°",
            Transform::R180 => "180°",
            Transform::R270 => "270°",
            Transform::Flipped => "Flipped",
            Transform::FlippedR90 => "Flipped 90°",
            Transform::FlippedR180 => "Flipped 180°",
            Transform::FlippedR270 => "Flipped 270°",
        }
    }

    /// Every transform, in Hyprland's numbering order.
    pub fn all() -> (a: &'static [Transform])
        ensures
            a@ == all_transforms(),
    {
        &[
            Transform::Normal,
            Transform::R90,
            Transform::R180,
            Transform::R270,
            Transform::Flipped,
            Transform::FlippedR90,
            Transform::FlippedR180,
            Transform::FlippedR270,
        ]
    }

    pub fn as_u8(self) -> (v: u8)
        ensures
            v == transform_code(self),
    {
        match self {
            Transform::Normal => 0,
            Transform::R90 => 1,
            Transform::R180 => 2,
            Transform::R270 => 3,
            Transform::Flipped => 4,
            Transform::FlippedR90 => 5,
            Transform::FlippedR180 => 6,
            Transform::FlippedR270 => 7,
        }
    }
}


/// A display mode. `refresh` is in hundredths of a hertz (6000 is 60.00 Hz).
#[derive(Debug, Clone, Copy, PartialEq, Eq, Structural)]
pub struct Mode {
    pub width: u32,
    pub height: u32,
    pub refresh: u32,
}

/// What `Mode::parse` accepts: `WxH@R`, optionally followed by `Hz`, where
/// `W` and `H` are `u32` and `R` a non-negative decimal.
pub open spec fn mode_parse_spec(s: Seq<char>) -> Option<Mode> {
    match split_once(trim_hz(s), '@') {
        None => None,
        Some((res, rate)) => match split_once(res, 'x') {
            None => None,
            Some((ws, hs)) => match (
                parse_u32_spec(ws),
                parse_u32_spec(hs),
                parse_hundredths_spec(rate),
            ) {
                (Some(w), Some(h), Some(r)) => Some(Mode { width: w, height: h, refresh: r }),
                _ => None,
            },
        },
    }
}

/// `WxH@R.RR`, the short form of a mode.
pub open spec fn mode_compact(m: Mode) -> Seq<char> {
    dec_nat(m.width as nat) + seq!['x'] + dec_nat(m.height as nat) + seq!['@'] + fixed2(
        m.refresh as nat,
    )
}

pub open spec fn mode_pixels(m: Mode) -> nat {
    m.width as nat * m.height as nat
}

/// Parses `WxH@R` (optionally `WxH@RHz`) held in `v[lo..hi]`.
pub fn parse_mode_in(v: &Vec<char>, lo: usize, hi: usize) -> (r: Option<Mode>)
    requires
        lo <= hi <= v.len(),
    ensures
        r == mode_parse_spec(v@.subrange(lo as int, hi as int)),
{
    let end = trim_hz_end(v, lo, hi);
    let ghost t = v@.subrange(lo as int, end as int);
    let at = match find_char(v, lo, end, '@') {
        Some(k) => k,
        None => {
            return None;
        },
    };
    let ghost res = t.take(at - lo);
    assert(res =~= v@.subrange(lo as int, at as int));
    assert(t.skip(at - lo + 1) =~= v@.subrange(at + 1, end as int));
    let xi = match find_char(v, lo, at, 'x') {
        Some(k) => k,
        None => {
            return None;
        },
    };
    assert(res.take(xi - lo) =~= v@.subrange(lo as int, xi as int));
    assert(res.skip(xi - lo + 1) =~= v@.subrange(xi + 1, at as int));
    let w = parse_u32_in(v, lo, xi);
    let h = parse_u32_in(v, xi + 1, at);
    let rate = parse_hundredths_in(v, at + 1, end);
    match (w, h, rate) {
        (Some(w), Some(h), Some(r)) => Some(Mode { width: w, height: h, refresh: r }),
        _ => None,
    }
}

impl Mode {
    /// Parses a mode string such as `1920x1200@60.00Hz`.
    pub fn parse(s: &str) -> (r: Option<Mode>)
        ensures
            r == mode_parse_spec(s@),
    {
        let v = chars_of(s);
        assert(v@.subrange(0, v@.len() as int) =~= s@);
        parse_mode_in(&v, 0, v.len())
    }

    /// `WxH@R.RR`, e.g. `1920x1080@60.00`.
    pub fn compact(&self) -> (s: String)
        ensures
            s@ == mode_compact(*self),
    {
        let mut s = String::new();
        push_dec(&mut s, self.width as u64);
        push_char(&mut s, 'x');
        push_dec(&mut s, self.height as u64);
        push_char(&mut s, '@');
        push_fixed2(&mut s, self.refresh as u64);
        assert(s@ =~= mode_compact(*self));
        s
    }

    /// `WxH@R.RRHz`, e.g. `1920x1080@60.00Hz`.
    pub fn to_string(&self) -> (s: String)
        ensures
            s@ == mode_compact(*self) + "Hz"@,
    {
        let mut s = self.compact();
        push_str(&mut s, "Hz");
        s
    }

    pub fn pixels(&self) -> (p: u64)
        ensures
            p == mode_pixels(*self),
    {
        assert(self.width as nat * self.height as nat <= 0xFFFF_FFFF * 0xFFFF_FFFF) by (nonlinear_arith);
        self.width as u64 * self.height as u64
    }
}


/// A connected output and its configuration. `scale` is in hundredths
/// (125 is 1.25); physical dimensions are in millimetres, 0 when unknown.
#[derive(Debug, Clone)]
pub struct Monitor {
    pub name: String,
    pub description: String,
    pub active_mode: Mode,
    pub x: i32,
    pub y: i32,
    pub scale: u32,
    pub transform: Transform,
    pub vrr: bool,
    pub dpms: bool,
    pub disabled: bool,
    pub mirror_of: Option<String>,
    pub available_modes: Vec<Mode>,
    pub physical_width_mm: u32,
    pub physical_height_mm: u32,
}

/// Whether a transform turns the output by a quarter turn.
pub open spec fn is_rotated(t: Transform) -> bool {
    t == Transform::R90 || t == Transform::R270 || t == Transform::FlippedR90 || t
        == Transform::FlippedR270
}

/// Width on the desktop, sides swapped for quarter turns.
pub open spec fn world_width_of(m: Monitor) -> u32 {
    if is_rotated(m.transform) {
        m.active_mode.height
    } else {
        m.active_mode.width
    }
}

pub open spec fn world_height_of(m: Monitor) -> u32 {
    if is_rotated(m.transform) {
        m.active_mode.width
    } else {
        m.active_mode.height
    }
}

/// `x + width as i32`, the first column right of the monitor.
pub open spec fn right_edge_of(m: Monitor) -> int {
    m.x + (world_width_of(m) as i32)
}

pub open spec fn bottom_edge_of(m: Monitor) -> int {
    m.y + (world_height_of(m) as i32)
}

/// The edges of a monitor can be computed in 32 bits.
pub open spec fn edges_fit(m: Monitor) -> bool {
    i32::MIN <= right_edge_of(m) <= i32::MAX && i32::MIN <= bottom_edge_of(m) <= i32::MAX
}

/// The scale suggested for a pixel density, in hundredths. The density
/// `ppi` is `25.4 * sqrt(px2) / sqrt(mm2)`, so `ppi < t` is
/// `64516 * px2 < 100 * t * t * mm2`.
pub open spec fn suggested_scale_for(px2: nat, mm2: nat) -> u32 {
    if 64516 * px2 < 100 * 110 * 110 * mm2 {
        100
    } else if 64516 * px2 < 100 * 150 * 150 * mm2 {
        125
    } else if 64516 * px2 < 100 * 200 * 200 * mm2 {
        150
    } else {
        200
    }
}

/// Distinct (width, height) pairs of `modes`, in first-seen order.
pub open spec fn unique_resolutions_of(modes: Seq<Mode>) -> Seq<(u32, u32)>
    decreases modes.len(),
{
    if modes.len() == 0 {
        Seq::empty()
    } else {
        let u = unique_resolutions_of(modes.drop_last());
        let p = (modes.last().width, modes.last().height);
        if u.contains(p) {
            u
        } else {
            u.push(p)
        }
    }
}

/// Refresh rates of the modes with the given size, in order.
pub open spec fn refreshes_of(modes: Seq<Mode>, w: u32, h: u32) -> Seq<u32>
    decreases modes.len(),
{
    if modes.len() == 0 {
        Seq::empty()
    } else {
        let r = refreshes_of(modes.drop_last(), w, h);
        if modes.last().width == w && modes.last().height == h {
            r.push(modes.last().refresh)
        } else {
            r
        }
    }
}

fn contains_pair(v: &Vec<(u32, u32)>, p: (u32, u32)) -> (r: bool)
    ensures
        r == v@.contains(p),
{
    let mut i: usize = 0;
    while i < v.len()
        invariant
            i <= v.len(),
            forall|j: int| 0 <= j < i ==> v@[j] != p,
        decreases v.len() - i,
    {
        if v[i].0 == p.0 && v[i].1 == p.1 {
            return true;
        }
        i = i + 1;
    }
    false
}

impl Monitor {
    /// Width in world coordinates (swapped for 90/270 transforms).
    pub fn world_width(&self) -> (w: u32)
        ensures
            w == world_width_of(*self),
    {
        match self.transform {
            Transform::R90 | Transform::R270 | Transform::FlippedR90 | Transform::FlippedR270 => {
                self.active_mode.height
            },
            _ => self.active_mode.width,
        }
    }

    /// Height in world coordinates.
    pub fn world_height(&self) -> (h: u32)
        ensures
            h == world_height_of(*self),
    {
        match self.transform {
            Transform::R90 | Transform::R270 | Transform::FlippedR90 | Transform::FlippedR270 => {
                self.active_mode.width
            },
            _ => self.active_mode.height,
        }
    }

    pub fn right_edge(&self) -> (e: i32)
        requires
            i32::MIN <= right_edge_of(*self) <= i32::MAX,
        ensures
            e == right_edge_of(*self),
    {
        self.x + self.world_width() as i32
    }

    pub fn bottom_edge(&self) -> (e: i32)
        requires
            i32::MIN <= bottom_edge_of(*self) <= i32::MAX,
        ensures
            e == bottom_edge_of(*self),
    {
        self.y + self.world_height() as i32
    }

    /// Suggested scale (hundredths) from the pixel density; `None` when the
    /// physical size is unknown.
    pub fn suggested_scale(&self) -> (r: Option<u32>)
        requires
            self.physical_width_mm != 0 && self.physical_height_mm != 0 ==> {
                &&& self.active_mode.width * self.active_mode.width + self.active_mode.height
                    * self.active_mode.height <= u32::MAX
                &&& self.physical_width_mm * self.physical_width_mm + self.physical_height_mm
                    * self.physical_height_mm <= u32::MAX
            },
        ensures
            r == (if self.physical_width_mm == 0 || self.physical_height_mm == 0 {
                None::<u32>
            } else {
                Some(
                    suggested_scale_for(
                        (self.active_mode.width * self.active_mode.width + self.active_mode.height
                            * self.active_mode.height) as nat,
                        (self.physical_width_mm * self.physical_width_mm + self.physical_height_mm
                            * self.physical_height_mm) as nat,
                    ),
                )
            }),
    {
        if self.physical_width_mm == 0 || self.physical_height_mm == 0 {
            return None;
        }
        let w = self.active_mode.width as u64;
        let h = self.active_mode.height as u64;
        let pw = self.physical_width_mm as u64;
        let ph = self.physical_height_mm as u64;
        assert(w * w + h * h <= u32::MAX);
        assert(pw * pw + ph * ph <= u32::MAX);
        let px2: u64 = w * w + h * h;
        let mm2: u64 = pw * pw + ph * ph;
        let lhs: u64 = 64516 * px2;
        let s = if lhs < 1_210_000 * mm2 {
            100
        } else if lhs < 2_250_000 * mm2 {
            125
        } else if lhs < 4_000_000 * mm2 {
            150
        } else {
            200
        };
        Some(s)
    }

    /// Unique resolutions available (deduped WxH pairs, first-seen order).
    pub fn unique_resolutions(&self) -> (r: Vec<(u32, u32)>)
        ensures
            r@ == unique_resolutions_of(self.available_modes@),
    {
        let mut seen: Vec<(u32, u32)> = Vec::new();
        let mut i: usize = 0;
        while i < self.available_modes.len()
            invariant
                i <= self.available_modes.len(),
                seen@ == unique_resolutions_of(self.available_modes@.take(i as int)),
            decreases self.available_modes.len() - i,
        {
            let m = self.available_modes[i];
            let pair = (m.width, m.height);
            assert(self.available_modes@.take(i + 1).drop_last() =~= self.available_modes@.take(
                i as int,
            ));
            if !contains_pair(&seen, pair) {
                seen.push(pair);
            }
            i = i + 1;
        }
        assert(self.available_modes@.take(i as int) =~= self.available_modes@);
        seen
    }

    /// Refresh rates available for a given WxH.
    pub fn refreshes_for(&self, width: u32, height: u32) -> (r: Vec<u32>)
        ensures
            r@ == refreshes_of(self.available_modes@, width, height),
    {
        let mut out: Vec<u32> = Vec::new();
        let mut i: usize = 0;
        while i < self.available_modes.len()
            invariant
                i <= self.available_modes.len(),
                out@ == refreshes_of(self.available_modes@.take(i as int), width, height),
            decreases self.available_modes.len() - i,
        {
            let m = self.available_modes[i];
            assert(self.available_modes@.take(i + 1).drop_last() =~= self.available_modes@.take(
                i as int,
            ));
            if m.width == width && m.height == height {
                out.push(m.refresh);
            }
            i = i + 1;
        }
        assert(self.available_modes@.take(i as int) =~= self.available_modes@);
        out
    }
}


/// The `monitor=` line of `hyprland.conf` for a monitor.
pub open spec fn hypr_line(m: Monitor) -> Seq<char> {
    match m.mirror_of {
        Some(src) => "monitor="@ + m.name@ + ","@ + mode_compact(m.active_mode) + ",auto,"@
            + fixed2(m.scale as nat) + ",mirror,"@ + src@,
        None => "monitor="@ + m.name@ + ","@ + mode_compact(m.active_mode) + ","@ + dec_int(
            m.x as int,
        ) + "x"@ + dec_int(m.y as int) + ","@ + fixed2(m.scale as nat) + ",transform,"@
            + dec_nat(transform_code(m.transform) as nat) + ",vrr,"@ + (if m.vrr {
            "1"@
        } else {
            "0"@
        }),
    }
}

pub fn format_hypr_line(m: &Monitor) -> (s: String)
    ensures
        s@ == hypr_line(*m),
{
    let mut s = String::new();
    push_str(&mut s, "monitor=");
    push_str(&mut s, m.name.as_str());
    push_str(&mut s, ",");
    let c = m.active_mode.compact();
    push_str(&mut s, c.as_str());
    match &m.mirror_of {
        Some(src) => {
            push_str(&mut s, ",auto,");
            push_fixed2(&mut s, m.scale as u64);
            push_str(&mut s, ",mirror,");
            push_str(&mut s, src.as_str());
        },
        None => {
            push_str(&mut s, ",");
            push_dec_i64(&mut s, m.x as i64);
            push_str(&mut s, "x");
            push_dec_i64(&mut s, m.y as i64);
            push_str(&mut s, ",");
            push_fixed2(&mut s, m.scale as u64);
            push_str(&mut s, ",transform,");
            push_dec(&mut s, m.transform.as_u8() as u64);
            push_str(&mut s, ",vrr,");
            if m.vrr {
                push_str(&mut s, "1");
            } else {
                push_str(&mut s, "0");
            }
        },
    }
    assert(s@ =~= hypr_line(*m));
    s
}


/// A monitor as `hyprctl monitors all -j` reports it, with the scale and
/// refresh rate in hundredths.
#[derive(Debug, Clone)]
pub struct RawMonitor {
    pub id: u32,
    pub name: String,
    pub description: String,
    pub width: u32,
    pub height: u32,
    pub x: i32,
    pub y: i32,
    pub scale: u32,
    pub refresh_rate: u32,
    pub transform: u8,
    pub available_modes: Vec<String>,
    pub physical_width: u32,
    pub physical_height: u32,
    pub dpms_status: bool,
    pub vrr: bool,
    pub mirror_of: String,
    pub disabled: bool,
}

/// The modes among `strs` that parse, in order.
pub open spec fn parsed_modes(strs: Seq<String>) -> Seq<Mode>
    decreases strs.len(),
{
    if strs.len() == 0 {
        Seq::empty()
    } else {
        let p = parsed_modes(strs.drop_last());
        match mode_parse_spec(strs.last()@) {
            Some(m) => p.push(m),
            None => p,
        }
    }
}

/// `a` sorts strictly before `b`: more pixels, or as many and a higher rate.
pub open spec fn mode_ahead(a: Mode, b: Mode) -> bool {
    mode_pixels(a) > mode_pixels(b) || (mode_pixels(a) == mode_pixels(b) && a.refresh > b.refresh)
}

/// Inserts `x` into `s` after every element it does not sort ahead of.
pub open spec fn insert_mode(s: Seq<Mode>, x: Mode) -> Seq<Mode>
    decreases s.len(),
{
    if s.len() == 0 {
        seq![x]
    } else if mode_ahead(x, s[0]) {
        seq![x] + s
    } else {
        seq![s[0]] + insert_mode(s.drop_first(), x)
    }
}

/// Stable sort by pixels, then refresh, both descending.
pub open spec fn sort_modes(s: Seq<Mode>) -> Seq<Mode>
    decreases s.len(),
{
    if s.len() == 0 {
        Seq::empty()
    } else {
        insert_mode(sort_modes(s.drop_last()), s.last())
    }
}

/// `s` without elements equal to the one just before them.
pub open spec fn dedup_modes(s: Seq<Mode>) -> Seq<Mode>
    decreases s.len(),
{
    if s.len() <= 1 {
        s
    } else if s.last() == s[s.len() - 2] {
        dedup_modes(s.drop_last())
    } else {
        dedup_modes(s.drop_last()).push(s.last())
    }
}

/// The mode list kept for a monitor: parsed, sorted, adjacent repeats dropped.
pub open spec fn mode_list(strs: Seq<String>) -> Seq<Mode> {
    dedup_modes(sort_modes(parsed_modes(strs)))
}

/// Hyprland's mirror field: empty or `none` mean no mirror.
pub open spec fn mirror_field(s: String) -> Option<String> {
    if s@.len() == 0 || s@ == "none"@ {
        None
    } else {
        Some(s)
    }
}

proof fn lemma_insert_at(s: Seq<Mode>, x: Mode, j: int)
    requires
        0 <= j <= s.len(),
        forall|k: int| 0 <= k < j ==> !mode_ahead(x, #[trigger] s[k]),
        j < s.len() ==> mode_ahead(x, s[j]),
    ensures
        insert_mode(s, x) == s.insert(j, x),
    decreases s.len(),
{
    if s.len() == 0 {
        assert(s.insert(j, x) =~= seq![x]);
    } else if j == 0 {
        assert(s.insert(j, x) =~= seq![x] + s);
    } else {
        lemma_insert_at(s.drop_first(), x, j - 1);
        assert(s.insert(j, x) =~= seq![s[0]] + s.drop_first().insert(j - 1, x));
    }
}

fn insert_sorted(r: &mut Vec<Mode>, x: Mode)
    ensures
        final(r)@ == insert_mode(old(r)@, x),
{
    let px = x.pixels();
    let mut j: usize = 0;
    while j < r.len()
        invariant
            j <= r.len(),
            px == mode_pixels(x),
            forall|k: int| 0 <= k < j ==> !mode_ahead(x, #[trigger] r@[k]),
        ensures
            j <= r.len(),
            forall|k: int| 0 <= k < j ==> !mode_ahead(x, #[trigger] r@[k]),
            j < r.len() ==> mode_ahead(x, r@[j as int]),
        decreases r.len() - j,
    {
        let pj = r[j].pixels();
        if px > pj || (px == pj && x.refresh > r[j].refresh) {
            break;
        }
        j = j + 1;
    }
    proof {
        lemma_insert_at(r@, x, j as int);
    }
    r.insert(j, x);
}

/// Parses, sorts and de-duplicates the advertised mode strings.
pub fn build_mode_list(strs: &Vec<String>) -> (r: Vec<Mode>)
    ensures
        r@ == mode_list(strs@),
{
    let mut sorted: Vec<Mode> = Vec::new();
    let mut i: usize = 0;
    while i < strs.len()
        invariant
            i <= strs.len(),
            sorted@ == sort_modes(parsed_modes(strs@.take(i as int))),
        decreases strs.len() - i,
    {
        assert(strs@.take(i + 1).drop_last() =~= strs@.take(i as int));
        let parsed = Mode::parse(strs[i].as_str());
        let ghost before = parsed_modes(strs@.take(i as int));
        match parsed {
            Some(m) => {
                insert_sorted(&mut sorted, m);
                assert(parsed_modes(strs@.take(i + 1)) == before.push(m));
                assert(before.push(m).drop_last() =~= before);
            },
            None => {},
        }
        i = i + 1;
    }
    assert(strs@.take(i as int) =~= strs@);
    let mut out: Vec<Mode> = Vec::new();
    let mut k: usize = 0;
    while k < sorted.len()
        invariant
            k <= sorted.len(),
            out@ == dedup_modes(sorted@.take(k as int)),
        decreases sorted.len() - k,
    {
        let ghost t = sorted@.take(k + 1);
        assert(t.drop_last() =~= sorted@.take(k as int));
        if k == 0 {
            assert(t =~= seq![sorted@[0]]);
            out.push(sorted[k]);
            assert(out@ =~= t);
        } else if sorted[k] != sorted[k - 1] {
            out.push(sorted[k]);
        }
        k = k + 1;
    }
    assert(sorted@.take(k as int) =~= sorted@);
    out
}


/// The field values a monitor takes from its raw report.
pub open spec fn from_raw_fields(m: Monitor, raw: RawMonitor) -> bool {
    &&& m.name == raw.name
    &&& m.description == raw.description
    &&& m.active_mode == Mode { width: raw.width, height: raw.height, refresh: raw.refresh_rate }
    &&& m.x == raw.x
    &&& m.y == raw.y
    &&& m.scale == raw.scale
    &&& (raw.transform <= 7 ==> transform_code(m.transform) == raw.transform)
    &&& (raw.transform > 7 ==> m.transform == Transform::Normal)
    &&& m.vrr == raw.vrr
    &&& m.dpms == raw.dpms_status
    &&& m.disabled == raw.disabled
    &&& m.mirror_of == mirror_field(raw.mirror_of)
    &&& m.available_modes@ == mode_list(raw.available_modes@)
    &&& m.physical_width_mm == raw.physical_width
    &&& m.physical_height_mm == raw.physical_height
}

/// Whether a string is exactly `none`.
fn is_none_word(s: &str) -> (r: bool)
    ensures
        r == (s@ == "none"@),
{
    crate::text::str_eq(s, "none")
}

impl Monitor {
    /// Builds a monitor from its raw report.
    pub fn from_raw(raw: RawMonitor) -> (m: Monitor)
        ensures
            from_raw_fields(m, raw),
    {
        let modes = build_mode_list(&raw.available_modes);
        let active_mode = Mode { width: raw.width, height: raw.height, refresh: raw.refresh_rate };
        let empty = raw.mirror_of.as_str().unicode_len() == 0;
        let none_word = is_none_word(raw.mirror_of.as_str());
        let mirror_of = if empty || none_word {
            None
        } else {
            Some(raw.mirror_of)
        };
        Monitor {
            name: raw.name,
            description: raw.description,
            active_mode,
            x: raw.x,
            y: raw.y,
            scale: raw.scale,
            transform: Transform::from_u8(raw.transform),
            vrr: raw.vrr,
            dpms: raw.dpms_status,
            disabled: raw.disabled,
            mirror_of,
            available_modes: modes,
            physical_width_mm: raw.physical_width,
            physical_height_mm: raw.physical_height,
        }
    }
}


/// No mode of `s` sorts ahead of one placed before it.
pub open spec fn modes_sorted(s: Seq<Mode>) -> bool {
    forall|i: int, j: int| 0 <= i < j < s.len() ==> !mode_ahead(#[trigger] s[j], #[trigger] s[i])
}

/// No two neighbours of `s` are equal.
pub open spec fn no_adjacent_repeats(s: Seq<Mode>) -> bool {
    forall|i: int| 0 < i < s.len() ==> #[trigger] s[i] != s[i - 1]
}

proof fn lemma_insert_mode_position(s: Seq<Mode>, x: Mode) -> (j: int)
    ensures
        0 <= j <= s.len(),
        insert_mode(s, x) == s.insert(j, x),
        forall|k: int| 0 <= k < j ==> !mode_ahead(x, #[trigger] s[k]),
        j < s.len() ==> mode_ahead(x, s[j]),
    decreases s.len(),
{
    if s.len() == 0 {
        assert(s.insert(0, x) =~= seq![x]);
        0
    } else if mode_ahead(x, s[0]) {
        assert(s.insert(0, x) =~= seq![x] + s);
        0
    } else {
        let j = lemma_insert_mode_position(s.drop_first(), x);
        assert(s.insert(j + 1, x) =~= seq![s[0]] + s.drop_first().insert(j, x));
        assert forall|k: int| 0 <= k < j + 1 implies !mode_ahead(x, #[trigger] s[k]) by {
            if k > 0 {
                assert(s[k] == s.drop_first()[k - 1]);
            }
        }
        j + 1
    }
}

proof fn lemma_insert_keeps_order(s: Seq<Mode>, x: Mode)
    requires
        modes_sorted(s),
    ensures
        modes_sorted(insert_mode(s, x)),
        insert_mode(s, x).to_multiset() == s.to_multiset().insert(x),
{
    let j = lemma_insert_mode_position(s, x);
    let t = s.insert(j, x);
    s.insert_ensures(j, x);
    assert forall|a: int, b: int| 0 <= a < b < t.len() implies !mode_ahead(
        #[trigger] t[b],
        #[trigger] t[a],
    ) by {
        if b < j {
        } else if b == j {
        } else if a < j {
            assert(t[b] == s[b - 1]);
        } else if a == j {
            assert(t[b] == s[b - 1]);
            if b - 1 > j {
                assert(!mode_ahead(s[b - 1], s[j]));
            }
        } else {
            assert(t[b] == s[b - 1]);
            assert(t[a] == s[a - 1]);
        }
    }
    t.to_multiset_ensures();
    assert(t.remove(j) =~= s);
    assert(t[j] == x);
    assert(t.to_multiset().remove(x) == s.to_multiset());
    assert(t.to_multiset().count(x) > 0);
    assert(t.to_multiset() =~= s.to_multiset().insert(x));
}

/// The stable sort orders its result and keeps every element.
pub proof fn lemma_sort_modes(s: Seq<Mode>)
    ensures
        modes_sorted(sort_modes(s)),
        sort_modes(s).to_multiset() == s.to_multiset(),
    decreases s.len(),
{
    if s.len() == 0 {
        assert(s =~= Seq::<Mode>::empty());
        assert(sort_modes(s) =~= s);
    } else {
        lemma_sort_modes(s.drop_last());
        lemma_insert_keeps_order(sort_modes(s.drop_last()), s.last());
        s.drop_last().to_multiset_ensures();
        assert(s.drop_last().push(s.last()) =~= s);
    }
}

proof fn lemma_dedup_contents(s: Seq<Mode>)
    ensures
        forall|m: Mode| #[trigger] dedup_modes(s).contains(m) <==> s.contains(m),
        dedup_modes(s).len() > 0 ==> dedup_modes(s).last() == s.last(),
    decreases s.len(),
{
    if s.len() > 1 {
        lemma_dedup_contents(s.drop_last());
        let d = dedup_modes(s.drop_last());
        assert forall|m: Mode| #[trigger] dedup_modes(s).contains(m) <==> s.contains(m) by {
            if s.contains(m) {
                let k = choose|k: int| 0 <= k < s.len() && s[k] == m;
                if k < s.len() - 1 {
                    assert(s.drop_last()[k] == m);
                    assert(d.contains(m));
                    if !(s.last() == s[s.len() - 2]) {
                        let q = choose|q: int| 0 <= q < d.len() && d[q] == m;
                        assert(d.push(s.last())[q] == m);
                    }
                } else {
                    if s.last() == s[s.len() - 2] {
                        assert(s.drop_last()[s.len() - 2] == m);
                        assert(d.contains(m));
                    } else {
                        assert(d.push(s.last())[d.len() as int] == m);
                    }
                }
            }
            if dedup_modes(s).contains(m) {
                let q = choose|q: int| 0 <= q < dedup_modes(s).len() && dedup_modes(s)[q] == m;
                if q < d.len() {
                    assert(d[q] == m);
                    assert(d.contains(m));
                    assert(s.drop_last().contains(m));
                    let k = choose|k: int| 0 <= k < s.drop_last().len() && s.drop_last()[k] == m;
                    assert(s[k] == m);
                } else {
                    assert(s[s.len() - 1] == m);
                }
            }
        }
        if s.last() == s[s.len() - 2] {
            assert(d.len() > 0 ==> d.last() == s.drop_last().last());
        }
    }
}

proof fn lemma_dedup_shape(s: Seq<Mode>)
    requires
        modes_sorted(s),
    ensures
        modes_sorted(dedup_modes(s)),
        no_adjacent_repeats(dedup_modes(s)),
    decreases s.len(),
{
    if s.len() > 1 {
        let p = s.drop_last();
        assert(modes_sorted(p)) by {
            assert forall|i: int, j: int| 0 <= i < j < p.len() implies !mode_ahead(
                #[trigger] p[j],
                #[trigger] p[i],
            ) by {
                assert(p[i] == s[i] && p[j] == s[j]);
            }
        }
        lemma_dedup_shape(p);
        lemma_dedup_contents(p);
        let d = dedup_modes(p);
        if !(s.last() == s[s.len() - 2]) {
            let e = d.push(s.last());
            assert forall|i: int, j: int| 0 <= i < j < e.len() implies !mode_ahead(
                #[trigger] e[j],
                #[trigger] e[i],
            ) by {
                if j == d.len() {
                    assert(d.contains(d[i]));
                    assert(p.contains(d[i]));
                    let k = choose|k: int| 0 <= k < p.len() && p[k] == d[i];
                    assert(s[k] == d[i]);
                } else {
                    assert(e[i] == d[i] && e[j] == d[j]);
                }
            }
            assert forall|i: int| 0 < i < e.len() implies #[trigger] e[i] != e[i - 1] by {
                if i == d.len() {
                    assert(d.last() == p.last());
                } else {
                    assert(e[i] == d[i] && e[i - 1] == d[i - 1]);
                }
            }
        }
    }
}

/// The kept mode list is ordered best first (more pixels, then higher
/// rate), has no two equal neighbours, and holds exactly the modes that
/// parse.
pub proof fn law_mode_list_shape(strs: Seq<String>)
    ensures
        modes_sorted(mode_list(strs)),
        no_adjacent_repeats(mode_list(strs)),
        forall|m: Mode| #[trigger] mode_list(strs).contains(m) <==> parsed_modes(strs).contains(m),
{
    let p = parsed_modes(strs);
    lemma_sort_modes(p);
    lemma_dedup_shape(sort_modes(p));
    lemma_dedup_contents(sort_modes(p));
    sort_modes(p).to_multiset_ensures();
    p.to_multiset_ensures();
    assert forall|m: Mode| #[trigger] mode_list(strs).contains(m) <==> p.contains(m) by {
        assert(sort_modes(p).contains(m) <==> sort_modes(p).to_multiset().count(m) > 0);
        assert(p.contains(m) <==> p.to_multiset().count(m) > 0);
    }
}


/// The last report in `raws` whose id, in decimal, is `t`; -1 if none.
pub open spec fn last_id_match(raws: Seq<RawMonitor>, t: Seq<char>) -> int
    decreases raws.len(),
{
    if raws.len() == 0 {
        -1
    } else if dec_nat(raws.last().id as nat) == t {
        raws.len() - 1
    } else {
        last_id_match(raws.drop_last(), t)
    }
}

/// Hyprland reports `mirrorOf` as a numeric id: the name of the report with
/// that id (the last one, should ids repeat), or the field unchanged.
pub open spec fn resolved_mirror(raws: Seq<RawMonitor>, s: String) -> String {
    if s@.len() != 0 && s@ != "none"@ && last_id_match(raws, s@) >= 0 {
        raws[last_id_match(raws, s@)].name
    } else {
        s
    }
}

pub open spec fn with_mirror(raw: RawMonitor, s: String) -> RawMonitor {
    RawMonitor { mirror_of: s, ..raw }
}

fn find_last_id(ids: &Vec<String>, raws: Ghost<Seq<RawMonitor>>, t: &String) -> (r: Option<usize>)
    requires
        ids.len() == raws@.len(),
        forall|k: int| 0 <= k < ids.len() ==> (#[trigger] ids@[k])@ == dec_nat(raws@[k].id as nat),
    ensures
        match r {
            Some(j) => j < ids.len() && last_id_match(raws@, t@) == j,
            None => last_id_match(raws@, t@) == -1,
        },
{
    let mut j = ids.len();
    assert(raws@.take(j as int) =~= raws@);
    while j > 0
        invariant
            j <= ids.len() == raws@.len(),
            forall|k: int| 0 <= k < ids.len() ==> (#[trigger] ids@[k])@ == dec_nat(raws@[k].id as nat),
            last_id_match(raws@, t@) == last_id_match(raws@.take(j as int), t@),
        decreases j,
    {
        assert(raws@.take(j as int).drop_last() =~= raws@.take(j - 1));
        assert(raws@.take(j as int).last() == raws@[j - 1]);
        if ids[j - 1] == *t {
            return Some(j - 1);
        }
        j = j - 1;
    }
    None
}

/// Turns the raw reports into monitors, resolving numeric mirror ids to
/// monitor names.
pub fn resolve_monitors(raws: Vec<RawMonitor>) -> (r: Vec<Monitor>)
    ensures
        r.len() == raws.len(),
        forall|i: int|
            0 <= i < r.len() ==> from_raw_fields(
                #[trigger] r@[i],
                with_mirror(raws@[i], resolved_mirror(raws@, raws@[i].mirror_of)),
            ),
{
    let ghost all = raws@;
    let mut ids: Vec<String> = Vec::new();
    let mut names: Vec<String> = Vec::new();
    let mut k: usize = 0;
    while k < raws.len()
        invariant
            k <= raws.len(),
            all == raws@,
            ids.len() == k,
            names.len() == k,
            forall|q: int| 0 <= q < k ==> (#[trigger] ids@[q])@ == dec_nat(all[q].id as nat),
            forall|q: int| 0 <= q < k ==> #[trigger] names@[q] == all[q].name,
        decreases raws.len() - k,
    {
        let mut id = String::new();
        push_dec(&mut id, raws[k].id as u64);
        assert(id@ =~= dec_nat(all[k as int].id as nat));
        ids.push(id);
        names.push(raws[k].name.clone());
        k = k + 1;
    }
    let mut rest = raws;
    let mut out: Vec<Monitor> = Vec::new();
    let mut i: usize = 0;
    while rest.len() > 0
        invariant
            i + rest.len() == all.len(),
            rest@ == all.skip(i as int),
            ids.len() == all.len(),
            names.len() == all.len(),
            forall|q: int| 0 <= q < all.len() ==> (#[trigger] ids@[q])@ == dec_nat(all[q].id as nat),
            forall|q: int| 0 <= q < all.len() ==> #[trigger] names@[q] == all[q].name,
            out.len() == i,
            forall|q: int|
                0 <= q < i ==> from_raw_fields(
                    #[trigger] out@[q],
                    with_mirror(all[q], resolved_mirror(all, all[q].mirror_of)),
                ),
        decreases rest.len(),
    {
        let mut raw = rest.remove(0);
        assert(rest@ =~= all.skip(i + 1));
        let ghost orig = raw;
        let empty = raw.mirror_of.as_str().unicode_len() == 0;
        let none_word = str_eq(raw.mirror_of.as_str(), "none");
        if !empty && !none_word {
            match find_last_id(&ids, Ghost(all), &raw.mirror_of) {
                Some(j) => {
                    raw.mirror_of = names[j].clone();
                },
                None => {},
            }
        }
        assert(raw == with_mirror(orig, resolved_mirror(all, orig.mirror_of)));
        let m = Monitor::from_raw(raw);
        out.push(m);
        i = i + 1;
    }
    out
}

/// Whether an already lowercased reply names an unknown request or command.
pub open spec fn names_unknown_request(lowered: Seq<char>) -> bool {
    contains_seq(lowered, "unknown request"@) || contains_seq(lowered, "unknown command"@)
}

/// Whether a `hyprctl eval` reply says the compositor does not know the
/// request (vanilla Hyprland has no `eval`).
pub open spec fn missing_eval_extension(reply: Seq<char>) -> bool {
    names_unknown_request(unicode_lowercase(reply))
}

/// Whether the lowercased reply `lowered` names an unknown request or
/// command.
pub fn mentions_unknown_request(lowered: &str) -> (r: bool)
    ensures
        r == names_unknown_request(lowered@),
{
    str_contains(lowered, "unknown request") || str_contains(lowered, "unknown command")
}

/// Whether a `hyprctl eval` reply says the compositor lacks the request:
/// the reply lowercased, then searched.
pub fn is_missing_eval_extension(hyprctl_stdout: &str) -> (r: bool)
    ensures
        r == missing_eval_extension(hyprctl_stdout@),
{
    let s = to_lowercase(hyprctl_stdout);
    mentions_unknown_request(s.as_str())
}

/// How a trimmed `hyprctl eval` reply is taken.
#[derive(Debug, Clone, Copy, PartialEq, Eq, Structural)]
pub enum EvalReply {
    /// The reply was `ok`.
    Applied,
    /// The compositor lacks the `eval` request.
    MissingExtension,
    /// Any other reply: an error to report as is.
    Failed,
}

pub fn classify_eval_reply(stdout: &str) -> (r: EvalReply)
    ensures
        stdout@ == "ok"@ ==> r == EvalReply::Applied,
        stdout@ != "ok"@ && missing_eval_extension(stdout@) ==> r == EvalReply::MissingExtension,
        stdout@ != "ok"@ && !missing_eval_extension(stdout@) ==> r == EvalReply::Failed,
{
    if str_eq(stdout, "ok") {
        EvalReply::Applied
    } else if is_missing_eval_extension(stdout) {
        EvalReply::MissingExtension
    } else {
        EvalReply::Failed
    }
}


/// The start of the error reported when the compositor lacks `hyprctl eval`.
pub open spec fn missing_extension_lead() -> Seq<char> {
    MISSING_EXTENSION_LEAD@
}

pub const MISSING_EXTENSION_LEAD: &'static str =
    "breadmon: `hyprctl eval` (and the `hl.monitor()` Lua extension it uses \
     to apply monitor changes) is not available on this compositor. \
     This feature requires BOS (Bread OS)'s patched Hyprland build \u{2014} it \
     does not exist on vanilla/upstream Hyprland. See the breadmon README \
     for details. (raw hyprctl response: ";

/// The error that a raw `hyprctl eval` reply stands for, once trimmed:
/// none for `ok`; for a compositor without the request, the explanation
/// with the reply quoted as `{:?}` quotes it; otherwise the reply after
/// `hyprctl: `.
pub open spec fn eval_failure_text(raw: Seq<char>) -> Option<Seq<char>> {
    let t = trimmed(raw);
    if t == "ok"@ {
        None
    } else if missing_eval_extension(t) {
        Some(missing_extension_lead() + debug_quoted(t) + ")"@)
    } else {
        Some("hyprctl: "@ + t)
    }
}

/// The error message for the raw output of `hyprctl eval`, if it reports
/// one.
pub fn eval_failure(raw_stdout: &str) -> (r: Option<String>)
    ensures
        match r {
            Some(msg) => eval_failure_text(raw_stdout@) == Some(msg@),
            None => eval_failure_text(raw_stdout@) is None,
        },
{
    let trimmed_reply = trim(raw_stdout);
    let reply = trimmed_reply.as_str();
    match classify_eval_reply(reply) {
        EvalReply::Applied => None,
        EvalReply::MissingExtension => {
            let mut msg = String::new();
            push_str(&mut msg, MISSING_EXTENSION_LEAD);
            let quoted = debug_quote(reply);
            push_str(&mut msg, quoted.as_str());
            push_str(&mut msg, ")");
            Some(msg)
        },
        EvalReply::Failed => {
            let mut msg = String::new();
            push_str(&mut msg, "hyprctl: ");
            push_str(&mut msg, reply);
            Some(msg)
        },
    }
}

/// The monitor that mirrors the one named `name` (the last such one), by name.
pub open spec fn mirror_slave(ms: Seq<Monitor>, name: Seq<char>) -> Option<Seq<char>>
    decreases ms.len(),
{
    if ms.len() == 0 {
        None
    } else {
        match ms.last().mirror_of {
            Some(src) => if src@ == name {
                Some(ms.last().name@)
            } else {
                mirror_slave(ms.drop_last(), name)
            },
            None => mirror_slave(ms.drop_last(), name),
        }
    }
}

/// Refresh rate in whole hertz, rounded half up.
pub open spec fn whole_hz(centi: u32) -> nat {
    ((centi + 50) / 100) as nat
}

/// The `hl.monitor({...})` call that applies one monitor.
pub open spec fn eval_stmt(m: Monitor, slave: Option<Seq<char>>) -> Seq<char> {
    "hl.monitor({ output = \""@ + m.name@ + "\", mode = \""@ + dec_nat(m.active_mode.width as nat)
        + "x"@ + dec_nat(m.active_mode.height as nat) + "@"@ + dec_nat(
        whole_hz(m.active_mode.refresh),
    ) + "\", position = \""@ + dec_int(m.x as int) + "x"@ + dec_int(m.y as int)
        + "\", scale = \""@ + fixed2(m.scale as nat) + "\", transform = "@ + dec_nat(
        transform_code(m.transform) as nat,
    ) + ", vrr = "@ + (if m.vrr {
        "true"@
    } else {
        "false"@
    }) + (match slave {
        Some(sl) => ", mirror = \""@ + sl + "\""@,
        None => Seq::<char>::empty(),
    }) + " })"@
}

/// One statement per enabled monitor that mirrors nothing, in order.
pub open spec fn eval_statements(ms: Seq<Monitor>, all: Seq<Monitor>) -> Seq<Seq<char>>
    decreases ms.len(),
{
    if ms.len() == 0 {
        Seq::empty()
    } else {
        let p = eval_statements(ms.drop_last(), all);
        let m = ms.last();
        if m.disabled || m.mirror_of is Some {
            p
        } else {
            p.push(eval_stmt(m, mirror_slave(all, m.name@)))
        }
    }
}

/// Names of the enabled monitors whose DPMS is off, in order.
pub open spec fn dpms_off_names(ms: Seq<Monitor>) -> Seq<Seq<char>>
    decreases ms.len(),
{
    if ms.len() == 0 {
        Seq::empty()
    } else {
        let p = dpms_off_names(ms.drop_last());
        if !ms.last().disabled && !ms.last().dpms {
            p.push(ms.last().name@)
        } else {
            p
        }
    }
}

/// `parts` joined by `sep`.
pub open spec fn join_with(parts: Seq<Seq<char>>, sep: Seq<char>) -> Seq<char>
    decreases parts.len(),
{
    if parts.len() == 0 {
        Seq::empty()
    } else if parts.len() == 1 {
        parts[0]
    } else {
        join_with(parts.drop_last(), sep) + sep + parts.last()
    }
}

/// What applying a layout runs: one `hyprctl eval` of the statements joined
/// by `; ` (skipped when there are none), then `dpms off` for each name.
pub struct ApplyPlan {
    pub statements: Vec<String>,
    pub dpms_off: Vec<String>,
}

/// The monitor that mirrors the one named `name` (the last such one).
pub fn find_slave(monitors: &Vec<Monitor>, name: &String) -> (r: Option<usize>)
    ensures
        match r {
            Some(j) => j < monitors.len() && mirror_slave(monitors@, name@) == Some(
                monitors@[j as int].name@,
            ),
            None => mirror_slave(monitors@, name@) is None,
        },
{
    let mut j = monitors.len();
    assert(monitors@.take(j as int) =~= monitors@);
    while j > 0
        invariant
            j <= monitors.len(),
            mirror_slave(monitors@, name@) == mirror_slave(monitors@.take(j as int), name@),
        decreases j,
    {
        assert(monitors@.take(j as int).drop_last() =~= monitors@.take(j - 1));
        assert(monitors@.take(j as int).last() == monitors@[j - 1]);
        match &monitors[j - 1].mirror_of {
            Some(src) => {
                if *src == *name {
                    return Some(j - 1);
                }
            },
            None => {},
        }
        j = j - 1;
    }
    None
}

fn eval_statement(m: &Monitor, slave: Option<&String>) -> (s: String)
    ensures
        s@ == eval_stmt(
            *m,
            match slave {
                Some(sl) => Some(sl@),
                None => None,
            },
        ),
{
    let mut s = String::new();
    push_str(&mut s, "hl.monitor({ output = \"");
    push_str(&mut s, m.name.as_str());
    push_str(&mut s, "\", mode = \"");
    push_dec(&mut s, m.active_mode.width as u64);
    push_str(&mut s, "x");
    push_dec(&mut s, m.active_mode.height as u64);
    push_str(&mut s, "@");
    push_dec(&mut s, (m.active_mode.refresh as u64 + 50) / 100);
    push_str(&mut s, "\", position = \"");
    push_dec_i64(&mut s, m.x as i64);
    push_str(&mut s, "x");
    push_dec_i64(&mut s, m.y as i64);
    push_str(&mut s, "\", scale = \"");
    push_fixed2(&mut s, m.scale as u64);
    push_str(&mut s, "\", transform = ");
    push_dec(&mut s, m.transform.as_u8() as u64);
    push_str(&mut s, ", vrr = ");
    if m.vrr {
        push_str(&mut s, "true");
    } else {
        push_str(&mut s, "false");
    }
    match slave {
        Some(sl) => {
            push_str(&mut s, ", mirror = \"");
            push_str(&mut s, sl.as_str());
            push_str(&mut s, "\"");
        },
        None => {},
    }
    push_str(&mut s, " })");
    assert(s@ =~= eval_stmt(
        *m,
        match slave {
            Some(sl) => Some(sl@),
            None => None,
        },
    ));
    s
}

/// Plans a live apply: mirror sources carry `mirror = <slave>` (the slave is
/// recorded on the source, as `hl.monitor()` wants), slaves get no call.
pub fn apply_plan(monitors: &Vec<Monitor>) -> (p: ApplyPlan)
    ensures
        p.statements@.len() == eval_statements(monitors@, monitors@).len(),
        forall|i: int|
            0 <= i < p.statements@.len() ==> (#[trigger] p.statements@[i])@ == eval_statements(
                monitors@,
                monitors@,
            )[i],
        p.dpms_off@.len() == dpms_off_names(monitors@).len(),
        forall|i: int|
            0 <= i < p.dpms_off@.len() ==> (#[trigger] p.dpms_off@[i])@ == dpms_off_names(
                monitors@,
            )[i],
{
    let mut statements: Vec<String> = Vec::new();
    let mut dpms_off: Vec<String> = Vec::new();
    let mut i: usize = 0;
    while i < monitors.len()
        invariant
            i <= monitors.len(),
            statements@.len() == eval_statements(monitors@.take(i as int), monitors@).len(),
            forall|k: int|
                0 <= k < statements@.len() ==> (#[trigger] statements@[k])@ == eval_statements(
                    monitors@.take(i as int),
                    monitors@,
                )[k],
            dpms_off@.len() == dpms_off_names(monitors@.take(i as int)).len(),
            forall|k: int|
                0 <= k < dpms_off@.len() ==> (#[trigger] dpms_off@[k])@ == dpms_off_names(
                    monitors@.take(i as int),
                )[k],
        decreases monitors.len() - i,
    {
        let m = &monitors[i];
        let ghost t = monitors@.take(i + 1);
        assert(t.drop_last() =~= monitors@.take(i as int));
        assert(t.last() == *m);
        if !m.disabled && m.mirror_of.is_none() {
            let st = match find_slave(monitors, &m.name) {
                Some(j) => eval_statement(m, Some(&monitors[j].name)),
                None => eval_statement(m, None),
            };
            statements.push(st);
        }
        if !m.disabled && !m.dpms {
            dpms_off.push(m.name.clone());
        }
        i = i + 1;
    }
    assert(monitors@.take(i as int) =~= monitors@);
    ApplyPlan { statements, dpms_off }
}

/// The statements joined by `; `, the script `hyprctl eval` runs.
pub fn join_statements(parts: &Vec<String>) -> (s: String)
    ensures
        s@ == join_with(parts@.map_values(|p: String| p@), "; "@),
{
    let ghost views = parts@.map_values(|p: String| p@);
    let mut s = String::new();
    let mut i: usize = 0;
    while i < parts.len()
        invariant
            i <= parts.len(),
            views == parts@.map_values(|p: String| p@),
            s@ == join_with(views.take(i as int), "; "@),
        decreases parts.len() - i,
    {
        assert(views.take(i + 1).drop_last() =~= views.take(i as int));
        if i > 0 {
            push_str(&mut s, "; ");
        } else {
            assert(views.take(1) =~= seq![views[0]]);
        }
        push_str(&mut s, parts[i].as_str());
        i = i + 1;
    }
    assert(views.take(i as int) =~= views);
    s
}


proof fn lemma_compact_parses(m: Mode)
    ensures
        mode_parse_spec(mode_compact(m)) == Some(m),
        is_digit(mode_compact(m).last()),
{
    let a = dec_nat(m.width as nat);
    let b = dec_nat(m.height as nat);
    let f = fixed2(m.refresh as nat);
    let c = mode_compact(m);
    lemma_dec_nat(m.width as nat);
    lemma_dec_nat(m.height as nat);
    lemma_dec_nat((m.refresh / 100) as nat);
    assert(c =~= a + seq!['x'] + b + seq!['@'] + f);
    assert(is_digit(c.last()));
    assert(trim_hz(c) == c);
    let at = a.len() + 1 + b.len();
    assert forall|j: int| 0 <= j < at implies c[j] != '@' by {
        if j < a.len() {
            assert(c[j] == a[j]);
            assert(is_digit(a[j]));
        } else if j > a.len() {
            assert(c[j] == b[j - a.len() - 1]);
            assert(is_digit(b[j - a.len() - 1]));
        }
    }
    lemma_first_index(c, '@', at as int);
    let res = c.take(at as int);
    assert(res =~= a + seq!['x'] + b);
    assert(c.skip(at as int + 1) =~= f);
    assert forall|j: int| 0 <= j < a.len() implies res[j] != 'x' by {
        assert(res[j] == a[j]);
        assert(is_digit(a[j]));
    }
    lemma_first_index(res, 'x', a.len() as int);
    assert(res.take(a.len() as int) =~= a);
    assert(res.skip(a.len() as int + 1) =~= b);
    lemma_parse_dec_u32(m.width);
    lemma_parse_dec_u32(m.height);
    lemma_parse_fixed2(m.refresh);
}

/// A mode's short form, with or without `Hz`, parses back to the same mode.
pub proof fn law_mode_compact_roundtrip(m: Mode)
    ensures
        mode_parse_spec(mode_compact(m)) == Some(m),
        mode_parse_spec(mode_compact(m) + "Hz"@) == Some(m),
{
    lemma_compact_parses(m);
    let c = mode_compact(m);
    reveal_strlit("Hz");
    let t = c + "Hz"@;
    assert(t.take(t.len() - 2) =~= c);
    assert(trim_hz(t) == trim_hz(c));
}

/// The number and label of each transform, and decoding inverts encoding.
pub proof fn law_transform_codes(t: Transform, i: int)
    requires
        0 <= i < 8,
    ensures
        transform_code(all_transforms()[i]) == i,
        all_transforms().len() == 8,
        transform_code(t) <= 7,
        forall|u: Transform| transform_code(u) == transform_code(t) ==> u == t,
{
}


/// `a` and `b` hold the same settings and the same mode list.
pub open spec fn same_monitor(a: Monitor, b: Monitor) -> bool {
    &&& a == (Monitor { available_modes: a.available_modes, ..b })
    &&& a.available_modes@ == b.available_modes@
}

pub open spec fn same_monitors(a: Seq<Monitor>, b: Seq<Monitor>) -> bool {
    &&& a.len() == b.len()
    &&& forall|i: int| 0 <= i < a.len() ==> same_monitor(#[trigger] a[i], b[i])
}

/// A copy of a monitor.
pub fn copy_monitor(m: &Monitor) -> (r: Monitor)
    ensures
        same_monitor(r, *m),
{
    let mut modes: Vec<Mode> = Vec::new();
    let mut i: usize = 0;
    while i < m.available_modes.len()
        invariant
            i <= m.available_modes.len(),
            modes@ == m.available_modes@.take(i as int),
        decreases m.available_modes.len() - i,
    {
        modes.push(m.available_modes[i]);
        i = i + 1;
        assert(modes@ =~= m.available_modes@.take(i as int));
    }
    assert(m.available_modes@.take(i as int) =~= m.available_modes@);
    Monitor {
        name: m.name.clone(),
        description: m.description.clone(),
        active_mode: m.active_mode,
        x: m.x,
        y: m.y,
        scale: m.scale,
        transform: m.transform,
        vrr: m.vrr,
        dpms: m.dpms,
        disabled: m.disabled,
        mirror_of: match &m.mirror_of {
            Some(s) => Some(s.clone()),
            None => None,
        },
        available_modes: modes,
        physical_width_mm: m.physical_width_mm,
        physical_height_mm: m.physical_height_mm,
    }
}

/// A copy of a monitor list.
pub fn copy_monitors(ms: &Vec<Monitor>) -> (r: Vec<Monitor>)
    ensures
        same_monitors(r@, ms@),
{
    let mut out: Vec<Monitor> = Vec::new();
    let mut i: usize = 0;
    while i < ms.len()
        invariant
            i <= ms.len(),
            out@.len() == i,
            forall|k: int| 0 <= k < i ==> same_monitor(#[trigger] out@[k], ms@[k]),
        decreases ms.len() - i,
    {
        out.push(copy_monitor(&ms[i]));
        i = i + 1;
    }
    out
}

/// Lines of Hyprland's event socket that announce a change of monitors.
pub open spec fn monitor_event(line: Seq<char>) -> bool {
    ||| line.len() >= 12 && line.take(12) == "monitoradded"@
    ||| line.len() >= 14 && line.take(14) == "monitorremoved"@
    ||| line.len() >= 12 && line.take(12) == "monitorscale"@
}

/// Whether an event-socket line means the monitors should be read again.
pub fn is_monitor_event(line: &str) -> (r: bool)
    ensures
        r == monitor_event(line@),
{
    proof {
        reveal_strlit("monitoradded");
        reveal_strlit("monitorremoved");
        reveal_strlit("monitorscale");
    }
    starts_with(line, "monitoradded") || starts_with(line, "monitorremoved") || starts_with(
        line,
        "monitorscale",
    )
}


/// The suggested scale follows the pixel density in four bands, and a denser
/// screen never gets a smaller one: below 110 ppi 1.00x, below 150 ppi
/// 1.25x, below 200 ppi 1.50x, from 200 ppi on 2.00x (the density
/// `25.4 * sqrt(px2 / mm2)` compared through its square).
pub proof fn law_suggested_scale_bands(px2: nat, mm2: nat, denser_px2: nat)
    ensures
        64516 * px2 < 100 * 110 * 110 * mm2 ==> suggested_scale_for(px2, mm2) == 100,
        100 * 110 * 110 * mm2 <= 64516 * px2 < 100 * 150 * 150 * mm2 ==> suggested_scale_for(px2, mm2) == 125,
        100 * 150 * 150 * mm2 <= 64516 * px2 < 100 * 200 * 200 * mm2 ==> suggested_scale_for(px2, mm2) == 150,
        64516 * px2 >= 100 * 200 * 200 * mm2 ==> suggested_scale_for(px2, mm2) == 200,
        px2 <= denser_px2 ==> suggested_scale_for(px2, mm2) <= suggested_scale_for(denser_px2, mm2),
{
    assert(100 * 110 * 110 * mm2 <= 100 * 150 * 150 * mm2 <= 100 * 200 * 200 * mm2) by (nonlinear_arith);
    assert(px2 <= denser_px2 ==> 64516 * px2 <= 64516 * denser_px2) by (nonlinear_arith);
}


/// The `vrr` field of an apply statement says whether the monitor has
/// variable refresh on: the statement ends in `, vrr = true` and then its
/// closing (the mirror field, if any, and ` })`) exactly when it has, and in
/// `, vrr = false` and that closing exactly when it has not.
pub proof fn law_statement_vrr(m: Monitor, slave: Option<Seq<char>>)
    ensures
        ({
            let close = match slave {
                Some(sl) => ", mirror = \""@ + sl + "\" })"@,
                None => " })"@,
            };
            let st = eval_stmt(m, slave);
            let on = ", vrr = true"@ + close;
            let off = ", vrr = false"@ + close;
            &&& m.vrr <==> (st.len() >= on.len() && st.subrange(st.len() - on.len(), st.len() as int) == on)
            &&& !m.vrr <==> (st.len() >= off.len() && st.subrange(st.len() - off.len(), st.len() as int)
                == off)
        }),
{
    reveal_strlit(", vrr = ");
    reveal_strlit("true");
    reveal_strlit("false");
    reveal_strlit(", vrr = true");
    reveal_strlit(", vrr = false");
    reveal_strlit(" })");
    reveal_strlit("\" })");
    reveal_strlit("\"");
    reveal_strlit(", mirror = \"");
    let close = match slave {
        Some(sl) => ", mirror = \""@ + sl + "\" })"@,
        None => " })"@,
    };
    let mid = match slave {
        Some(sl) => ", mirror = \""@ + sl + "\""@,
        None => Seq::<char>::empty(),
    };
    assert(close =~= mid + " })"@);
    let st = eval_stmt(m, slave);
    let on = ", vrr = true"@ + close;
    let off = ", vrr = false"@ + close;
    let tail = (if m.vrr { on } else { off });
    let head = st.take(st.len() - tail.len());
    assert(st =~= head + tail);
    if m.vrr {
        assert(st.subrange(st.len() - on.len(), st.len() as int) =~= on);
        if st.len() >= off.len() && st.subrange(st.len() - off.len(), st.len() as int) == off {
            assert(st.subrange(st.len() - off.len(), st.len() as int)[1] == st[head.len() as int]);
            assert(false);
        }
    } else {
        assert(st.subrange(st.len() - off.len(), st.len() as int) =~= off);
        if st.len() >= on.len() && st.subrange(st.len() - on.len(), st.len() as int) == on {
            assert(st.subrange(st.len() - on.len(), st.len() as int)[0] == st[head.len() + 1int]);
            assert(false);
        }
    }
}


/// Every apply statement is the statement of one enabled monitor that
/// mirrors nothing, naming the monitor that mirrors it, if any (so its
/// `vrr` field is that monitor's, as `law_statement_vrr` states).
pub proof fn law_statements_from_monitors(ms: Seq<Monitor>, all: Seq<Monitor>, i: int)
    requires
        0 <= i < eval_statements(ms, all).len(),
    ensures
        exists|j: int|
            0 <= j < ms.len() && !(#[trigger] ms[j]).disabled && ms[j].mirror_of is None
                && eval_statements(ms, all)[i] == eval_stmt(ms[j], mirror_slave(all, ms[j].name@)),
    decreases ms.len(),
{
    let p = eval_statements(ms.drop_last(), all);
    let m = ms.last();
    if i < p.len() {
        law_statements_from_monitors(ms.drop_last(), all, i);
        let j = choose|j: int|
            0 <= j < ms.drop_last().len() && !(#[trigger] ms.drop_last()[j]).disabled
                && ms.drop_last()[j].mirror_of is None && p[i] == eval_stmt(
                ms.drop_last()[j],
                mirror_slave(all, ms.drop_last()[j].name@),
            );
        assert(ms[j] == ms.drop_last()[j]);
        if !(m.disabled || m.mirror_of is Some) {
            assert(eval_statements(ms, all)[i] == p[i]);
        }
    } else {
        assert(!(m.disabled || m.mirror_of is Some));
        assert(ms[ms.len() - 1] == m);
    }
}

} // verus!
