//! Choosing the modes under which one monitor can mirror another: a common
//! aspect ratio (exact, else within 5%), the largest modes at it, and the
//! best shared refresh rate.
use vstd::prelude::*;

use crate::monitor::{mode_pixels, Mode, Monitor};

verus! {

/// Result of a mirror-mode search. `refresh` is in hundredths of a hertz.
#[derive(Debug, Clone, Copy, PartialEq, Eq)]
pub struct MirrorResult {
    pub source_mode: Mode,
    pub mirror_mode: Mode,
    pub refresh: u32,
    pub ar_exact: bool,
    pub ar_ratio: (u32, u32),
}

/// A pairing of a source aspect ratio with a target one.
#[derive(Debug, Clone, Copy)]
pub struct Candidate {
    pub src_ar: (u32, u32),
    pub tgt_ar: (u32, u32),
    pub is_exact: bool,
}

pub open spec fn gcd_spec(a: nat, b: nat) -> nat
    decreases b,
{
    if b == 0 {
        a
    } else {
        gcd_spec(b, a % b)
    }
}

pub proof fn lemma_gcd_positive(a: nat, b: nat)
    ensures
        (a > 0 || b > 0) ==> gcd_spec(a, b) > 0,
        gcd_spec(a, b) <= if b == 0 { a } else { if a > b { a } else { b } },
    decreases b,
{
    if b > 0 {
        lemma_gcd_positive(b, a % b);
    }
}

/// The aspect ratio of a size in lowest terms.
pub open spec fn ar_of_size(w: u32, h: u32) -> (u32, u32) {
    let g = gcd_spec(w as nat, h as nat);
    ((w as nat / g) as u32, (h as nat / g) as u32)
}

pub open spec fn ar_of(m: Mode) -> (u32, u32) {
    ar_of_size(m.width, m.height)
}

/// Every mode has a non-zero side, so its aspect ratio is defined.
pub open spec fn modes_have_size(s: Seq<Mode>) -> bool {
    forall|i: int| 0 <= i < s.len() ==> (#[trigger] s[i]).width > 0 || s[i].height > 0
}

pub fn gcd(a: u32, b: u32) -> (g: u32)
    ensures
        g == gcd_spec(a as nat, b as nat),
    decreases b,
{
    proof {
        lemma_gcd_positive(a as nat, b as nat);
    }
    if b == 0 {
        a
    } else {
        gcd(b, a % b)
    }
}

pub fn reduced_ar(w: u32, h: u32) -> (r: (u32, u32))
    requires
        w > 0 || h > 0,
    ensures
        r == ar_of_size(w, h),
{
    proof {
        lemma_gcd_positive(w as nat, h as nat);
    }
    let g = gcd(w, h);
    (w / g, h / g)
}

/// Distinct aspect ratios of `s`, in first-seen order.
pub open spec fn distinct_ars(s: Seq<Mode>) -> Seq<(u32, u32)>
    decreases s.len(),
{
    if s.len() == 0 {
        Seq::empty()
    } else {
        let d = distinct_ars(s.drop_last());
        if d.contains(ar_of(s.last())) {
            d
        } else {
            d.push(ar_of(s.last()))
        }
    }
}

/// The modes of `s` at aspect ratio `ar`, in order.
pub open spec fn group(s: Seq<Mode>, ar: (u32, u32)) -> Seq<Mode>
    decreases s.len(),
{
    if s.len() == 0 {
        Seq::empty()
    } else if ar_of(s.last()) == ar {
        group(s.drop_last(), ar).push(s.last())
    } else {
        group(s.drop_last(), ar)
    }
}

/// Ratios `s0:s1` and `t0:t1` differ by less than 5% of the first:
/// `|s0/s1 - t0/t1| / (s0/s1) < 0.05`, cleared of fractions.
pub open spec fn ar_close(s: (u32, u32), t: (u32, u32)) -> bool {
    let a = s.0 as int * t.1 as int;
    let b = t.0 as int * s.1 as int;
    20 * (if a >= b { a - b } else { b - a }) < a
}

/// Adds, for each of the first `k` source ratios close to `ta`, the
/// approximate pairing unless one with the same ratios is already there.
pub open spec fn add_approx(c: Seq<Candidate>, ars: Seq<(u32, u32)>, ta: (u32, u32), k: int) -> Seq<
    Candidate,
>
    decreases k,
{
    if k <= 0 {
        c
    } else {
        let c1 = add_approx(c, ars, ta, k - 1);
        let sa = ars[k - 1];
        if ar_close(sa, ta) && !(exists|i: int|
            0 <= i < c1.len() && (#[trigger] c1[i]).src_ar == sa && c1[i].tgt_ar == ta) {
            c1.push(Candidate { src_ar: sa, tgt_ar: ta, is_exact: false })
        } else {
            c1
        }
    }
}

/// Candidates from the first `n` target modes: the exact pairing when the
/// source has the target's ratio, else every close source ratio.
pub open spec fn candidates_upto(src: Seq<Mode>, tgt: Seq<Mode>, n: int) -> Seq<Candidate>
    decreases n,
{
    if n <= 0 {
        Seq::empty()
    } else {
        let c = candidates_upto(src, tgt, n - 1);
        let ta = ar_of(tgt[n - 1]);
        let ars = distinct_ars(src);
        if ars.contains(ta) {
            let e = Candidate { src_ar: ta, tgt_ar: ta, is_exact: true };
            if c.contains(e) {
                c
            } else {
                c.push(e)
            }
        } else {
            add_approx(c, ars, ta, ars.len() as int)
        }
    }
}

pub open spec fn candidates(src: Seq<Mode>, tgt: Seq<Mode>) -> Seq<Candidate> {
    candidates_upto(src, tgt, tgt.len() as int)
}

/// The largest pixel count in `s` (0 when empty).
pub open spec fn max_pixels(s: Seq<Mode>) -> nat
    decreases s.len(),
{
    if s.len() == 0 {
        0
    } else {
        let m = max_pixels(s.drop_last());
        if mode_pixels(s.last()) > m {
            mode_pixels(s.last())
        } else {
            m
        }
    }
}

/// Score of a candidate: the largest source mode at its source ratio plus
/// the largest target mode at its target ratio.
pub open spec fn candidate_score(src: Seq<Mode>, tgt: Seq<Mode>, c: Candidate) -> nat {
    max_pixels(group(src, c.src_ar)) + max_pixels(group(tgt, c.tgt_ar))
}

/// The winner so far: (score, exact, source ratio, target ratio, chosen).
/// An exact pairing beats an approximate one whatever the scores; between
/// equals, a strictly higher score wins, so earlier candidates win ties.
pub open spec fn best_upto(src: Seq<Mode>, tgt: Seq<Mode>, cs: Seq<Candidate>, n: int) -> (
    nat,
    bool,
    (u32, u32),
    (u32, u32),
    bool,
)
    decreases n,
{
    if n <= 0 {
        (0, false, (0u32, 0u32), (0u32, 0u32), false)
    } else {
        let b = best_upto(src, tgt, cs, n - 1);
        let c = cs[n - 1];
        let score = candidate_score(src, tgt, c);
        let better = if c.is_exact && !b.1 {
            true
        } else if !c.is_exact && b.1 {
            false
        } else {
            score > b.0
        };
        if better {
            (score, c.is_exact, c.src_ar, c.tgt_ar, true)
        } else {
            b
        }
    }
}

/// The mode with the most pixels; the last such one on ties.
pub open spec fn last_max_mode(s: Seq<Mode>) -> Mode
    recommends
        s.len() > 0,
    decreases s.len(),
{
    if s.len() <= 1 {
        s[0]
    } else {
        let m = last_max_mode(s.drop_last());
        if mode_pixels(s.last()) >= mode_pixels(m) {
            s.last()
        } else {
            m
        }
    }
}

/// The modes of `s` of the given size.
pub open spec fn same_size(s: Seq<Mode>, w: u32, h: u32) -> Seq<Mode>
    decreases s.len(),
{
    if s.len() == 0 {
        Seq::empty()
    } else if s.last().width == w && s.last().height == h {
        same_size(s.drop_last(), w, h).push(s.last())
    } else {
        same_size(s.drop_last(), w, h)
    }
}

pub open spec fn refreshes(s: Seq<Mode>) -> Seq<u32> {
    s.map_values(|m: Mode| m.refresh)
}

pub open spec fn max_u32(s: Seq<u32>) -> u32
    recommends
        s.len() > 0,
    decreases s.len(),
{
    if s.len() <= 1 {
        s[0]
    } else {
        let m = max_u32(s.drop_last());
        if s.last() > m {
            s.last()
        } else {
            m
        }
    }
}

/// Source rates that the target also offers.
pub open spec fn common_rates(sr: Seq<u32>, tr: Seq<u32>) -> Seq<u32>
    decreases sr.len(),
{
    if sr.len() == 0 {
        Seq::empty()
    } else if tr.contains(sr.last()) {
        common_rates(sr.drop_last(), tr).push(sr.last())
    } else {
        common_rates(sr.drop_last(), tr)
    }
}

pub open spec fn min_u32(a: u32, b: u32) -> u32 {
    if a < b {
        a
    } else {
        b
    }
}

pub open spec fn within_1hz(a: u32, b: u32) -> bool {
    (if a >= b { a - b } else { b - a }) <= 100
}

/// For one source rate, the lower of it and each target rate within 1 Hz.
pub open spec fn near_for(s: u32, tr: Seq<u32>) -> Seq<u32>
    decreases tr.len(),
{
    if tr.len() == 0 {
        Seq::empty()
    } else if within_1hz(s, tr.last()) {
        near_for(s, tr.drop_last()).push(min_u32(s, tr.last()))
    } else {
        near_for(s, tr.drop_last())
    }
}

pub open spec fn near_rates(sr: Seq<u32>, tr: Seq<u32>) -> Seq<u32>
    decreases sr.len(),
{
    if sr.len() == 0 {
        Seq::empty()
    } else {
        near_rates(sr.drop_last(), tr) + near_for(sr.last(), tr)
    }
}

/// The refresh rate to use: the highest shared one, else the highest
/// "lower of a pair within 1 Hz", else the highest source rate.
pub open spec fn chosen_rate(sr: Seq<u32>, tr: Seq<u32>) -> u32 {
    if common_rates(sr, tr).len() > 0 {
        max_u32(common_rates(sr, tr))
    } else if near_rates(sr, tr).len() > 0 {
        max_u32(near_rates(sr, tr))
    } else {
        max_u32(sr)
    }
}

/// Within 0.1 Hz of the chosen rate.
pub open spec fn near_rate(m: Mode, rate: u32) -> bool {
    (if m.refresh >= rate { m.refresh - rate } else { rate - m.refresh }) < 10
}

pub open spec fn at_rate(s: Seq<Mode>, rate: u32) -> Seq<Mode>
    decreases s.len(),
{
    if s.len() == 0 {
        Seq::empty()
    } else if near_rate(s.last(), rate) {
        at_rate(s.drop_last(), rate).push(s.last())
    } else {
        at_rate(s.drop_last(), rate)
    }
}

pub open spec fn rate_gap(m: Mode, rate: u32) -> int {
    if m.refresh >= rate {
        m.refresh - rate
    } else {
        rate - m.refresh
    }
}

/// The mode whose rate is nearest `rate`; the first such one on ties.
pub open spec fn first_nearest(s: Seq<Mode>, rate: u32) -> Mode
    recommends
        s.len() > 0,
    decreases s.len(),
{
    if s.len() <= 1 {
        s[0]
    } else {
        let m = first_nearest(s.drop_last(), rate);
        if rate_gap(s.last(), rate) < rate_gap(m, rate) {
            s.last()
        } else {
            m
        }
    }
}

/// What `find_mirror_modes` returns for the source and target mode lists.
pub open spec fn mirror_modes(src: Seq<Mode>, tgt: Seq<Mode>) -> Option<MirrorResult> {
    let cs = candidates(src, tgt);
    let b = best_upto(src, tgt, cs, cs.len() as int);
    if src.len() == 0 || tgt.len() == 0 || cs.len() == 0 || b.2 == (0u32, 0u32) {
        None
    } else {
        let sg = group(src, b.2);
        let best_src = last_max_mode(sg);
        let best_tgt = last_max_mode(group(tgt, b.3));
        let ss = same_size(sg, best_src.width, best_src.height);
        let ts = same_size(tgt, best_tgt.width, best_tgt.height);
        let rate = chosen_rate(refreshes(ss), refreshes(ts));
        let fs = at_rate(ss, rate);
        let ft = at_rate(ts, rate);
        Some(
            MirrorResult {
                source_mode: if fs.len() > 0 {
                    last_max_mode(fs)
                } else {
                    best_src
                },
                mirror_mode: if ft.len() > 0 {
                    last_max_mode(ft)
                } else {
                    first_nearest(ts, rate)
                },
                refresh: rate,
                ar_exact: b.1,
                ar_ratio: b.2,
            },
        )
    }
}


fn ratios_of(s: &Vec<Mode>) -> (r: Vec<(u32, u32)>)
    requires
        modes_have_size(s@),
    ensures
        r@.len() == s@.len(),
        forall|i: int| 0 <= i < s@.len() ==> #[trigger] r@[i] == ar_of(s@[i]),
{
    let mut r: Vec<(u32, u32)> = Vec::new();
    let mut i: usize = 0;
    while i < s.len()
        invariant
            i <= s.len(),
            modes_have_size(s@),
            r@.len() == i,
            forall|k: int| 0 <= k < i ==> #[trigger] r@[k] == ar_of(s@[k]),
        decreases s.len() - i,
    {
        assert(s@[i as int].width > 0 || s@[i as int].height > 0);
        r.push(reduced_ar(s[i].width, s[i].height));
        i = i + 1;
    }
    r
}

fn has_ratio(v: &Vec<(u32, u32)>, p: (u32, u32)) -> (r: bool)
    ensures
        r == v@.contains(p),
{
    let mut i: usize = 0;
    while i < v.len()
        invariant
            i <= v.len(),
            forall|j: int| 0 <= j < i ==> v@[j] != p,
        decreases v.len() - i,
    {
        if v[i].0 == p.0 && v[i].1 == p.1 {
            return true;
        }
        i = i + 1;
    }
    false
}

fn distinct_ratios(s: &Vec<Mode>, ars: &Vec<(u32, u32)>) -> (r: Vec<(u32, u32)>)
    requires
        ars@.len() == s@.len(),
        forall|i: int| 0 <= i < s@.len() ==> #[trigger] ars@[i] == ar_of(s@[i]),
    ensures
        r@ == distinct_ars(s@),
{
    let mut r: Vec<(u32, u32)> = Vec::new();
    let mut i: usize = 0;
    while i < s.len()
        invariant
            i <= s.len(),
            ars@.len() == s@.len(),
            forall|k: int| 0 <= k < s@.len() ==> #[trigger] ars@[k] == ar_of(s@[k]),
            r@ == distinct_ars(s@.take(i as int)),
        decreases s.len() - i,
    {
        assert(s@.take(i + 1).drop_last() =~= s@.take(i as int));
        assert(s@.take(i + 1).last() == s@[i as int]);
        if !has_ratio(&r, ars[i]) {
            r.push(ars[i]);
        }
        i = i + 1;
    }
    assert(s@.take(i as int) =~= s@);
    r
}

fn group_of(s: &Vec<Mode>, ars: &Vec<(u32, u32)>, ar: (u32, u32)) -> (r: Vec<Mode>)
    requires
        ars@.len() == s@.len(),
        forall|i: int| 0 <= i < s@.len() ==> #[trigger] ars@[i] == ar_of(s@[i]),
    ensures
        r@ == group(s@, ar),
{
    let mut r: Vec<Mode> = Vec::new();
    let mut i: usize = 0;
    while i < s.len()
        invariant
            i <= s.len(),
            ars@.len() == s@.len(),
            forall|k: int| 0 <= k < s@.len() ==> #[trigger] ars@[k] == ar_of(s@[k]),
            r@ == group(s@.take(i as int), ar),
        decreases s.len() - i,
    {
        assert(s@.take(i + 1).drop_last() =~= s@.take(i as int));
        assert(s@.take(i + 1).last() == s@[i as int]);
        if ars[i].0 == ar.0 && ars[i].1 == ar.1 {
            r.push(s[i]);
        }
        i = i + 1;
    }
    assert(s@.take(i as int) =~= s@);
    r
}

proof fn lemma_u32_product(a: u32, b: u32)
    ensures
        0 <= a as int * b as int <= 0xFFFF_FFFF * 0xFFFF_FFFF,
{
    assert(0 <= a as int * b as int <= 0xFFFF_FFFF * 0xFFFF_FFFF) by (nonlinear_arith)
        requires
            0 <= a <= 0xFFFF_FFFF,
            0 <= b <= 0xFFFF_FFFF,
    ;
}

fn close_ratios(sa: (u32, u32), ta: (u32, u32)) -> (r: bool)
    ensures
        r == ar_close(sa, ta),
{
    proof {
        lemma_u32_product(sa.0, ta.1);
        lemma_u32_product(ta.0, sa.1);
    }
    let a: u128 = sa.0 as u128 * ta.1 as u128;
    let b: u128 = ta.0 as u128 * sa.1 as u128;
    let d: u128 = if a >= b {
        a - b
    } else {
        b - a
    };
    20 * d < a
}

fn has_exact(c: &Vec<Candidate>, ta: (u32, u32)) -> (r: bool)
    ensures
        r == c@.contains((Candidate { src_ar: ta, tgt_ar: ta, is_exact: true })),
{
    let mut i: usize = 0;
    while i < c.len()
        invariant
            i <= c.len(),
            forall|j: int| 0 <= j < i ==> c@[j] != (Candidate { src_ar: ta, tgt_ar: ta, is_exact: true }),
        decreases c.len() - i,
    {
        if c[i].src_ar.0 == ta.0 && c[i].src_ar.1 == ta.1 && c[i].tgt_ar.0 == ta.0 && c[i].tgt_ar.1
            == ta.1 && c[i].is_exact {
            assert(c@[i as int] == (Candidate { src_ar: ta, tgt_ar: ta, is_exact: true }));
            return true;
        }
        i = i + 1;
    }
    false
}

fn has_pairing(c: &Vec<Candidate>, sa: (u32, u32), ta: (u32, u32)) -> (r: bool)
    ensures
        r == (exists|i: int| 0 <= i < c@.len() && (#[trigger] c@[i]).src_ar == sa && c@[i].tgt_ar == ta),
{
    let mut i: usize = 0;
    while i < c.len()
        invariant
            i <= c.len(),
            forall|j: int| 0 <= j < i ==> !((#[trigger] c@[j]).src_ar == sa && c@[j].tgt_ar == ta),
        decreases c.len() - i,
    {
        if c[i].src_ar.0 == sa.0 && c[i].src_ar.1 == sa.1 && c[i].tgt_ar.0 == ta.0 && c[i].tgt_ar.1
            == ta.1 {
            return true;
        }
        i = i + 1;
    }
    false
}

fn collect_candidates(
    src: &Vec<Mode>,
    tgt: &Vec<Mode>,
    src_ratios: &Vec<(u32, u32)>,
    tgt_ars: &Vec<(u32, u32)>,
) -> (r: Vec<Candidate>)
    requires
        src_ratios@ == distinct_ars(src@),
        tgt_ars@.len() == tgt@.len(),
        forall|i: int| 0 <= i < tgt@.len() ==> #[trigger] tgt_ars@[i] == ar_of(tgt@[i]),
    ensures
        r@ == candidates(src@, tgt@),
{
    let mut c: Vec<Candidate> = Vec::new();
    let mut n: usize = 0;
    while n < tgt.len()
        invariant
            n <= tgt.len(),
            src_ratios@ == distinct_ars(src@),
            tgt_ars@.len() == tgt@.len(),
            forall|i: int| 0 <= i < tgt@.len() ==> #[trigger] tgt_ars@[i] == ar_of(tgt@[i]),
            c@ == candidates_upto(src@, tgt@, n as int),
        decreases tgt.len() - n,
    {
        let ta = tgt_ars[n];
        if has_ratio(src_ratios, ta) {
            if !has_exact(&c, ta) {
                c.push(Candidate { src_ar: ta, tgt_ar: ta, is_exact: true });
            }
        } else {
            let ghost c0 = c@;
            let mut k: usize = 0;
            while k < src_ratios.len()
                invariant
                    k <= src_ratios.len(),
                    c@ == add_approx(c0, src_ratios@, ta, k as int),
                decreases src_ratios.len() - k,
            {
                let sa = src_ratios[k];
                if close_ratios(sa, ta) && !has_pairing(&c, sa, ta) {
                    c.push(Candidate { src_ar: sa, tgt_ar: ta, is_exact: false });
                }
                k = k + 1;
            }
        }
        n = n + 1;
    }
    c
}


fn max_pixels_of(s: &Vec<Mode>) -> (r: u64)
    ensures
        r == max_pixels(s@),
{
    let mut best: u64 = 0;
    let mut i: usize = 0;
    while i < s.len()
        invariant
            i <= s.len(),
            best == max_pixels(s@.take(i as int)),
        decreases s.len() - i,
    {
        assert(s@.take(i + 1).drop_last() =~= s@.take(i as int));
        assert(s@.take(i + 1).last() == s@[i as int]);
        let p = s[i].pixels();
        if p > best {
            best = p;
        }
        i = i + 1;
    }
    assert(s@.take(i as int) =~= s@);
    best
}

fn pick_best(
    src: &Vec<Mode>,
    tgt: &Vec<Mode>,
    src_ars: &Vec<(u32, u32)>,
    tgt_ars: &Vec<(u32, u32)>,
    cs: &Vec<Candidate>,
) -> (r: (u128, bool, (u32, u32), (u32, u32), bool))
    requires
        src_ars@.len() == src@.len(),
        forall|i: int| 0 <= i < src@.len() ==> #[trigger] src_ars@[i] == ar_of(src@[i]),
        tgt_ars@.len() == tgt@.len(),
        forall|i: int| 0 <= i < tgt@.len() ==> #[trigger] tgt_ars@[i] == ar_of(tgt@[i]),
    ensures
        (r.0 as nat, r.1, r.2, r.3, r.4) == best_upto(src@, tgt@, cs@, cs@.len() as int),
{
    let mut best: (u128, bool, (u32, u32), (u32, u32), bool) = (0, false, (0, 0), (0, 0), false);
    let mut i: usize = 0;
    while i < cs.len()
        invariant
            i <= cs.len(),
            src_ars@.len() == src@.len(),
            forall|k: int| 0 <= k < src@.len() ==> #[trigger] src_ars@[k] == ar_of(src@[k]),
            tgt_ars@.len() == tgt@.len(),
            forall|k: int| 0 <= k < tgt@.len() ==> #[trigger] tgt_ars@[k] == ar_of(tgt@[k]),
            (best.0 as nat, best.1, best.2, best.3, best.4) == best_upto(src@, tgt@, cs@, i as int),
        decreases cs.len() - i,
    {
        let c = cs[i];
        let sg = group_of(src, src_ars, c.src_ar);
        let tg = group_of(tgt, tgt_ars, c.tgt_ar);
        let score: u128 = max_pixels_of(&sg) as u128 + max_pixels_of(&tg) as u128;
        let better = if c.is_exact && !best.1 {
            true
        } else if !c.is_exact && best.1 {
            false
        } else {
            score > best.0
        };
        if better {
            best = (score, c.is_exact, c.src_ar, c.tgt_ar, true);
        }
        i = i + 1;
    }
    best
}

fn last_max(s: &Vec<Mode>) -> (r: Mode)
    requires
        s@.len() > 0,
    ensures
        r == last_max_mode(s@),
{
    let mut best = s[0];
    let mut bp = best.pixels();
    let mut i: usize = 1;
    assert(s@.take(1) =~= seq![s@[0]]);
    while i < s.len()
        invariant
            1 <= i <= s.len(),
            best == last_max_mode(s@.take(i as int)),
            bp == mode_pixels(best),
        decreases s.len() - i,
    {
        assert(s@.take(i + 1).drop_last() =~= s@.take(i as int));
        assert(s@.take(i + 1).last() == s@[i as int]);
        let p = s[i].pixels();
        if p >= bp {
            best = s[i];
            bp = p;
        }
        i = i + 1;
    }
    assert(s@.take(i as int) =~= s@);
    best
}

fn sized(s: &Vec<Mode>, w: u32, h: u32) -> (r: Vec<Mode>)
    ensures
        r@ == same_size(s@, w, h),
{
    let mut r: Vec<Mode> = Vec::new();
    let mut i: usize = 0;
    while i < s.len()
        invariant
            i <= s.len(),
            r@ == same_size(s@.take(i as int), w, h),
        decreases s.len() - i,
    {
        assert(s@.take(i + 1).drop_last() =~= s@.take(i as int));
        assert(s@.take(i + 1).last() == s@[i as int]);
        if s[i].width == w && s[i].height == h {
            r.push(s[i]);
        }
        i = i + 1;
    }
    assert(s@.take(i as int) =~= s@);
    r
}

fn rates_of(s: &Vec<Mode>) -> (r: Vec<u32>)
    ensures
        r@ == refreshes(s@),
{
    let mut r: Vec<u32> = Vec::new();
    let mut i: usize = 0;
    while i < s.len()
        invariant
            i <= s.len(),
            r@ == refreshes(s@.take(i as int)),
        decreases s.len() - i,
    {
        r.push(s[i].refresh);
        i = i + 1;
        assert(r@ =~= refreshes(s@.take(i as int)));
    }
    assert(s@.take(i as int) =~= s@);
    r
}

fn highest(s: &Vec<u32>) -> (r: u32)
    requires
        s@.len() > 0,
    ensures
        r == max_u32(s@),
{
    let mut best = s[0];
    let mut i: usize = 1;
    assert(s@.take(1) =~= seq![s@[0]]);
    while i < s.len()
        invariant
            1 <= i <= s.len(),
            best == max_u32(s@.take(i as int)),
        decreases s.len() - i,
    {
        assert(s@.take(i + 1).drop_last() =~= s@.take(i as int));
        assert(s@.take(i + 1).last() == s@[i as int]);
        if s[i] > best {
            best = s[i];
        }
        i = i + 1;
    }
    assert(s@.take(i as int) =~= s@);
    best
}

fn has_rate(v: &Vec<u32>, x: u32) -> (r: bool)
    ensures
        r == v@.contains(x),
{
    let mut i: usize = 0;
    while i < v.len()
        invariant
            i <= v.len(),
            forall|j: int| 0 <= j < i ==> v@[j] != x,
        decreases v.len() - i,
    {
        if v[i] == x {
            return true;
        }
        i = i + 1;
    }
    false
}

fn shared_rates(sr: &Vec<u32>, tr: &Vec<u32>) -> (r: Vec<u32>)
    ensures
        r@ == common_rates(sr@, tr@),
{
    let mut r: Vec<u32> = Vec::new();
    let mut i: usize = 0;
    while i < sr.len()
        invariant
            i <= sr.len(),
            r@ == common_rates(sr@.take(i as int), tr@),
        decreases sr.len() - i,
    {
        assert(sr@.take(i + 1).drop_last() =~= sr@.take(i as int));
        assert(sr@.take(i + 1).last() == sr@[i as int]);
        if has_rate(tr, sr[i]) {
            r.push(sr[i]);
        }
        i = i + 1;
    }
    assert(sr@.take(i as int) =~= sr@);
    r
}

fn close_rates(sr: &Vec<u32>, tr: &Vec<u32>) -> (r: Vec<u32>)
    ensures
        r@ == near_rates(sr@, tr@),
{
    let mut r: Vec<u32> = Vec::new();
    let mut i: usize = 0;
    while i < sr.len()
        invariant
            i <= sr.len(),
            r@ == near_rates(sr@.take(i as int), tr@),
        decreases sr.len() - i,
    {
        assert(sr@.take(i + 1).drop_last() =~= sr@.take(i as int));
        assert(sr@.take(i + 1).last() == sr@[i as int]);
        let s = sr[i];
        let ghost before = r@;
        let mut j: usize = 0;
        while j < tr.len()
            invariant
                j <= tr.len(),
                r@ == before + near_for(s, tr@.take(j as int)),
            decreases tr.len() - j,
        {
            assert(tr@.take(j + 1).drop_last() =~= tr@.take(j as int));
            assert(tr@.take(j + 1).last() == tr@[j as int]);
            let t = tr[j];
            let d = if s >= t {
                s - t
            } else {
                t - s
            };
            if d <= 100 {
                r.push(if s < t {
                    s
                } else {
                    t
                });
            }
            j = j + 1;
            assert(r@ =~= before + near_for(s, tr@.take(j as int)));
        }
        assert(tr@.take(j as int) =~= tr@);
        i = i + 1;
    }
    assert(sr@.take(i as int) =~= sr@);
    r
}

fn rated(s: &Vec<Mode>, rate: u32) -> (r: Vec<Mode>)
    ensures
        r@ == at_rate(s@, rate),
{
    let mut r: Vec<Mode> = Vec::new();
    let mut i: usize = 0;
    while i < s.len()
        invariant
            i <= s.len(),
            r@ == at_rate(s@.take(i as int), rate),
        decreases s.len() - i,
    {
        assert(s@.take(i + 1).drop_last() =~= s@.take(i as int));
        assert(s@.take(i + 1).last() == s@[i as int]);
        let f = s[i].refresh;
        let d = if f >= rate {
            f - rate
        } else {
            rate - f
        };
        if d < 10 {
            r.push(s[i]);
        }
        i = i + 1;
    }
    assert(s@.take(i as int) =~= s@);
    r
}

fn nearest(s: &Vec<Mode>, rate: u32) -> (r: Mode)
    requires
        s@.len() > 0,
    ensures
        r == first_nearest(s@, rate),
{
    let mut best = s[0];
    let mut i: usize = 1;
    assert(s@.take(1) =~= seq![s@[0]]);
    while i < s.len()
        invariant
            1 <= i <= s.len(),
            best == first_nearest(s@.take(i as int), rate),
        decreases s.len() - i,
    {
        assert(s@.take(i + 1).drop_last() =~= s@.take(i as int));
        assert(s@.take(i + 1).last() == s@[i as int]);
        let f = s[i].refresh;
        let d = if f >= rate {
            f - rate
        } else {
            rate - f
        };
        let bd = if best.refresh >= rate {
            best.refresh - rate
        } else {
            rate - best.refresh
        };
        if d < bd {
            best = s[i];
        }
        i = i + 1;
    }
    assert(s@.take(i as int) =~= s@);
    best
}


proof fn lemma_distinct_has(s: Seq<Mode>, ar: (u32, u32))
    requires
        distinct_ars(s).contains(ar),
    ensures
        exists|i: int| 0 <= i < s.len() && ar_of(#[trigger] s[i]) == ar,
    decreases s.len(),
{
    if s.len() > 0 {
        let d = distinct_ars(s.drop_last());
        if d.contains(ar) {
            lemma_distinct_has(s.drop_last(), ar);
            let i = choose|i: int| 0 <= i < s.drop_last().len() && ar_of(#[trigger] s.drop_last()[i]) == ar;
            assert(s[i] == s.drop_last()[i]);
        } else {
            if ar_of(s.last()) != ar {
                let q = choose|q: int| 0 <= q < d.len() + 1 && #[trigger] d.push(ar_of(s.last()))[q] == ar;
                assert(q < d.len() ==> d[q] == ar);
            }
            assert(ar_of(s[s.len() - 1]) == ar);
        }
    }
}

proof fn lemma_group_has(s: Seq<Mode>, ar: (u32, u32), i: int)
    requires
        0 <= i < s.len(),
        ar_of(s[i]) == ar,
    ensures
        group(s, ar).len() > 0,
    decreases s.len(),
{
    if i < s.len() - 1 {
        lemma_group_has(s.drop_last(), ar, i);
    }
}

proof fn lemma_group_within(s: Seq<Mode>, ar: (u32, u32))
    ensures
        forall|m: Mode| #[trigger] group(s, ar).contains(m) ==> s.contains(m),
    decreases s.len(),
{
    if s.len() > 0 {
        lemma_group_within(s.drop_last(), ar);
        assert forall|m: Mode| #[trigger] group(s, ar).contains(m) implies s.contains(m) by {
            let g = group(s, ar);
            let q = choose|q: int| 0 <= q < g.len() && g[q] == m;
            let p = group(s.drop_last(), ar);
            if q < p.len() {
                assert(p[q] == m);
                assert(p.contains(m));
                let k = choose|k: int| 0 <= k < s.drop_last().len() && s.drop_last()[k] == m;
                assert(s[k] == m);
            } else {
                assert(s[s.len() - 1] == m);
            }
        }
    }
}

proof fn lemma_last_max_in(s: Seq<Mode>)
    requires
        s.len() > 0,
    ensures
        s.contains(last_max_mode(s)),
    decreases s.len(),
{
    if s.len() > 1 {
        lemma_last_max_in(s.drop_last());
        let m = last_max_mode(s.drop_last());
        if !(mode_pixels(s.last()) >= mode_pixels(m)) {
            let k = choose|k: int| 0 <= k < s.drop_last().len() && s.drop_last()[k] == m;
            assert(s[k] == m);
        } else {
            assert(s[s.len() - 1] == s.last());
        }
    } else {
        assert(s[0] == last_max_mode(s));
    }
}

proof fn lemma_same_size_has(s: Seq<Mode>, m: Mode)
    requires
        s.contains(m),
    ensures
        same_size(s, m.width, m.height).len() > 0,
    decreases s.len(),
{
    if s.len() > 0 && s.last() != m {
        let k = choose|k: int| 0 <= k < s.len() && s[k] == m;
        assert(s.drop_last()[k] == m);
        lemma_same_size_has(s.drop_last(), m);
    }
}

proof fn lemma_add_approx_origin(c: Seq<Candidate>, ars: Seq<(u32, u32)>, ta: (u32, u32), k: int)
    requires
        0 <= k <= ars.len(),
    ensures
        add_approx(c, ars, ta, k).len() >= c.len(),
        forall|i: int| 0 <= i < c.len() ==> #[trigger] add_approx(c, ars, ta, k)[i] == c[i],
        forall|i: int|
            c.len() <= i < add_approx(c, ars, ta, k).len() ==> ars.contains(
                (#[trigger] add_approx(c, ars, ta, k)[i]).src_ar,
            ) && add_approx(c, ars, ta, k)[i].tgt_ar == ta && !add_approx(c, ars, ta, k)[i].is_exact,
    decreases k,
{
    if k > 0 {
        lemma_add_approx_origin(c, ars, ta, k - 1);
        let c1 = add_approx(c, ars, ta, k - 1);
        assert(ars[k - 1] == ars[k - 1]);
        assert(ars.contains(ars[k - 1]));
    }
}

/// Every candidate pairs a ratio the source has with one a target mode has.
proof fn lemma_candidates_origin(src: Seq<Mode>, tgt: Seq<Mode>, n: int)
    requires
        0 <= n <= tgt.len(),
    ensures
        forall|i: int|
            0 <= i < candidates_upto(src, tgt, n).len() ==> distinct_ars(src).contains(
                (#[trigger] candidates_upto(src, tgt, n)[i]).src_ar,
            ) && exists|j: int| 0 <= j < n && ar_of(tgt[j]) == candidates_upto(src, tgt, n)[i].tgt_ar,
    decreases n,
{
    if n > 0 {
        lemma_candidates_origin(src, tgt, n - 1);
        let c = candidates_upto(src, tgt, n - 1);
        let ta = ar_of(tgt[n - 1]);
        let ars = distinct_ars(src);
        let r = candidates_upto(src, tgt, n);
        if !ars.contains(ta) {
            lemma_add_approx_origin(c, ars, ta, ars.len() as int);
        }
        assert forall|i: int| 0 <= i < r.len() implies ars.contains((#[trigger] r[i]).src_ar) && exists|j: int|
            0 <= j < n && ar_of(tgt[j]) == r[i].tgt_ar by {
            if i < c.len() {
                assert(r[i] == c[i]);
                let j = choose|j: int| 0 <= j < n - 1 && ar_of(tgt[j]) == c[i].tgt_ar;
                assert(0 <= j < n && ar_of(tgt[j]) == r[i].tgt_ar);
            } else {
                assert(ar_of(tgt[n - 1]) == r[i].tgt_ar);
            }
        }
    }
}

proof fn lemma_best_origin(src: Seq<Mode>, tgt: Seq<Mode>, cs: Seq<Candidate>, n: int)
    requires
        0 <= n <= cs.len(),
    ensures
        best_upto(src, tgt, cs, n).4 ==> exists|i: int|
            0 <= i < n && best_upto(src, tgt, cs, n).2 == (#[trigger] cs[i]).src_ar && best_upto(
                src,
                tgt,
                cs,
                n,
            ).3 == cs[i].tgt_ar && best_upto(src, tgt, cs, n).1 == cs[i].is_exact,
        !best_upto(src, tgt, cs, n).4 ==> best_upto(src, tgt, cs, n).2 == (0u32, 0u32)
            && !best_upto(src, tgt, cs, n).1,
    decreases n,
{
    if n > 0 {
        lemma_best_origin(src, tgt, cs, n - 1);
    }
}

/// Finds the modes under which `target` can mirror `source`.
pub fn find_mirror_modes(source: &Monitor, target: &Monitor) -> (r: Option<MirrorResult>)
    requires
        modes_have_size(source.available_modes@),
        modes_have_size(target.available_modes@),
    ensures
        r == mirror_modes(source.available_modes@, target.available_modes@),
{
    let src = &source.available_modes;
    let tgt = &target.available_modes;
    if src.len() == 0 || tgt.len() == 0 {
        return None;
    }
    let src_ars = ratios_of(src);
    let tgt_ars = ratios_of(tgt);
    let distinct = distinct_ratios(src, &src_ars);
    let cs = collect_candidates(src, tgt, &distinct, &tgt_ars);
    if cs.len() == 0 {
        return None;
    }
    let best = pick_best(src, tgt, &src_ars, &tgt_ars, &cs);
    if best.2.0 == 0 && best.2.1 == 0 {
        return None;
    }
    proof {
        lemma_best_origin(src@, tgt@, cs@, cs@.len() as int);
        lemma_candidates_origin(src@, tgt@, tgt@.len() as int);
        let i = choose|i: int| 0 <= i < cs@.len() && best.2 == (#[trigger] cs@[i]).src_ar && best.3 == cs@[i].tgt_ar && best.1 == cs@[i].is_exact;
        assert(distinct_ars(src@).contains(cs@[i].src_ar));
        lemma_distinct_has(src@, best.2);
        let k = choose|k: int| 0 <= k < src@.len() && ar_of(#[trigger] src@[k]) == best.2;
        lemma_group_has(src@, best.2, k);
        let j = choose|j: int| 0 <= j < tgt@.len() && ar_of(tgt@[j]) == cs@[i].tgt_ar;
        lemma_group_has(tgt@, best.3, j);
    }
    let sg = group_of(src, &src_ars, best.2);
    let tg = group_of(tgt, &tgt_ars, best.3);
    let best_src = last_max(&sg);
    let best_tgt = last_max(&tg);
    proof {
        lemma_last_max_in(sg@);
        lemma_last_max_in(tg@);
        lemma_group_within(tgt@, best.3);
        lemma_same_size_has(sg@, best_src);
        lemma_same_size_has(tgt@, best_tgt);
    }
    let ss = sized(&sg, best_src.width, best_src.height);
    let ts = sized(tgt, best_tgt.width, best_tgt.height);
    let sr = rates_of(&ss);
    let tr = rates_of(&ts);
    let common = shared_rates(&sr, &tr);
    let rate = if common.len() > 0 {
        highest(&common)
    } else {
        let near = close_rates(&sr, &tr);
        if near.len() > 0 {
            highest(&near)
        } else {
            highest(&sr)
        }
    };
    let fs = rated(&ss, rate);
    let ft = rated(&ts, rate);
    let source_mode = if fs.len() > 0 {
        last_max(&fs)
    } else {
        best_src
    };
    let mirror_mode = if ft.len() > 0 {
        last_max(&ft)
    } else {
        nearest(&ts, rate)
    };
    Some(
        MirrorResult {
            source_mode,
            mirror_mode,
            refresh: rate,
            ar_exact: best.1,
            ar_ratio: best.2,
        },
    )
}


/// Label for how well the two chosen refresh rates agree.
pub open spec fn refresh_label(r: MirrorResult) -> Seq<char> {
    let d = if r.source_mode.refresh >= r.mirror_mode.refresh {
        r.source_mode.refresh - r.mirror_mode.refresh
    } else {
        r.mirror_mode.refresh - r.source_mode.refresh
    };
    if d == 0 {
        "exact match"@
    } else if d <= 100 {
        "near match (≤1 Hz)"@
    } else {
        "mismatch"@
    }
}

pub fn refresh_match_label(result: &MirrorResult) -> (s: &'static str)
    ensures
        s@ == refresh_label(*result),
{
    let a = result.source_mode.refresh;
    let b = result.mirror_mode.refresh;
    let d = if a >= b {
        a - b
    } else {
        b - a
    };
    if d == 0 {
        "exact match"
    } else if d <= 100 {
        "near match (≤1 Hz)"
    } else {
        "mismatch"
    }
}

proof fn lemma_group_members(s: Seq<Mode>, ar: (u32, u32))
    ensures
        forall|m: Mode| #[trigger] group(s, ar).contains(m) ==> s.contains(m) && ar_of(m) == ar,
    decreases s.len(),
{
    lemma_group_within(s, ar);
    if s.len() > 0 {
        lemma_group_members(s.drop_last(), ar);
        assert forall|m: Mode| #[trigger] group(s, ar).contains(m) implies ar_of(m) == ar by {
            let g = group(s, ar);
            let p = group(s.drop_last(), ar);
            let q = choose|q: int| 0 <= q < g.len() && g[q] == m;
            if q < p.len() {
                assert(p[q] == m);
                assert(p.contains(m));
            }
        }
    }
}

proof fn lemma_same_size_members(s: Seq<Mode>, w: u32, h: u32)
    ensures
        forall|m: Mode|
            #[trigger] same_size(s, w, h).contains(m) ==> s.contains(m) && m.width == w && m.height
                == h,
    decreases s.len(),
{
    if s.len() > 0 {
        lemma_same_size_members(s.drop_last(), w, h);
        assert forall|m: Mode| #[trigger] same_size(s, w, h).contains(m) implies s.contains(m)
            && m.width == w && m.height == h by {
            let g = same_size(s, w, h);
            let p = same_size(s.drop_last(), w, h);
            let q = choose|q: int| 0 <= q < g.len() && g[q] == m;
            if q < p.len() {
                assert(p[q] == m);
                assert(p.contains(m));
                let k = choose|k: int| 0 <= k < s.drop_last().len() && s.drop_last()[k] == m;
                assert(s[k] == m);
            } else {
                assert(s[s.len() - 1] == m);
            }
        }
    }
}

proof fn lemma_at_rate_members(s: Seq<Mode>, rate: u32)
    ensures
        forall|m: Mode| #[trigger] at_rate(s, rate).contains(m) ==> s.contains(m),
    decreases s.len(),
{
    if s.len() > 0 {
        lemma_at_rate_members(s.drop_last(), rate);
        assert forall|m: Mode| #[trigger] at_rate(s, rate).contains(m) implies s.contains(m) by {
            let g = at_rate(s, rate);
            let p = at_rate(s.drop_last(), rate);
            let q = choose|q: int| 0 <= q < g.len() && g[q] == m;
            if q < p.len() {
                assert(p[q] == m);
                assert(p.contains(m));
                let k = choose|k: int| 0 <= k < s.drop_last().len() && s.drop_last()[k] == m;
                assert(s[k] == m);
            } else {
                assert(s[s.len() - 1] == m);
            }
        }
    }
}

proof fn lemma_first_nearest_in(s: Seq<Mode>, rate: u32)
    requires
        s.len() > 0,
    ensures
        s.contains(first_nearest(s, rate)),
    decreases s.len(),
{
    if s.len() > 1 {
        lemma_first_nearest_in(s.drop_last(), rate);
        let m = first_nearest(s.drop_last(), rate);
        if !(rate_gap(s.last(), rate) < rate_gap(m, rate)) {
            let k = choose|k: int| 0 <= k < s.drop_last().len() && s.drop_last()[k] == m;
            assert(s[k] == m);
        } else {
            assert(s[s.len() - 1] == s.last());
        }
    } else {
        assert(s[0] == first_nearest(s, rate));
    }
}

proof fn lemma_best_exact(src: Seq<Mode>, tgt: Seq<Mode>, cs: Seq<Candidate>, n: int, i: int)
    requires
        0 <= i < n <= cs.len(),
        cs[i].is_exact,
    ensures
        best_upto(src, tgt, cs, n).1,
        best_upto(src, tgt, cs, n).4,
    decreases n,
{
    lemma_best_origin(src, tgt, cs, n - 1);
    if i < n - 1 {
        lemma_best_exact(src, tgt, cs, n - 1, i);
    }
}

proof fn lemma_best_exact_pair(src: Seq<Mode>, tgt: Seq<Mode>, cs: Seq<Candidate>, n: int)
    requires
        0 <= n <= cs.len(),
        forall|i: int| 0 <= i < cs.len() && (#[trigger] cs[i]).is_exact ==> cs[i].src_ar == cs[i].tgt_ar,
    ensures
        best_upto(src, tgt, cs, n).1 ==> best_upto(src, tgt, cs, n).2 == best_upto(src, tgt, cs, n).3,
    decreases n,
{
    if n > 0 {
        lemma_best_exact_pair(src, tgt, cs, n - 1);
    }
}

proof fn lemma_candidates_grow(src: Seq<Mode>, tgt: Seq<Mode>, n: int, m: int)
    requires
        0 <= n <= m <= tgt.len(),
    ensures
        candidates_upto(src, tgt, n).len() <= candidates_upto(src, tgt, m).len(),
        forall|i: int|
            0 <= i < candidates_upto(src, tgt, n).len() ==> #[trigger] candidates_upto(src, tgt, m)[i]
                == candidates_upto(src, tgt, n)[i],
    decreases m - n,
{
    if n < m {
        lemma_candidates_grow(src, tgt, n, m - 1);
        let c = candidates_upto(src, tgt, m - 1);
        let ars = distinct_ars(src);
        let ta = ar_of(tgt[m - 1]);
        if !ars.contains(ta) {
            lemma_add_approx_origin(c, ars, ta, ars.len() as int);
        }
    }
}

proof fn lemma_candidates_shape(src: Seq<Mode>, tgt: Seq<Mode>, n: int)
    requires
        0 <= n <= tgt.len(),
    ensures
        forall|i: int|
            0 <= i < candidates_upto(src, tgt, n).len() && (#[trigger] candidates_upto(src, tgt, n)[i]).is_exact
                ==> candidates_upto(src, tgt, n)[i].src_ar == candidates_upto(src, tgt, n)[i].tgt_ar,
    decreases n,
{
    if n > 0 {
        lemma_candidates_shape(src, tgt, n - 1);
        let c = candidates_upto(src, tgt, n - 1);
        let ars = distinct_ars(src);
        let ta = ar_of(tgt[n - 1]);
        if !ars.contains(ta) {
            lemma_add_approx_origin(c, ars, ta, ars.len() as int);
        }
    }
}

/// An exact aspect-ratio match beats any approximate one: when some target
/// mode has a ratio the source also has, a result is found and is exact.
pub proof fn law_exact_beats_approximate(src: Seq<Mode>, tgt: Seq<Mode>, j: int)
    requires
        modes_have_size(src),
        0 <= j < tgt.len(),
        distinct_ars(src).contains(ar_of(tgt[j])),
    ensures
        mirror_modes(src, tgt) is Some,
        mirror_modes(src, tgt)->0.ar_exact,
{
    let ta = ar_of(tgt[j]);
    let e = Candidate { src_ar: ta, tgt_ar: ta, is_exact: true };
    let c = candidates_upto(src, tgt, j);
    let c1 = candidates_upto(src, tgt, j + 1);
    if !c.contains(e) {
        assert(c1[c.len() as int] == e);
    }
    assert(c1.contains(e));
    let i = choose|i: int| 0 <= i < c1.len() && c1[i] == e;
    lemma_candidates_grow(src, tgt, j + 1, tgt.len() as int);
    let cs = candidates(src, tgt);
    assert(cs[i] == e);
    lemma_best_exact(src, tgt, cs, cs.len() as int, i);
    lemma_best_origin(src, tgt, cs, cs.len() as int);
    lemma_candidates_origin(src, tgt, tgt.len() as int);
    let b = best_upto(src, tgt, cs, cs.len() as int);
    let k = choose|k: int| 0 <= k < cs.len() && b.2 == (#[trigger] cs[k]).src_ar && b.3 == cs[k].tgt_ar && b.1 == cs[k].is_exact;
    assert(distinct_ars(src).contains(cs[k].src_ar));
    lemma_distinct_has(src, b.2);
    let q = choose|q: int| 0 <= q < src.len() && ar_of(#[trigger] src[q]) == b.2;
    assert(src[q].width > 0 || src[q].height > 0);
    lemma_ar_nonzero(src[q].width, src[q].height);
}

/// A ratio of a non-empty size is never 0:0.
pub proof fn lemma_ar_nonzero(w: u32, h: u32)
    ensures
        ar_of_size(w, h) == (0u32, 0u32) ==> w == 0 && h == 0,
{
    lemma_gcd_positive(w as nat, h as nat);
    let g = gcd_spec(w as nat, h as nat);
    if w > 0 || h > 0 {
        lemma_gcd_bounded(w as nat, h as nat);
        if w > 0 {
            assert(w as nat / g >= 1) by (nonlinear_arith)
                requires
                    g <= w,
                    g > 0,
                    w > 0,
            ;
        } else {
            assert(h as nat / g >= 1) by (nonlinear_arith)
                requires
                    g <= h,
                    g > 0,
                    h > 0,
            ;
        }
    }
}

/// A gcd is no larger than either non-zero argument.
proof fn lemma_gcd_bounded(a: nat, b: nat)
    ensures
        a > 0 ==> gcd_spec(a, b) <= a,
        b > 0 ==> gcd_spec(a, b) <= b,
    decreases b,
{
    if b > 0 {
        lemma_gcd_bounded(b, a % b);
        if a > 0 && a < b {
            vstd::arithmetic::div_mod::lemma_small_mod(a, b);
        }
    }
}

/// The chosen source mode is one of the source's modes at the reported
/// ratio; the chosen mirror mode is one of the target's modes, at the same
/// ratio when the match is exact.
pub proof fn law_mirror_result_modes(src: Seq<Mode>, tgt: Seq<Mode>)
    requires
        mirror_modes(src, tgt) is Some,
    ensures
        src.contains(mirror_modes(src, tgt)->0.source_mode),
        ar_of(mirror_modes(src, tgt)->0.source_mode) == mirror_modes(src, tgt)->0.ar_ratio,
        tgt.contains(mirror_modes(src, tgt)->0.mirror_mode),
        mirror_modes(src, tgt)->0.ar_exact ==> ar_of(mirror_modes(src, tgt)->0.mirror_mode)
            == mirror_modes(src, tgt)->0.ar_ratio,
{
    let cs = candidates(src, tgt);
    let b = best_upto(src, tgt, cs, cs.len() as int);
    lemma_best_origin(src, tgt, cs, cs.len() as int);
    lemma_candidates_origin(src, tgt, tgt.len() as int);
    lemma_candidates_shape(src, tgt, tgt.len() as int);
    lemma_best_exact_pair(src, tgt, cs, cs.len() as int);
    let i = choose|i: int| 0 <= i < cs.len() && b.2 == (#[trigger] cs[i]).src_ar && b.3 == cs[i].tgt_ar && b.1 == cs[i].is_exact;
    assert(distinct_ars(src).contains(cs[i].src_ar));
    lemma_distinct_has(src, b.2);
    let k = choose|k: int| 0 <= k < src.len() && ar_of(#[trigger] src[k]) == b.2;
    lemma_group_has(src, b.2, k);
    let j = choose|j: int| 0 <= j < tgt.len() && ar_of(tgt[j]) == cs[i].tgt_ar;
    lemma_group_has(tgt, b.3, j);
    let sg = group(src, b.2);
    let tg = group(tgt, b.3);
    let best_src = last_max_mode(sg);
    let best_tgt = last_max_mode(tg);
    lemma_last_max_in(sg);
    lemma_last_max_in(tg);
    lemma_group_members(src, b.2);
    lemma_group_members(tgt, b.3);
    let ss = same_size(sg, best_src.width, best_src.height);
    let ts = same_size(tgt, best_tgt.width, best_tgt.height);
    lemma_same_size_has(sg, best_src);
    lemma_same_size_has(tgt, best_tgt);
    lemma_same_size_members(sg, best_src.width, best_src.height);
    lemma_same_size_members(tgt, best_tgt.width, best_tgt.height);
    let rate = chosen_rate(refreshes(ss), refreshes(ts));
    let fs = at_rate(ss, rate);
    let ft = at_rate(ts, rate);
    lemma_at_rate_members(ss, rate);
    lemma_at_rate_members(ts, rate);
    let r = mirror_modes(src, tgt)->0;
    if fs.len() > 0 {
        lemma_last_max_in(fs);
        assert(ss.contains(r.source_mode));
    } else {
        assert(sg.contains(r.source_mode));
    }
    assert(sg.contains(r.source_mode));
    if ft.len() > 0 {
        lemma_last_max_in(ft);
    } else {
        lemma_first_nearest_in(ts, rate);
    }
    assert(ts.contains(r.mirror_mode));
    assert(r.mirror_mode.width == best_tgt.width && r.mirror_mode.height == best_tgt.height);
    assert(ar_of(r.mirror_mode) == ar_of(best_tgt));
}


proof fn lemma_push_contains<A>(s: Seq<A>, a: A, x: A)
    ensures
        s.push(a).contains(x) <==> (s.contains(x) || a == x),
{
    if s.contains(x) {
        let i = choose|i: int| 0 <= i < s.len() && s[i] == x;
        assert(s.push(a)[i] == x);
    }
    if a == x {
        assert(s.push(a)[s.len() as int] == x);
    }
    if s.push(a).contains(x) {
        let i = choose|i: int| 0 <= i < s.push(a).len() && s.push(a)[i] == x;
        if i < s.len() {
            assert(s[i] == x);
        }
    }
}

/// Whether `s` holds `x`, read off its last element and the rest.
proof fn lemma_contains_split<A>(s: Seq<A>, x: A)
    requires
        s.len() > 0,
    ensures
        s.contains(x) <==> (s.drop_last().contains(x) || s.last() == x),
{
    assert(s =~= s.drop_last().push(s.last()));
    lemma_push_contains(s.drop_last(), s.last(), x);
}

/// The maximum of a non-empty list is in it and no element exceeds it.
proof fn lemma_max_u32(s: Seq<u32>)
    requires
        s.len() > 0,
    ensures
        s.contains(max_u32(s)),
        forall|i: int| 0 <= i < s.len() ==> s[i] <= max_u32(s),
    decreases s.len(),
{
    if s.len() > 1 {
        lemma_max_u32(s.drop_last());
        lemma_contains_split(s, max_u32(s.drop_last()));
        assert forall|i: int| 0 <= i < s.len() implies s[i] <= max_u32(s) by {
            if i < s.len() - 1 {
                assert(s[i] == s.drop_last()[i]);
            }
        }
        assert(s[s.len() - 1] == s.last());
    } else {
        assert(s[0] == max_u32(s));
    }
}

proof fn lemma_group_contains(s: Seq<Mode>, ar: (u32, u32), m: Mode)
    requires
        s.contains(m),
        ar_of(m) == ar,
    ensures
        group(s, ar).contains(m),
    decreases s.len(),
{
    lemma_contains_split(s, m);
    if s.last() == m {
        lemma_push_contains(group(s.drop_last(), ar), m, m);
    } else {
        lemma_group_contains(s.drop_last(), ar, m);
        if ar_of(s.last()) == ar {
            lemma_push_contains(group(s.drop_last(), ar), s.last(), m);
        }
    }
}

proof fn lemma_same_size_contains(s: Seq<Mode>, w: u32, h: u32, m: Mode)
    requires
        s.contains(m),
        m.width == w,
        m.height == h,
    ensures
        same_size(s, w, h).contains(m),
    decreases s.len(),
{
    lemma_contains_split(s, m);
    if s.last() == m {
        lemma_push_contains(same_size(s.drop_last(), w, h), m, m);
    } else {
        lemma_same_size_contains(s.drop_last(), w, h, m);
        if s.last().width == w && s.last().height == h {
            lemma_push_contains(same_size(s.drop_last(), w, h), s.last(), m);
        }
    }
}

/// The rates of a mode list are exactly the rates of its modes.
proof fn lemma_refreshes(s: Seq<Mode>)
    ensures
        forall|m: Mode| s.contains(m) ==> #[trigger] refreshes(s).contains(m.refresh),
        forall|v: u32|
            #[trigger] refreshes(s).contains(v) ==> exists|m: Mode| #[trigger]
                s.contains(m) && m.refresh == v,
{
    assert forall|m: Mode| s.contains(m) implies #[trigger] refreshes(s).contains(m.refresh) by {
        let i = choose|i: int| 0 <= i < s.len() && s[i] == m;
        assert(refreshes(s)[i] == m.refresh);
    }
    assert forall|v: u32| #[trigger] refreshes(s).contains(v) implies exists|m: Mode| #[trigger]
        s.contains(m) && m.refresh == v by {
        let i = choose|i: int| 0 <= i < refreshes(s).len() && refreshes(s)[i] == v;
        assert(s.contains(s[i]));
    }
}

/// The shared rates are the rates in both lists.
proof fn lemma_common_rates(sr: Seq<u32>, tr: Seq<u32>, x: u32)
    ensures
        common_rates(sr, tr).contains(x) <==> (sr.contains(x) && tr.contains(x)),
    decreases sr.len(),
{
    if sr.len() > 0 {
        lemma_common_rates(sr.drop_last(), tr, x);
        lemma_contains_split(sr, x);
        if tr.contains(sr.last()) {
            lemma_push_contains(common_rates(sr.drop_last(), tr), sr.last(), x);
        }
    }
}

/// The chosen modes have the sizes of the best source and target modes at
/// the matched ratios.
proof fn lemma_result_sizes(src: Seq<Mode>, tgt: Seq<Mode>)
    requires
        mirror_modes(src, tgt) is Some,
    ensures
        ({
            let cs = candidates(src, tgt);
            let b = best_upto(src, tgt, cs, cs.len() as int);
            let sg = group(src, b.2);
            let best_src = last_max_mode(sg);
            let best_tgt = last_max_mode(group(tgt, b.3));
            let r = mirror_modes(src, tgt)->0;
            &&& sg.contains(best_src)
            &&& ar_of(best_src) == b.2
            &&& tgt.contains(best_tgt)
            &&& r.source_mode.width == best_src.width && r.source_mode.height == best_src.height
            &&& r.mirror_mode.width == best_tgt.width && r.mirror_mode.height == best_tgt.height
        }),
{
    let cs = candidates(src, tgt);
    let b = best_upto(src, tgt, cs, cs.len() as int);
    lemma_best_origin(src, tgt, cs, cs.len() as int);
    lemma_candidates_origin(src, tgt, tgt.len() as int);
    lemma_candidates_shape(src, tgt, tgt.len() as int);
    lemma_best_exact_pair(src, tgt, cs, cs.len() as int);
    let i = choose|i: int| 0 <= i < cs.len() && b.2 == (#[trigger] cs[i]).src_ar && b.3 == cs[i].tgt_ar && b.1 == cs[i].is_exact;
    assert(distinct_ars(src).contains(cs[i].src_ar));
    lemma_distinct_has(src, b.2);
    let k = choose|k: int| 0 <= k < src.len() && ar_of(#[trigger] src[k]) == b.2;
    lemma_group_has(src, b.2, k);
    let j = choose|j: int| 0 <= j < tgt.len() && ar_of(tgt[j]) == cs[i].tgt_ar;
    lemma_group_has(tgt, b.3, j);
    let sg = group(src, b.2);
    let tg = group(tgt, b.3);
    let best_src = last_max_mode(sg);
    let best_tgt = last_max_mode(tg);
    lemma_last_max_in(sg);
    lemma_last_max_in(tg);
    lemma_group_members(src, b.2);
    lemma_group_members(tgt, b.3);
    let ss = same_size(sg, best_src.width, best_src.height);
    let ts = same_size(tgt, best_tgt.width, best_tgt.height);
    lemma_same_size_has(sg, best_src);
    lemma_same_size_has(tgt, best_tgt);
    lemma_same_size_members(sg, best_src.width, best_src.height);
    lemma_same_size_members(tgt, best_tgt.width, best_tgt.height);
    let rate = chosen_rate(refreshes(ss), refreshes(ts));
    let fs = at_rate(ss, rate);
    let ft = at_rate(ts, rate);
    lemma_at_rate_members(ss, rate);
    lemma_at_rate_members(ts, rate);
    let r = mirror_modes(src, tgt)->0;
    if fs.len() > 0 {
        lemma_last_max_in(fs);
        assert(ss.contains(r.source_mode));
    } else {
        assert(sg.contains(r.source_mode));
    }
    assert(sg.contains(r.source_mode));
    if ft.len() > 0 {
        lemma_last_max_in(ft);
    } else {
        lemma_first_nearest_in(ts, rate);
    }
    assert(ts.contains(r.mirror_mode));
    assert(r.mirror_mode.width == best_tgt.width && r.mirror_mode.height == best_tgt.height);
    assert(ar_of(r.mirror_mode) == ar_of(best_tgt));
    assert(r.source_mode.width == best_src.width && r.source_mode.height == best_src.height);
    assert(tg.contains(best_tgt));
}

/// Mirroring runs at the highest rate that the two chosen sizes share: when
/// a source mode of the chosen source size and a target mode of the chosen
/// target size have the same rate, that rate is no higher than the
/// result's, and the result's rate is one that both sizes offer.
pub proof fn law_highest_shared_rate(src: Seq<Mode>, tgt: Seq<Mode>, a: Mode, b: Mode)
    requires
        mirror_modes(src, tgt) is Some,
        src.contains(a),
        tgt.contains(b),
        a.width == mirror_modes(src, tgt)->0.source_mode.width,
        a.height == mirror_modes(src, tgt)->0.source_mode.height,
        b.width == mirror_modes(src, tgt)->0.mirror_mode.width,
        b.height == mirror_modes(src, tgt)->0.mirror_mode.height,
        a.refresh == b.refresh,
    ensures
        a.refresh <= mirror_modes(src, tgt)->0.refresh,
        exists|x: Mode, y: Mode|
            #[trigger] src.contains(x) && #[trigger] tgt.contains(y) && x.width == a.width
                && x.height == a.height && y.width == b.width && y.height == b.height && x.refresh
                == mirror_modes(src, tgt)->0.refresh && y.refresh == mirror_modes(src, tgt)->0.refresh,
{
    let r = mirror_modes(src, tgt)->0;
    let cs = candidates(src, tgt);
    let bb = best_upto(src, tgt, cs, cs.len() as int);
    let sg = group(src, bb.2);
    let best_src = last_max_mode(sg);
    let best_tgt = last_max_mode(group(tgt, bb.3));
    let ss = same_size(sg, best_src.width, best_src.height);
    let ts = same_size(tgt, best_tgt.width, best_tgt.height);
    let rate = chosen_rate(refreshes(ss), refreshes(ts));
    let fs = at_rate(ss, rate);
    let ft = at_rate(ts, rate);
    lemma_result_sizes(src, tgt);
    lemma_group_members(src, bb.2);
    lemma_group_members(tgt, bb.3);
    lemma_same_size_members(sg, best_src.width, best_src.height);
    lemma_same_size_members(tgt, best_tgt.width, best_tgt.height);
    assert(ar_of(a) == ar_of(best_src));
    lemma_group_contains(src, bb.2, a);
    lemma_same_size_contains(sg, best_src.width, best_src.height, a);
    lemma_same_size_contains(tgt, best_tgt.width, best_tgt.height, b);
    lemma_refreshes(ss);
    lemma_refreshes(ts);
    assert(refreshes(ss).contains(a.refresh));
    assert(refreshes(ts).contains(b.refresh));
    let common = common_rates(refreshes(ss), refreshes(ts));
    lemma_common_rates(refreshes(ss), refreshes(ts), a.refresh);
    assert(common.len() > 0);
    lemma_max_u32(common);
    let i = choose|i: int| 0 <= i < common.len() && common[i] == a.refresh;
    assert(common[i] <= max_u32(common));
    lemma_common_rates(refreshes(ss), refreshes(ts), rate);
    let x = choose|x: Mode| #[trigger] ss.contains(x) && x.refresh == rate;
    let y = choose|y: Mode| #[trigger] ts.contains(y) && y.refresh == rate;
    assert(sg.contains(x));
    assert(src.contains(x) && tgt.contains(y));
}

} // verus!
