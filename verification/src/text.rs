//! Character-level helpers shared by the formats: decimal rendering and
//! parsing, searching and splitting.
use vstd::prelude::*;

verus! {

/// Appends one character to a string (`String::push`).
#[verifier::external_body]
pub(crate) fn push_char(s: &mut String, c: char)
    ensures
        final(s)@ == old(s)@.push(c),
{
    s.push(c);
}

/// The character of a decimal digit.
pub open spec fn digit_char(d: int) -> char {
    (d + 48) as char
}

pub open spec fn is_digit(c: char) -> bool {
    '0' <= c && c <= '9'
}

/// The value of a decimal digit character.
pub open spec fn digit_value(c: char) -> int {
    c as int - 48
}

/// Decimal digits of a natural number, most significant first, no padding.
pub open spec fn dec_nat(n: nat) -> Seq<char>
    decreases n,
{
    if n < 10 {
        seq![digit_char(n as int)]
    } else {
        dec_nat(n / 10).push(digit_char((n % 10) as int))
    }
}

/// Decimal rendering of an integer, as `{}` prints it.
pub open spec fn dec_int(i: int) -> Seq<char> {
    if i < 0 {
        seq!['-'] + dec_nat((-i) as nat)
    } else {
        dec_nat(i as nat)
    }
}

/// A value in hundredths rendered with two decimals, as `{:.2}` prints it.
pub open spec fn fixed2(h: nat) -> Seq<char> {
    dec_nat(h / 100) + seq!['.', digit_char(((h % 100) / 10) as int), digit_char((h % 10) as int)]
}

/// `s` left-padded with zeros to at least `w` characters.
pub open spec fn zero_pad(s: Seq<char>, w: nat) -> Seq<char> {
    if s.len() < w {
        Seq::new((w - s.len()) as nat, |i: int| '0') + s
    } else {
        s
    }
}

pub fn digit_to_char(d: u64) -> (c: char)
    requires
        d < 10,
    ensures
        c == digit_char(d as int),
        is_digit(c),
{
    match d {
        0 => '0',
        1 => '1',
        2 => '2',
        3 => '3',
        4 => '4',
        5 => '5',
        6 => '6',
        7 => '7',
        8 => '8',
        _ => '9',
    }
}

/// Appends the decimal digits of `n`.
pub fn push_dec(out: &mut String, n: u64)
    ensures
        final(out)@ == old(out)@ + dec_nat(n as nat),
    decreases n,
{
    if n >= 10 {
        push_dec(out, n / 10);
    }
    let c = digit_to_char(n % 10);
    push_char(out, c);
    proof {
        if n >= 10 {
            assert(old(out)@ + dec_nat(n as nat) =~= old(out)@ + dec_nat((n / 10) as nat) + seq![c]);
        } else {
            assert(old(out)@ + dec_nat(n as nat) =~= old(out)@ + seq![c]);
        }
    }
}

/// Appends the decimal rendering of a signed value.
pub fn push_dec_i64(out: &mut String, v: i64)
    ensures
        final(out)@ == old(out)@ + dec_int(v as int),
{
    if v < 0 {
        push_char(out, '-');
        let m: u64 = ((-(v + 1)) as u64) + 1;
        push_dec(out, m);
        assert(final(out)@ =~= old(out)@ + dec_int(v as int));
    } else {
        push_dec(out, v as u64);
    }
}

/// Appends a hundredths value with two decimals.
pub fn push_fixed2(out: &mut String, h: u64)
    ensures
        final(out)@ == old(out)@ + fixed2(h as nat),
{
    push_dec(out, h / 100);
    let c1 = digit_to_char((h % 100) / 10);
    let c2 = digit_to_char(h % 10);
    push_char(out, '.');
    push_char(out, c1);
    push_char(out, c2);
    assert(final(out)@ =~= old(out)@ + fixed2(h as nat));
}

} // verus!

verus! {

/// The characters of a string slice.
pub fn chars_of(s: &str) -> (v: Vec<char>)
    ensures
        v@ == s@,
{
    let n = s.unicode_len();
    let mut v: Vec<char> = Vec::new();
    let mut i: usize = 0;
    while i < n
        invariant
            n == s@.len(),
            i <= n,
            v@ == s@.take(i as int),
        decreases n - i,
    {
        let c = s.get_char(i);
        v.push(c);
        i = i + 1;
        assert(v@ =~= s@.take(i as int));
    }
    assert(s@.take(n as int) =~= s@);
    v
}

/// A string holding the characters `v[lo..hi]`.
pub fn string_of(v: &Vec<char>, lo: usize, hi: usize) -> (s: String)
    requires
        lo <= hi <= v.len(),
    ensures
        s@ == v@.subrange(lo as int, hi as int),
{
    let mut s = String::new();
    let mut i = lo;
    while i < hi
        invariant
            lo <= i <= hi <= v.len(),
            s@ == v@.subrange(lo as int, i as int),
        decreases hi - i,
    {
        push_char(&mut s, v[i]);
        i = i + 1;
        assert(s@ =~= v@.subrange(lo as int, i as int));
    }
    s
}

/// Appends a string slice.
pub fn push_str(out: &mut String, s: &str)
    ensures
        final(out)@ == old(out)@ + s@,
{
    out.append(s);
}

/// Whether two strings hold the same characters.
pub fn str_eq(a: &str, b: &str) -> (r: bool)
    ensures
        r == (a@ == b@),
{
    let n = a.unicode_len();
    let m = b.unicode_len();
    if n != m {
        return false;
    }
    let mut i: usize = 0;
    while i < n
        invariant
            n == a@.len(),
            m == b@.len(),
            n == m,
            i <= n,
            forall|j: int| 0 <= j < i ==> a@[j] == b@[j],
        decreases n - i,
    {
        if a.get_char(i) != b.get_char(i) {
            return false;
        }
        i = i + 1;
    }
    assert(a@ =~= b@);
    true
}

} // verus!

verus! {

pub open spec fn all_digits(s: Seq<char>) -> bool {
    forall|i: int| 0 <= i < s.len() ==> is_digit(#[trigger] s[i])
}

/// The value of a run of decimal digits (0 for the empty run).
pub open spec fn digits_value(s: Seq<char>) -> nat
    decreases s.len(),
{
    if s.len() == 0 {
        0
    } else {
        digits_value(s.drop_last()) * 10 + digit_value(s.last()) as nat
    }
}

/// `s` without one leading `+`.
pub open spec fn strip_plus(s: Seq<char>) -> Seq<char> {
    if s.len() > 0 && s[0] == '+' {
        s.drop_first()
    } else {
        s
    }
}

/// What `str::parse::<u32>` returns: an optional `+`, then at least one
/// digit, the value fitting in 32 bits.
pub open spec fn parse_u32_spec(s: Seq<char>) -> Option<u32> {
    let t = strip_plus(s);
    if t.len() > 0 && all_digits(t) && digits_value(t) <= u32::MAX {
        Some(digits_value(t) as u32)
    } else {
        None
    }
}

/// What `str::parse::<i32>` returns: an optional sign, then at least one
/// digit, the value fitting in 32 signed bits.
pub open spec fn parse_i32_spec(s: Seq<char>) -> Option<i32> {
    if s.len() > 0 && s[0] == '-' {
        let t = s.drop_first();
        if t.len() > 0 && all_digits(t) && digits_value(t) <= 0x8000_0000 {
            Some((-digits_value(t)) as i32)
        } else {
            None
        }
    } else {
        let t = strip_plus(s);
        if t.len() > 0 && all_digits(t) && digits_value(t) <= i32::MAX {
            Some(digits_value(t) as i32)
        } else {
            None
        }
    }
}

/// Index of the first `c` in `s`, or -1.
pub open spec fn first_index(s: Seq<char>, c: char) -> int
    decreases s.len(),
{
    if s.len() == 0 {
        -1
    } else if s[0] == c {
        0
    } else {
        let r = first_index(s.drop_first(), c);
        if r < 0 {
            -1
        } else {
            r + 1
        }
    }
}

/// `str::split_once` on a character: the parts before and after its first
/// occurrence.
pub open spec fn split_once(s: Seq<char>, c: char) -> Option<(Seq<char>, Seq<char>)> {
    let i = first_index(s, c);
    if i < 0 {
        None
    } else {
        Some((s.take(i), s.skip(i + 1)))
    }
}

/// Hundredths carried by the fraction digits `f`, rounded half up.
pub open spec fn frac_hundredths(f: Seq<char>) -> nat {
    ((if f.len() > 0 { digit_value(f[0]) * 10 } else { 0int }) + (if f.len() > 1 {
        digit_value(f[1])
    } else {
        0int
    }) + (if f.len() > 2 && digit_value(f[2]) >= 5 {
        1int
    } else {
        0int
    })) as nat
}

/// The part of a mantissa before its first `.` (all of it when it has none).
pub open spec fn int_part(m: Seq<char>) -> Seq<char> {
    let d = first_index(m, '.');
    if d < 0 {
        m
    } else {
        m.take(d)
    }
}

/// The part of a mantissa after its first `.` (nothing when it has none).
pub open spec fn frac_part(m: Seq<char>) -> Seq<char> {
    let d = first_index(m, '.');
    if d < 0 {
        Seq::<char>::empty()
    } else {
        m.skip(d + 1)
    }
}

/// Digits around at most one `.`, at least one digit: `60`, `59.94`, `1.`, `.5`.
pub open spec fn mantissa_ok(m: Seq<char>) -> bool {
    &&& int_part(m).len() + frac_part(m).len() > 0
    &&& all_digits(int_part(m))
    &&& all_digits(frac_part(m))
}

/// Index of the first exponent marker (`e` or `E`) in `t`, or -1.
pub open spec fn exp_index(t: Seq<char>) -> int {
    let a = first_index(t, 'e');
    let b = first_index(t, 'E');
    if a < 0 {
        b
    } else if b < 0 || a < b {
        a
    } else {
        b
    }
}

/// Whether the text of an exponent starts with `-`.
pub open spec fn exp_negative(x: Seq<char>) -> bool {
    x.len() > 0 && x[0] == '-'
}

/// The digits of an exponent: its text without one leading sign.
pub open spec fn exp_digits(x: Seq<char>) -> Seq<char> {
    if x.len() > 0 && (x[0] == '-' || x[0] == '+') {
        x.drop_first()
    } else {
        x
    }
}

/// The value of the text of an exponent: an optional sign, then at least one
/// digit.
pub open spec fn exponent_value(x: Seq<char>) -> Option<int> {
    let d = exp_digits(x);
    if d.len() > 0 && all_digits(d) {
        Some(
            if exp_negative(x) {
                -digits_value(d)
            } else {
                digits_value(d) as int
            },
        )
    } else {
        None
    }
}

pub open spec fn pow10(n: nat) -> nat
    decreases n,
{
    if n == 0 {
        1
    } else {
        10 * pow10((n - 1) as nat)
    }
}

/// The digits `s` read as a number of which the first `q` digits are whole
/// and the rest a fraction (`q` may lie outside `s`: zeros fill in), rounded
/// half up to a whole number.
pub open spec fn shifted_round(s: Seq<char>, q: int) -> nat {
    if q < 0 {
        0
    } else if q == 0 {
        if s.len() > 0 && digit_value(s[0]) >= 5 {
            1
        } else {
            0
        }
    } else if q <= s.len() {
        digits_value(s.take(q)) + (if q < s.len() && digit_value(s[q]) >= 5 {
            1nat
        } else {
            0nat
        })
    } else {
        digits_value(s) * pow10((q - s.len()) as nat)
    }
}

/// The hundredths that an unsigned number `t` writes, rounded half up: a
/// mantissa, then optionally `e` or `E` and a signed exponent. `None` where
/// `t` has another shape.
pub open spec fn hundredths_value(t: Seq<char>) -> Option<nat> {
    let k = exp_index(t);
    let m = if k < 0 {
        t
    } else {
        t.take(k)
    };
    let ip = int_part(m);
    let fp = frac_part(m);
    if !mantissa_ok(m) {
        None
    } else if k < 0 {
        Some(digits_value(ip) * 100 + frac_hundredths(fp))
    } else {
        match exponent_value(t.skip(k + 1)) {
            Some(e) => Some(shifted_round(ip + fp, ip.len() + e + 2)),
            None => None,
        }
    }
}

/// `h` where it fits in 32 bits.
pub open spec fn fit_u32(h: nat) -> Option<u32> {
    if h <= u32::MAX {
        Some(h as u32)
    } else {
        None
    }
}

/// A non-negative number such as `60`, `59.94`, `1.`, `.5` or `6e1`
/// (optionally with a leading `+`), as a count of hundredths rounded half
/// up; `None` where the text has another shape or the count does not fit in
/// 32 bits.
pub open spec fn parse_hundredths_spec(s: Seq<char>) -> Option<u32> {
    match hundredths_value(strip_plus(s)) {
        Some(h) => fit_u32(h),
        None => None,
    }
}

proof fn lemma_pow10_mono(a: nat, b: nat)
    requires
        a <= b,
    ensures
        1 <= pow10(a) <= pow10(b),
    decreases b,
{
    if b > 0 {
        if a < b {
            lemma_pow10_mono(a, (b - 1) as nat);
        } else {
            lemma_pow10_mono((b - 1) as nat, (b - 1) as nat);
        }
    }
}

proof fn lemma_pow10_big(n: nat)
    requires
        n >= 11,
    ensures
        pow10(n) >= 100_000_000_000,
{
    reveal_with_fuel(pow10, 12);
    assert(pow10(11) == 100_000_000_000);
    lemma_pow10_mono(11, n);
}

pub proof fn lemma_digits_prefix(t: Seq<char>, k: int)
    requires
        0 <= k <= t.len(),
    ensures
        digits_value(t.take(k)) <= digits_value(t),
    decreases t.len(),
{
    if k < t.len() {
        lemma_digits_prefix(t.drop_last(), k);
        assert(t.drop_last().take(k) =~= t.take(k));
    } else {
        assert(t.take(k) =~= t);
    }
}

pub proof fn lemma_first_index(s: Seq<char>, c: char, i: int)
    requires
        0 <= i <= s.len(),
        forall|j: int| 0 <= j < i ==> s[j] != c,
        i < s.len() ==> s[i] == c,
    ensures
        first_index(s, c) == (if i == s.len() { -1 } else { i }),
    decreases s.len(),
{
    if s.len() > 0 && i > 0 {
        lemma_first_index(s.drop_first(), c, i - 1);
    }
}

/// Reads the digits `v[lo..hi]` (possibly none), giving their value when all
/// are digits and the value is at most `limit`.
pub fn scan_digits(v: &Vec<char>, lo: usize, hi: usize, limit: u64) -> (r: Option<u64>)
    requires
        lo <= hi <= v.len(),
        limit <= u32::MAX,
    ensures
        r == (if all_digits(v@.subrange(lo as int, hi as int)) && digits_value(
            v@.subrange(lo as int, hi as int),
        ) <= limit {
            Some(digits_value(v@.subrange(lo as int, hi as int)) as u64)
        } else {
            None::<u64>
        }),
{
    let ghost full = v@.subrange(lo as int, hi as int);
    let mut acc: u64 = 0;
    let mut i = lo;
    let mut over = false;
    while i < hi
        invariant
            lo <= i <= hi <= v.len(),
            limit <= u32::MAX,
            full == v@.subrange(lo as int, hi as int),
            all_digits(v@.subrange(lo as int, i as int)),
            !over ==> acc == digits_value(v@.subrange(lo as int, i as int)) && acc <= limit,
            over ==> digits_value(v@.subrange(lo as int, i as int)) > limit,
        decreases hi - i,
    {
        let c = v[i];
        if !('0' <= c && c <= '9') {
            assert(full[i - lo] == c);
            return None;
        }
        let ghost prev = v@.subrange(lo as int, i as int);
        let ghost next = v@.subrange(lo as int, i + 1);
        assert(next.drop_last() =~= prev);
        if !over {
            let d: u64 = (c as u64) - 48;
            acc = acc * 10 + d;
            if acc > limit {
                over = true;
            }
        }
        i = i + 1;
        assert(all_digits(next)) by {
            assert forall|j: int| 0 <= j < next.len() implies is_digit(#[trigger] next[j]) by {
                if j < prev.len() {
                    assert(next[j] == prev[j]);
                }
            }
        }
    }
    if over {
        proof {
            lemma_digits_prefix(full, full.len() as int);
        }
        None
    } else {
        Some(acc)
    }
}

/// Position of the first `c` within `v[lo..hi]`.
pub fn find_char(v: &Vec<char>, lo: usize, hi: usize, c: char) -> (r: Option<usize>)
    requires
        lo <= hi <= v.len(),
    ensures
        match r {
            Some(k) => lo <= k < hi && first_index(v@.subrange(lo as int, hi as int), c) == k - lo,
            None => first_index(v@.subrange(lo as int, hi as int), c) == -1,
        },
{
    let ghost s = v@.subrange(lo as int, hi as int);
    let mut i = lo;
    while i < hi
        invariant
            lo <= i <= hi <= v.len(),
            s == v@.subrange(lo as int, hi as int),
            forall|j: int| 0 <= j < i - lo ==> s[j] != c,
        decreases hi - i,
    {
        if v[i] == c {
            proof {
                lemma_first_index(s, c, i - lo);
            }
            return Some(i);
        }
        i = i + 1;
    }
    proof {
        lemma_first_index(s, c, s.len() as int);
    }
    None
}

} // verus!

verus! {

/// Where the part of `v[lo..hi]` after one leading `+` starts.
fn skip_plus(v: &Vec<char>, lo: usize, hi: usize) -> (start: usize)
    requires
        lo <= hi <= v.len(),
    ensures
        lo <= start <= hi,
        strip_plus(v@.subrange(lo as int, hi as int)) == v@.subrange(start as int, hi as int),
{
    if lo < hi && v[lo] == '+' {
        assert(v@.subrange(lo as int, hi as int).drop_first() =~= v@.subrange(lo + 1, hi as int));
        lo + 1
    } else {
        lo
    }
}

/// `str::parse::<u32>` on `v[lo..hi]`.
pub fn parse_u32_in(v: &Vec<char>, lo: usize, hi: usize) -> (r: Option<u32>)
    requires
        lo <= hi <= v.len(),
    ensures
        r == parse_u32_spec(v@.subrange(lo as int, hi as int)),
{
    let start = skip_plus(v, lo, hi);
    if start == hi {
        return None;
    }
    match scan_digits(v, start, hi, 0xFFFF_FFFF) {
        Some(n) => Some(n as u32),
        None => None,
    }
}

/// `str::parse::<i32>` on `v[lo..hi]`.
pub fn parse_i32_in(v: &Vec<char>, lo: usize, hi: usize) -> (r: Option<i32>)
    requires
        lo <= hi <= v.len(),
    ensures
        r == parse_i32_spec(v@.subrange(lo as int, hi as int)),
{
    if lo < hi && v[lo] == '-' {
        assert(v@.subrange(lo as int, hi as int).drop_first() =~= v@.subrange(lo + 1, hi as int));
        if lo + 1 == hi {
            return None;
        }
        match scan_digits(v, lo + 1, hi, 0x8000_0000) {
            Some(n) => {
                let r: i64 = -(n as i64);
                Some(r as i32)
            },
            None => None,
        }
    } else {
        let start = skip_plus(v, lo, hi);
        if start == hi {
            return None;
        }
        match scan_digits(v, start, hi, 0x7FFF_FFFF) {
            Some(n) => Some(n as i32),
            None => None,
        }
    }
}

/// Where the exponent marker (`e` or `E`) of `v[lo..hi]` stands, if anywhere.
fn exp_marker(v: &Vec<char>, lo: usize, hi: usize) -> (r: Option<usize>)
    requires
        lo <= hi <= v.len(),
    ensures
        match r {
            Some(k) => lo <= k < hi && exp_index(v@.subrange(lo as int, hi as int)) == k - lo,
            None => exp_index(v@.subrange(lo as int, hi as int)) == -1,
        },
{
    let a = find_char(v, lo, hi, 'e');
    let b = find_char(v, lo, hi, 'E');
    match (a, b) {
        (Some(x), Some(y)) => if x < y {
            Some(x)
        } else {
            Some(y)
        },
        (Some(x), None) => Some(x),
        (None, y) => y,
    }
}

/// Splits the mantissa `v[lo..hi]` at its first `.`: the integer part is
/// `v[lo..r.0]`, the fraction `v[r.1..hi]`.
fn split_dot(v: &Vec<char>, lo: usize, hi: usize) -> (r: (usize, usize))
    requires
        lo <= hi <= v.len(),
    ensures
        lo <= r.0 <= r.1 <= hi,
        v@.subrange(lo as int, r.0 as int) == int_part(v@.subrange(lo as int, hi as int)),
        v@.subrange(r.1 as int, hi as int) == frac_part(v@.subrange(lo as int, hi as int)),
{
    let ghost m = v@.subrange(lo as int, hi as int);
    match find_char(v, lo, hi, '.') {
        Some(k) => {
            assert(m.take(k - lo) =~= v@.subrange(lo as int, k as int));
            assert(m.skip(k - lo + 1) =~= v@.subrange(k + 1, hi as int));
            (k, k + 1)
        },
        None => {
            assert(v@.subrange(hi as int, hi as int) =~= Seq::<char>::empty());
            assert(m =~= v@.subrange(lo as int, hi as int));
            (hi, hi)
        },
    }
}

/// Appends `v[lo..hi]` to `out`.
fn push_range(out: &mut Vec<char>, v: &Vec<char>, lo: usize, hi: usize)
    requires
        lo <= hi <= v.len(),
    ensures
        final(out)@ == old(out)@ + v@.subrange(lo as int, hi as int),
{
    let ghost init = out@;
    let mut i = lo;
    while i < hi
        invariant
            lo <= i <= hi <= v.len(),
            out@ == init + v@.subrange(lo as int, i as int),
        decreases hi - i,
    {
        out.push(v[i]);
        assert(v@.subrange(lo as int, i + 1) =~= v@.subrange(lo as int, i as int).push(v@[i as int]));
        i = i + 1;
    }
}

/// The value of the digits `v[lo..hi]`, or `cap` where it is at least `cap`.
fn scan_digits_capped(v: &Vec<char>, lo: usize, hi: usize, cap: u128) -> (r: u128)
    requires
        lo <= hi <= v.len(),
        all_digits(v@.subrange(lo as int, hi as int)),
        cap <= 0x1_0000_0000_0000_0000_0000,
    ensures
        r == (if digits_value(v@.subrange(lo as int, hi as int)) < cap {
            digits_value(v@.subrange(lo as int, hi as int))
        } else {
            cap as nat
        }),
{
    let ghost full = v@.subrange(lo as int, hi as int);
    let mut acc: u128 = 0;
    let mut i = lo;
    assert(v@.subrange(lo as int, lo as int) =~= Seq::<char>::empty());
    while i < hi
        invariant
            lo <= i <= hi <= v.len(),
            cap <= 0x1_0000_0000_0000_0000_0000,
            full == v@.subrange(lo as int, hi as int),
            all_digits(full),
            acc == (if digits_value(v@.subrange(lo as int, i as int)) < cap {
                digits_value(v@.subrange(lo as int, i as int))
            } else {
                cap as nat
            }),
        decreases hi - i,
    {
        let ghost prev = v@.subrange(lo as int, i as int);
        let ghost next = v@.subrange(lo as int, i + 1);
        assert(next.drop_last() =~= prev);
        assert(full[i - lo] == v@[i as int]);
        assert(is_digit(v@[i as int]));
        let d: u128 = ((v[i] as u64) - 48) as u128;
        assert(digits_value(next) == digits_value(prev) * 10 + d);
        if acc < cap {
            let nv = acc * 10 + d;
            acc = if nv < cap {
                nv
            } else {
                cap
            };
        }
        i = i + 1;
    }
    acc
}

/// The exponent written in `v[lo..hi]`: its sign, and its magnitude capped
/// at `cap`.
fn exponent_in(v: &Vec<char>, lo: usize, hi: usize, cap: u128) -> (r: Option<(bool, u128)>)
    requires
        lo <= hi <= v.len(),
        cap <= 0x1_0000_0000_0000_0000_0000,
    ensures
        r is None <==> exponent_value(v@.subrange(lo as int, hi as int)) is None,
        match r {
            Some((neg, m)) => {
                let x = v@.subrange(lo as int, hi as int);
                &&& neg == exp_negative(x)
                &&& m == (if digits_value(exp_digits(x)) < cap {
                    digits_value(exp_digits(x))
                } else {
                    cap as nat
                })
            },
            None => true,
        },
{
    let ghost x = v@.subrange(lo as int, hi as int);
    if lo == hi {
        return None;
    }
    let neg = v[lo] == '-';
    let dlo = if v[lo] == '-' || v[lo] == '+' {
        lo + 1
    } else {
        lo
    };
    assert(x[0] == v@[lo as int]);
    assert(exp_digits(x) =~= v@.subrange(dlo as int, hi as int));
    if dlo == hi {
        return None;
    }
    if !all_digits_in(v, dlo, hi) {
        return None;
    }
    Some((neg, scan_digits_capped(v, dlo, hi, cap)))
}

/// `shifted_round(s, q)` where it fits in 32 bits.
fn round_shifted(s: &Vec<char>, q: i128) -> (r: Option<u32>)
    requires
        s.len() > 0,
        all_digits(s@),
    ensures
        r == fit_u32(shifted_round(s@, q as int)),
{
    let n = s.len();
    if q < 0 {
        return Some(0);
    }
    if q == 0 {
        assert(is_digit(s@[0]));
        return if s[0] >= '5' {
            Some(1)
        } else {
            Some(0)
        };
    }
    if q <= n as i128 {
        let qq = q as usize;
        assert(s@.subrange(0, qq as int) =~= s@.take(qq as int));
        assert(all_digits(s@.take(qq as int))) by {
            assert forall|j: int| 0 <= j < qq implies is_digit(#[trigger] s@.take(qq as int)[j]) by {
                assert(s@.take(qq as int)[j] == s@[j]);
            }
        }
        match scan_digits(s, 0, qq, 0xFFFF_FFFF) {
            None => None,
            Some(x) => {
                if qq < n {
                    assert(is_digit(s@[qq as int]));
                }
                let up: u64 = if qq < n && s[qq] >= '5' {
                    1
                } else {
                    0
                };
                let tot = x + up;
                if tot > 0xFFFF_FFFF {
                    None
                } else {
                    Some(tot as u32)
                }
            },
        }
    } else {
        assert(s@.subrange(0, n as int) =~= s@);
        let m: u128 = (q - n as i128) as u128;
        let ghost target = shifted_round(s@, q as int);
        assert(target == digits_value(s@) * pow10(m as nat));
        match scan_digits(s, 0, n, 0xFFFF_FFFF) {
            None => {
                proof {
                    lemma_pow10_mono(0, m as nat);
                    let dv = digits_value(s@);
                    let p = pow10(m as nat);
                    assert(dv * p >= dv) by (nonlinear_arith)
                        requires
                            p >= 1,
                            dv >= 0,
                    ;
                }
                None
            },
            Some(x) => {
                assert(x == digits_value(s@));
                assert(target == x * pow10(m as nat));
                if x == 0 {
                    assert(target == 0) by (nonlinear_arith)
                        requires
                            target == x * pow10(m as nat),
                            x == 0,
                    ;
                    return Some(0);
                }
                let mut acc: u64 = x;
                let mut j: u128 = 0;
                assert(pow10(0) == 1);
                assert(x * pow10(0) == x);
                while j < m
                    invariant
                        1 <= x <= u32::MAX,
                        j <= m,
                        acc == x * pow10(j as nat),
                        acc <= u32::MAX,
                        target == x * pow10(m as nat),
                        target == shifted_round(s@, q as int),
                    decreases m - j,
                {
                    let nxt = acc * 10;
                    proof {
                        let p0 = pow10(j as nat);
                        assert(pow10((j + 1) as nat) == 10 * p0);
                        assert(x * (10 * p0) == 10 * (x * p0)) by (nonlinear_arith);
                    }
                    if nxt > 0xFFFF_FFFF {
                        proof {
                            lemma_pow10_mono((j + 1) as nat, m as nat);
                            let pj = pow10((j + 1) as nat);
                            let pm = pow10(m as nat);
                            assert(x * pm >= x * pj) by (nonlinear_arith)
                                requires
                                    pm >= pj,
                                    x >= 0,
                            ;
                            assert(x * pj == nxt);
                            assert(target > u32::MAX);
                        }
                        return None;
                    }
                    acc = nxt;
                    j = j + 1;
                }
                Some(acc as u32)
            },
        }
    }
}

/// The hundredths written by the mantissa digits `v[lo..ip_hi]` and
/// `v[fp_lo..mhi]` (integer and fraction) scaled by the exponent written
/// after the marker at `mhi`: whether that exponent reads as one, and the
/// count where it fits in 32 bits.
fn scaled_hundredths_in(
    v: &Vec<char>,
    lo: usize,
    ip_hi: usize,
    fp_lo: usize,
    mhi: usize,
    hi: usize,
) -> (r: (bool, Option<u32>))
    requires
        lo <= ip_hi <= fp_lo <= mhi < hi <= v.len(),
        ip_hi - lo + mhi - fp_lo > 0,
        all_digits(v@.subrange(lo as int, ip_hi as int)),
        all_digits(v@.subrange(fp_lo as int, mhi as int)),
    ensures
        ({
            let ip = v@.subrange(lo as int, ip_hi as int);
            let fp = v@.subrange(fp_lo as int, mhi as int);
            match exponent_value(v@.subrange(mhi + 1, hi as int)) {
                Some(e) => r.0 && r.1 == fit_u32(shifted_round(ip + fp, ip.len() + e + 2)),
                None => !r.0 && r.1 is None,
            }
        }),
{
    let ghost ip = v@.subrange(lo as int, ip_hi as int);
    let ghost fp = v@.subrange(fp_lo as int, mhi as int);
    let cap: u128 = (mhi - lo) as u128 + 16;
    let (neg, e) = match exponent_in(v, mhi + 1, hi, cap) {
        Some(p) => p,
        None => {
            return (false, None);
        },
    };
    let mut digs: Vec<char> = Vec::new();
    push_range(&mut digs, v, lo, ip_hi);
    push_range(&mut digs, v, fp_lo, mhi);
    assert(digs@ =~= ip + fp);
    assert(all_digits(digs@)) by {
        assert forall|j: int| 0 <= j < digs@.len() implies is_digit(#[trigger] digs@[j]) by {
            if j < ip.len() {
                assert(digs@[j] == ip[j]);
            } else {
                assert(digs@[j] == fp[j - ip.len()]);
            }
        }
    }
    let ghost q = ip.len() + exponent_value(v@.subrange(mhi + 1, hi as int))->0 + 2;
    if e == cap {
        if neg {
            assert(q < 0);
            return (true, Some(0));
        }
        let n = digs.len();
        assert(digs@.subrange(0, n as int) =~= digs@);
        assert(q - digs@.len() >= 11);
        let small = match scan_digits(&digs, 0, n, 0xFFFF_FFFF) {
            Some(x) => x == 0,
            None => false,
        };
        proof {
            let dv = digits_value(digs@);
            let p = pow10((q - digs@.len()) as nat);
            if small {
                assert(dv * p == 0) by (nonlinear_arith)
                    requires
                        dv == 0,
                ;
            } else {
                lemma_pow10_big((q - digs@.len()) as nat);
                assert(dv * p >= 100_000_000_000) by (nonlinear_arith)
                    requires
                        p >= 100_000_000_000,
                        dv >= 1,
                ;
            }
        }
        if small {
            (true, Some(0))
        } else {
            (true, None)
        }
    } else {
        let q_exec: i128 = if neg {
            (ip_hi - lo) as i128 + 2 - (e as i128)
        } else {
            (ip_hi - lo) as i128 + 2 + (e as i128)
        };
        assert(q_exec == q);
        (true, round_shifted(&digs, q_exec))
    }
}

/// What the unsigned number in `v[lo..hi]` writes as hundredths: whether it
/// has the shape of one, and the count where it fits in 32 bits.
fn hundredths_in(v: &Vec<char>, lo: usize, hi: usize) -> (r: (bool, Option<u32>))
    requires
        lo <= hi <= v.len(),
    ensures
        r.0 == hundredths_value(v@.subrange(lo as int, hi as int)) is Some,
        r.1 == match hundredths_value(v@.subrange(lo as int, hi as int)) {
            Some(h) => fit_u32(h),
            None => None,
        },
{
    let ghost t = v@.subrange(lo as int, hi as int);
    let mark = exp_marker(v, lo, hi);
    let mhi = match mark {
        Some(k) => k,
        None => hi,
    };
    let ghost m = if exp_index(t) < 0 {
        t
    } else {
        t.take(exp_index(t))
    };
    assert(m =~= v@.subrange(lo as int, mhi as int));
    let ghost ip = int_part(m);
    let ghost fp = frac_part(m);
    let (ip_hi, fp_lo) = split_dot(v, lo, mhi);
    if ip_hi == lo && fp_lo == mhi {
        return (false, None);
    }
    if !all_digits_in(v, lo, ip_hi) || !all_digits_in(v, fp_lo, mhi) {
        return (false, None);
    }
    assert(mantissa_ok(m));
    match mark {
        None => {
            assert(hundredths_value(t) == Some(digits_value(ip) * 100 + frac_hundredths(fp)));
            let whole = match scan_digits(v, lo, ip_hi, 0xFFFF_FFFF) {
                Some(n) => n,
                None => {
                    assert(digits_value(ip) > u32::MAX);
                    return (true, None);
                },
            };
            assert(whole == digits_value(ip));
            let n = mhi - fp_lo;
            let mut frac: u64 = 0;
            if n > 0 {
                frac = ((v[fp_lo] as u64) - 48) * 10;
            }
            if n > 1 {
                frac = frac + ((v[fp_lo + 1] as u64) - 48);
            }
            if n > 2 && (v[fp_lo + 2] as u64) - 48 >= 5 {
                frac = frac + 1;
            }
            assert(frac == frac_hundredths(fp));
            let total = whole * 100 + frac;
            assert(hundredths_value(v@.subrange(lo as int, hi as int)) == Some(total as nat));
            if total > 0xFFFF_FFFF {
                (true, None)
            } else {
                (true, Some(total as u32))
            }
        },
        Some(k) => {
            assert(t.skip(k - lo + 1) =~= v@.subrange(k + 1, hi as int));
            scaled_hundredths_in(v, lo, ip_hi, fp_lo, mhi, hi)
        },
    }
}

/// A non-negative number in `v[lo..hi]` as hundredths (see
/// `parse_hundredths_spec`).
pub fn parse_hundredths_in(v: &Vec<char>, lo: usize, hi: usize) -> (r: Option<u32>)
    requires
        lo <= hi <= v.len(),
    ensures
        r == parse_hundredths_spec(v@.subrange(lo as int, hi as int)),
{
    let start = skip_plus(v, lo, hi);
    hundredths_in(v, start, hi).1
}

/// Whether `v[lo..hi]` holds only digits.
pub fn all_digits_in(v: &Vec<char>, lo: usize, hi: usize) -> (r: bool)
    requires
        lo <= hi <= v.len(),
    ensures
        r == all_digits(v@.subrange(lo as int, hi as int)),
{
    let ghost s = v@.subrange(lo as int, hi as int);
    let mut i = lo;
    while i < hi
        invariant
            lo <= i <= hi <= v.len(),
            s == v@.subrange(lo as int, hi as int),
            forall|j: int| 0 <= j < i - lo ==> is_digit(#[trigger] s[j]),
        decreases hi - i,
    {
        if !('0' <= v[i] && v[i] <= '9') {
            assert(s[i - lo] == v@[i as int]);
            return false;
        }
        i = i + 1;
    }
    true
}

/// `s` with every trailing `Hz` removed (`str::trim_end_matches("Hz")`).
pub open spec fn trim_hz(s: Seq<char>) -> Seq<char>
    decreases s.len(),
{
    if s.len() >= 2 && s[s.len() - 2] == 'H' && s[s.len() - 1] == 'z' {
        trim_hz(s.take(s.len() - 2))
    } else {
        s
    }
}

/// End of `v[lo..hi]` once trailing `Hz`s are removed.
pub fn trim_hz_end(v: &Vec<char>, lo: usize, hi: usize) -> (end: usize)
    requires
        lo <= hi <= v.len(),
    ensures
        lo <= end <= hi,
        v@.subrange(lo as int, end as int) == trim_hz(v@.subrange(lo as int, hi as int)),
{
    let mut end = hi;
    while end - lo >= 2 && v[end - 2] == 'H' && v[end - 1] == 'z'
        invariant
            lo <= end <= hi <= v.len(),
            trim_hz(v@.subrange(lo as int, end as int)) == trim_hz(v@.subrange(lo as int, hi as int)),
        decreases end,
    {
        assert(v@.subrange(lo as int, end as int).take(end - lo - 2) =~= v@.subrange(
            lo as int,
            end - 2,
        ));
        end = end - 2;
    }
    end
}

} // verus!

verus! {

/// Whether `n` occurs in `h` as a contiguous run.
pub open spec fn contains_seq(h: Seq<char>, n: Seq<char>) -> bool {
    exists|i: int| 0 <= i && i + n.len() <= h.len() && #[trigger] h.subrange(i, i + n.len()) == n
}

fn matches_at(h: &Vec<char>, n: &Vec<char>, i: usize) -> (r: bool)
    requires
        i + n.len() <= h.len(),
    ensures
        r == (h@.subrange(i as int, i + n.len()) == n@),
{
    let mut k: usize = 0;
    while k < n.len()
        invariant
            k <= n.len(),
            i + n.len() <= h.len(),
            forall|j: int| 0 <= j < k ==> h@[i + j] == n@[j],
        decreases n.len() - k,
    {
        if h[i + k] != n[k] {
            assert(h@.subrange(i as int, i + n.len())[k as int] != n@[k as int]);
            return false;
        }
        k = k + 1;
    }
    assert(h@.subrange(i as int, i + n.len()) =~= n@);
    true
}

/// Whether `hay` begins with `prefix` (`str::starts_with`).
pub fn starts_with(hay: &str, prefix: &str) -> (r: bool)
    ensures
        r == (prefix@.len() <= hay@.len() && hay@.take(prefix@.len() as int) == prefix@),
{
    let h = chars_of(hay);
    let n = chars_of(prefix);
    if n.len() > h.len() {
        return false;
    }
    let r = matches_at(&h, &n, 0);
    assert(h@.subrange(0, n@.len() as int) =~= hay@.take(prefix@.len() as int));
    r
}

/// Whether `needle` occurs in `hay` (`str::contains`).
pub fn str_contains(hay: &str, needle: &str) -> (r: bool)
    ensures
        r == contains_seq(hay@, needle@),
{
    let h = chars_of(hay);
    let n = chars_of(needle);
    if n.len() > h.len() {
        return false;
    }
    if n.len() == 0 {
        assert(hay@.subrange(0, 0int + needle@.len()) =~= needle@);
        return true;
    }
    let mut i: usize = 0;
    while h.len() - i >= n.len()
        invariant
            i <= h.len(),
            1 <= n.len() <= h.len(),
            h@ == hay@,
            n@ == needle@,
            forall|j: int| 0 <= j < i ==> #[trigger] h@.subrange(j, j + n.len()) != n@,
        decreases h.len() - i,
    {
        if matches_at(&h, &n, i) {
            return true;
        }
        i = i + 1;
    }
    assert forall|j: int| 0 <= j && j + n.len() <= h.len() implies #[trigger] h@.subrange(
        j,
        j + n.len(),
    ) != n@ by {}
    false
}

/// What `str::to_lowercase` returns for a string: its Unicode lowercase
/// mapping.
pub uninterp spec fn unicode_lowercase(s: Seq<char>) -> Seq<char>;

/// `str::to_lowercase`; the result is named by `unicode_lowercase`.
#[verifier::external_body]
pub(crate) fn to_lowercase(s: &str) -> (r: String)
    ensures
        r@ == unicode_lowercase(s@),
{
    s.to_lowercase()
}

/// What `char::is_alphanumeric` says of a character: Unicode's Alphabetic
/// or Numeric property.
pub uninterp spec fn unicode_alphanumeric(c: char) -> bool;

/// `char::is_alphanumeric`; the result is named by `unicode_alphanumeric`.
#[verifier::external_body]
pub(crate) fn is_alphanumeric(c: char) -> (r: bool)
    ensures
        r == unicode_alphanumeric(c),
{
    c.is_alphanumeric()
}

/// Unicode's White_Space characters, the ones `str::trim` removes.
pub open spec fn is_white_space(c: char) -> bool {
    let u = c as int;
    ||| 0x9 <= u <= 0xD
    ||| u == 0x20
    ||| u == 0x85
    ||| u == 0xA0
    ||| u == 0x1680
    ||| 0x2000 <= u <= 0x200A
    ||| u == 0x2028
    ||| u == 0x2029
    ||| u == 0x202F
    ||| u == 0x205F
    ||| u == 0x3000
}

/// `s` without its leading white space.
pub open spec fn trim_start(s: Seq<char>) -> Seq<char>
    decreases s.len(),
{
    if s.len() > 0 && is_white_space(s[0]) {
        trim_start(s.drop_first())
    } else {
        s
    }
}

/// `s` without its trailing white space.
pub open spec fn trim_end(s: Seq<char>) -> Seq<char>
    decreases s.len(),
{
    if s.len() > 0 && is_white_space(s.last()) {
        trim_end(s.drop_last())
    } else {
        s
    }
}

/// What `str::trim` leaves of a string: it without leading and trailing
/// white space.
pub open spec fn trimmed(s: Seq<char>) -> Seq<char> {
    trim_end(trim_start(s))
}

/// What `{:?}` writes for a string: the string in double quotes, with
/// quotes, backslashes and characters that do not print escaped.
pub uninterp spec fn debug_quoted(s: Seq<char>) -> Seq<char>;

/// `format!("{:?}", s)`: the `Debug` rendering of a string.
#[verifier::external_body]
pub(crate) fn debug_quote(s: &str) -> (r: String)
    ensures
        r@ == debug_quoted(s@),
{
    format!("{:?}", s)
}

/// Whether `c` is one of Unicode's White_Space characters.
pub fn white_space(c: char) -> (r: bool)
    ensures
        r == is_white_space(c),
{
    ('\u{9}' <= c && c <= '\u{d}') || c == ' ' || c == '\u{85}' || c == '\u{a0}' || c
        == '\u{1680}' || ('\u{2000}' <= c && c <= '\u{200a}') || c == '\u{2028}' || c
        == '\u{2029}' || c == '\u{202f}' || c == '\u{205f}' || c == '\u{3000}'
}

/// The string without leading and trailing White_Space characters, as
/// `str::trim` leaves it.
pub fn trim(s: &str) -> (r: String)
    ensures
        r@ == trimmed(s@),
{
    let v = chars_of(s);
    let n = v.len();
    assert(v@.subrange(0, n as int) =~= v@);
    let mut lo: usize = 0;
    while lo < n && white_space(v[lo])
        invariant
            lo <= n == v.len(),
            trim_start(v@) == trim_start(v@.subrange(lo as int, n as int)),
        decreases n - lo,
    {
        assert(v@.subrange(lo as int, n as int).drop_first() =~= v@.subrange(lo + 1, n as int));
        lo = lo + 1;
    }
    let mut hi: usize = n;
    while hi > lo && white_space(v[hi - 1])
        invariant
            lo <= hi <= n == v.len(),
            trim_start(v@) == v@.subrange(lo as int, n as int),
            trim_end(v@.subrange(lo as int, n as int)) == trim_end(
                v@.subrange(lo as int, hi as int),
            ),
        decreases hi - lo,
    {
        assert(v@.subrange(lo as int, hi as int).drop_last() =~= v@.subrange(
            lo as int,
            hi - 1,
        ));
        hi = hi - 1;
    }
    string_of(&v, lo, hi)
}

} // verus!

verus! {

pub proof fn lemma_dec_nat(n: nat)
    ensures
        all_digits(dec_nat(n)),
        digits_value(dec_nat(n)) == n,
        dec_nat(n).len() >= 1,
    decreases n,
{
    if n < 10 {
        assert(dec_nat(n).drop_last() =~= Seq::<char>::empty());
        assert(digit_value(digit_char(n as int)) == n);
        assert(digits_value(dec_nat(n)) == digits_value(dec_nat(n).drop_last()) * 10 + digit_value(
            dec_nat(n).last(),
        ));
    } else {
        lemma_dec_nat(n / 10);
        let d = dec_nat(n / 10);
        assert(dec_nat(n).drop_last() =~= d);
        assert(dec_nat(n).last() == digit_char((n % 10) as int));
        assert(digit_value(digit_char((n % 10) as int)) == n % 10);
        assert((n / 10) * 10 + n % 10 == n);
        assert(digits_value(dec_nat(n)) == digits_value(d) * 10 + digit_value(dec_nat(n).last()));
        assert forall|i: int| 0 <= i < dec_nat(n).len() implies is_digit(#[trigger] dec_nat(n)[i]) by {
            if i < d.len() {
                assert(dec_nat(n)[i] == d[i]);
            }
        }
    }
}

/// Parsing the decimal rendering of a `u32` gives it back.
pub proof fn lemma_parse_dec_u32(n: u32)
    ensures
        parse_u32_spec(dec_nat(n as nat)) == Some(n),
{
    lemma_dec_nat(n as nat);
    assert(is_digit(dec_nat(n as nat)[0]));
}

/// Digits and dots carry no exponent marker.
proof fn lemma_no_exponent(s: Seq<char>)
    requires
        forall|j: int| 0 <= j < s.len() ==> is_digit(#[trigger] s[j]) || s[j] == '.',
    ensures
        exp_index(s) == -1,
{
    lemma_first_index(s, 'e', s.len() as int);
    lemma_first_index(s, 'E', s.len() as int);
}

/// Parsing a two-decimal rendering gives back the hundredths.
pub proof fn lemma_parse_fixed2(h: u32)
    ensures
        parse_hundredths_spec(fixed2(h as nat)) == Some(h),
{
    let a = dec_nat((h / 100) as nat);
    lemma_dec_nat((h / 100) as nat);
    let f = fixed2(h as nat);
    assert(is_digit(f[0]));
    assert(strip_plus(f) == f);
    assert forall|j: int| 0 <= j < f.len() implies is_digit(#[trigger] f[j]) || f[j] == '.' by {
        if j < a.len() {
            assert(f[j] == a[j]);
        }
    }
    lemma_no_exponent(f);
    lemma_first_index(f, '.', a.len() as int);
    assert(f.take(a.len() as int) =~= a);
    let fp = f.skip(a.len() as int + 1);
    assert(fp =~= seq![digit_char(((h % 100) / 10) as int), digit_char((h % 10) as int)]);
    assert(all_digits(fp));
    assert(frac_hundredths(fp) == h % 100);
}

} // verus!

verus! {

/// Parsing the decimal rendering of an `i32` gives it back.
pub proof fn lemma_parse_dec_i32(v: i32)
    ensures
        parse_i32_spec(dec_int(v as int)) == Some(v),
{
    if v < 0 {
        let d = dec_nat((-v) as nat);
        lemma_dec_nat((-v) as nat);
        assert(dec_int(v as int).drop_first() =~= d);
    } else {
        lemma_dec_nat(v as nat);
        assert(is_digit(dec_nat(v as nat)[0]));
    }
}

/// A whole number in decimal reads as that many hundreds of hundredths.
pub proof fn lemma_parse_dec_hundredths(n: nat)
    requires
        n * 100 <= u32::MAX,
    ensures
        parse_hundredths_spec(dec_nat(n)) == Some((n * 100) as u32),
{
    let d = dec_nat(n);
    lemma_dec_nat(n);
    assert(is_digit(d[0]));
    assert(strip_plus(d) == d);
    lemma_no_exponent(d);
    lemma_first_index(d, '.', d.len() as int);
    assert(all_digits(Seq::<char>::empty()));
    assert(frac_hundredths(Seq::<char>::empty()) == 0);
}

} // verus!

verus! {

/// Appends `n` in decimal, left-padded with zeros to `w` characters.
pub fn push_padded(out: &mut String, n: u64, w: usize)
    ensures
        final(out)@ == old(out)@ + zero_pad(dec_nat(n as nat), w as nat),
{
    let mut digits = String::new();
    push_dec(&mut digits, n);
    let len = digits.as_str().unicode_len();
    let ghost d = dec_nat(n as nat);
    assert(digits@ =~= d);
    if len < w {
        let mut k: usize = 0;
        while k < w - len
            invariant
                len < w,
                len == d.len(),
                k <= w - len,
                out@ == old(out)@ + Seq::new(k as nat, |i: int| '0'),
            decreases w - len - k,
        {
            push_char(out, '0');
            k = k + 1;
            assert(out@ =~= old(out)@ + Seq::new(k as nat, |i: int| '0'));
        }
    }
    push_str(out, digits.as_str());
    assert(final(out)@ =~= old(out)@ + zero_pad(dec_nat(n as nat), w as nat));
}

} // verus!

verus! {

/// Removes the last character of a string, if any, as `String::pop` does.
pub fn pop_char(s: &mut String) -> (r: Option<char>)
    ensures
        old(s)@.len() == 0 ==> r is None && final(s)@ == old(s)@,
        old(s)@.len() > 0 ==> r == Some(old(s)@.last()) && final(s)@ == old(s)@.drop_last(),
{
    let chars = chars_of(s.as_str());
    let n = chars.len();
    if n == 0 {
        return None;
    }
    let c = chars[n - 1];
    *s = string_of(&chars, 0, n - 1);
    assert(chars@.subrange(0, n - 1) =~= chars@.drop_last());
    Some(c)
}

} // verus!

verus! {

/// The code of `c` with an ASCII capital made small.
pub open spec fn lower_code(c: char) -> int {
    if 'A' <= c && c <= 'Z' {
        c as int + 32
    } else {
        c as int
    }
}

pub open spec fn infinity_word() -> Seq<char> {
    seq!['i', 'n', 'f', 'i', 'n', 'i', 't', 'y']
}

/// Whether `s` spells `inf` or `infinity`, in any mix of cases.
pub open spec fn is_infinity_word(s: Seq<char>) -> bool {
    &&& (s.len() == 3 || s.len() == 8)
    &&& forall|j: int| 0 <= j < s.len() ==> lower_code(#[trigger] s[j]) == infinity_word()[j] as int
}

/// Whether `v[lo..hi]` spells `inf` or `infinity`, in any mix of cases.
pub fn infinity_word_in(v: &Vec<char>, lo: usize, hi: usize) -> (r: bool)
    requires
        lo <= hi <= v.len(),
    ensures
        r == is_infinity_word(v@.subrange(lo as int, hi as int)),
{
    let ghost s = v@.subrange(lo as int, hi as int);
    let n = hi - lo;
    if n != 3 && n != 8 {
        return false;
    }
    let word = vec!['i', 'n', 'f', 'i', 'n', 'i', 't', 'y'];
    assert(word@ =~= infinity_word());
    let mut i: usize = 0;
    while i < n
        invariant
            lo <= hi <= v.len(),
            n == hi - lo,
            n <= 8,
            s == v@.subrange(lo as int, hi as int),
            word@ == infinity_word(),
            i <= n,
            forall|j: int| 0 <= j < i ==> lower_code(#[trigger] s[j]) == infinity_word()[j] as int,
        decreases n - i,
    {
        let c = v[lo + i];
        let w = word[i];
        assert(s[i as int] == c);
        assert(w == infinity_word()[i as int]);
        let same = if 'A' <= c && c <= 'Z' {
            (c as u64) + 32 == (w as u64)
        } else {
            c == w
        };
        if !same {
            return false;
        }
        i = i + 1;
    }
    true
}

/// What `str::parse::<f64>` gives for the sign of a number or an infinity:
/// `s` without one leading sign, and whether that sign was `-`.
pub open spec fn unsigned_part(s: Seq<char>) -> Seq<char> {
    if s.len() > 0 && (s[0] == '-' || s[0] == '+') {
        s.drop_first()
    } else {
        s
    }
}

pub open spec fn negative_sign(s: Seq<char>) -> bool {
    s.len() > 0 && s[0] == '-'
}

/// Whether `s` reads as a number or an infinity with an optional sign, as
/// `str::parse::<f64>` takes them (not-a-number aside).
pub open spec fn signed_number(s: Seq<char>) -> bool {
    hundredths_value(unsigned_part(s)) is Some || is_infinity_word(unsigned_part(s))
}

/// Whether `v[lo..hi]` reads as a number or an infinity with an optional
/// sign, and whether that sign is `-`.
pub fn signed_number_in(v: &Vec<char>, lo: usize, hi: usize) -> (r: (bool, bool))
    requires
        lo <= hi <= v.len(),
    ensures
        r.0 == signed_number(v@.subrange(lo as int, hi as int)),
        r.1 == negative_sign(v@.subrange(lo as int, hi as int)),
{
    let ghost s = v@.subrange(lo as int, hi as int);
    let neg = lo < hi && v[lo] == '-';
    let start = if lo < hi && (v[lo] == '-' || v[lo] == '+') {
        lo + 1
    } else {
        lo
    };
    proof {
        if lo < hi {
            assert(s[0] == v@[lo as int]);
        }
    }
    assert(unsigned_part(s) =~= v@.subrange(start as int, hi as int));
    let number = hundredths_in(v, start, hi).0;
    (number || infinity_word_in(v, start, hi), neg)
}

} // verus!
