use breadmon::text::{chars_of, parse_hundredths_in, pop_char, signed_number_in, trim};

#[test]
fn trim_drops_unicode_white_space() {
    assert_eq!(trim("\u{3000} a b \t\n"), "a b");
    assert_eq!(trim("   "), "");
    assert_eq!(trim("\u{85}x\u{a0}\u{2009}"), "x");
    assert_eq!(trim("plain"), "plain");
}

#[test]
fn pop_char_takes_the_last_character() {
    let mut s = String::from("a\u{e9}");
    assert_eq!(pop_char(&mut s), Some('\u{e9}'));
    assert_eq!(s, "a");
    assert_eq!(pop_char(&mut s), Some('a'));
    assert_eq!(s, "");
    assert_eq!(pop_char(&mut s), None);
    assert_eq!(s, "");
}

fn hundredths(text: &str) -> Option<u32> {
    let v = chars_of(text);
    parse_hundredths_in(&v, 0, v.len())
}

#[test]
fn hundredths_round_half_up_at_every_scale() {
    assert_eq!(hundredths("1.255"), Some(126));
    assert_eq!(hundredths("1.2549"), Some(125));
    assert_eq!(hundredths("12.55e-1"), Some(126));
    assert_eq!(hundredths(".5E1"), Some(500));
    assert_eq!(hundredths("1.E2"), Some(10000));
    assert_eq!(hundredths("42949672.95"), Some(u32::MAX));
    assert_eq!(hundredths("42949672.96"), None);
    assert_eq!(hundredths("4294967295e-2"), Some(u32::MAX));
    assert_eq!(hundredths("."), None);
    assert_eq!(hundredths(""), None);
    assert_eq!(hundredths("1e2e3"), None);
}

#[test]
fn signed_numbers_and_infinities() {
    let read = |t: &str| {
        let v = chars_of(t);
        signed_number_in(&v, 0, v.len())
    };
    assert_eq!(read("-1.5"), (true, true));
    assert_eq!(read("+1e3"), (true, false));
    assert_eq!(read("-inf"), (true, true));
    assert_eq!(read("InFiNiTy"), (true, false));
    assert_eq!(read("nan"), (false, false));
    assert_eq!(read("-"), (false, true));
    assert_eq!(read("+-1"), (false, false));
}
