use launchvault_core::text::{
    chars_contain, chars_end_with, chars_equal, chars_less, chars_of, chars_start_with,
    is_whitespace, parse_unsigned_chars, push_decimal, string_from, trim_chars,
};

fn v(s: &str) -> Vec<char> {
    s.chars().collect()
}

#[test]
fn whitespace_matches_std_everywhere() {
    for u in 0u32..=0x10FFFF {
        if let Some(c) = char::from_u32(u) {
            assert_eq!(is_whitespace(c), c.is_whitespace(), "code point {u:#x}");
        }
    }
}

#[test]
fn decimal_matches_to_string() {
    for n in [0u64, 7, 9, 10, 99, 100, 12345, u32::MAX as u64, u64::MAX] {
        let mut out = String::from("x");
        push_decimal(&mut out, n);
        assert_eq!(out, format!("x{n}"));
    }
}

#[test]
fn unsigned_parse_matches_std() {
    let cases = [
        "", "+", "-", "0", "+0", "-0", "42", "+42", "007", "4294967295", "4294967296",
        "18446744073709551615", "18446744073709551616", "99999999999999999999", "1a", " 1", "١",
    ];
    for c in cases {
        assert_eq!(parse_unsigned_chars(&v(c), u64::MAX), c.parse::<u64>().ok(), "u64 {c:?}");
        assert_eq!(
            parse_unsigned_chars(&v(c), u32::MAX as u64),
            c.parse::<u32>().ok().map(|x| x as u64),
            "u32 {c:?}"
        );
    }
}

#[test]
fn trim_matches_std() {
    for c in ["", "   ", " a ", "\u{3000}x y\u{85}", "\tab\n", "abc"] {
        assert_eq!(string_from(&trim_chars(&v(c))), c.trim());
    }
}

#[test]
fn substring_prefix_suffix_and_order() {
    assert!(chars_contain(&v("Half-Life 2"), &v("life")) == "Half-Life 2".contains("life"));
    assert!(chars_contain(&v("abc"), &v("")));
    assert!(!chars_contain(&v("ab"), &v("abc")));
    assert!(chars_contain(&v("xxabab"), &v("abab")));
    assert!(chars_start_with(&v("appmanifest_1.acf"), &v("appmanifest_")));
    assert!(chars_end_with(&v("appmanifest_1.acf"), &v(".acf")));
    assert!(!chars_end_with(&v("acf"), &v(".acf")));
    assert!(chars_equal(&v("ab"), &v("ab")));
    assert!(!chars_equal(&v("ab"), &v("abc")));
    for (a, b) in [("a", "b"), ("ab", "a"), ("", "a"), ("я", "z"), ("same", "same")] {
        assert_eq!(chars_less(&v(a), &v(b)), a < b, "{a:?} < {b:?}");
    }
    assert_eq!(chars_of("héllo"), v("héllo"));
}
