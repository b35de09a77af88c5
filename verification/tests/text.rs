use sshmenu::decimal::{decimal_string, digit_of, parse_millis_in};
use sshmenu::text::{
    char_is_whitespace, find_in, has_prefix, lines_of, text_less, to_chars, token_bounds,
    trim_bounds,
};

fn chars(s: &str) -> Vec<char> {
    s.chars().collect()
}

fn millis(s: &str) -> Option<u128> {
    let v = chars(s);
    parse_millis_in(&v, 0, v.len())
}

#[test]
fn whitespace_is_that_of_the_standard_library() {
    for code in 0u32..=0x10FFFF {
        if let Some(c) = char::from_u32(code) {
            assert_eq!(char_is_whitespace(c), c.is_whitespace(), "code point {:x}", code);
        }
    }
}

#[test]
fn to_chars_lists_the_characters() {
    assert_eq!(to_chars("héllo"), vec!['h', 'é', 'l', 'l', 'o']);
    assert_eq!(to_chars(""), Vec::<char>::new());
}

#[test]
fn trim_bounds_agree_with_trim() {
    for s in ["", " ", "a", " a", "a ", "  a b  ", "\t\r\n", "\u{a0}x\u{2003}", "x\u{85}", "  é  "] {
        let v = chars(s);
        let (from, to) = trim_bounds(&v);
        let got: String = v[from..to].iter().collect();
        assert_eq!(got, s.trim(), "for {:?}", s);
    }
}

#[test]
fn trim_bounds_of_blank_text_are_at_the_end() {
    assert_eq!(trim_bounds(&chars("   ")), (3, 3));
    assert_eq!(trim_bounds(&chars("")), (0, 0));
    assert_eq!(trim_bounds(&chars(" ab ")), (1, 3));
}

#[test]
fn prefix_is_found_in_a_range() {
    let v = chars("xxHost a");
    assert!(has_prefix(&v, 2, 8, &chars("Host ")));
    assert!(!has_prefix(&v, 2, 6, &chars("Host ")));
    assert!(!has_prefix(&v, 0, 8, &chars("Host ")));
    assert!(has_prefix(&v, 3, 3, &chars("")));
    assert!(!has_prefix(&v, 2, 8, &chars("Hose")));
}

#[test]
fn find_gives_the_first_place() {
    assert_eq!(find_in(&chars("a time=1 time=2"), &chars("time=")), Some(2));
    assert_eq!(find_in(&chars("time="), &chars("time=")), Some(0));
    assert_eq!(find_in(&chars("tim=e"), &chars("time=")), None);
    assert_eq!(find_in(&chars(""), &chars("time=")), None);
    assert_eq!(find_in(&chars("abc"), &chars("")), Some(0));
    assert_eq!(find_in(&chars(""), &chars("")), Some(0));
    assert_eq!(find_in(&chars("tttime="), &chars("time=")), Some(2));
}

#[test]
fn token_is_the_first_word() {
    let v = chars("time=  12.3 ms");
    assert_eq!(token_bounds(&v, 5), (7, 11));
    assert_eq!(token_bounds(&v, 11), (12, 14));
    assert_eq!(token_bounds(&v, 14), (14, 14));
    assert_eq!(token_bounds(&chars("   "), 0), (3, 3));
}

#[test]
fn text_order_is_that_of_strings() {
    let samples = ["", "a", "b", "ab", "aa", "B", "é", "e", "zz", "z", "\u{10000}", "\u{ffff}", "a\u{0}"];
    for x in samples {
        for y in samples {
            assert_eq!(text_less(x, y), x < y, "{:?} < {:?}", x, y);
        }
    }
}

#[test]
fn lines_are_split_at_newlines() {
    assert_eq!(lines_of(""), [""]);
    assert_eq!(lines_of("a"), ["a"]);
    assert_eq!(lines_of("a\n"), ["a", ""]);
    assert_eq!(lines_of("a\nb"), ["a", "b"]);
    assert_eq!(lines_of("\n\n"), ["", "", ""]);
    assert_eq!(lines_of("a\r\nbé\n c "), ["a\r", "bé", " c "]);
}

#[test]
fn decimal_is_that_of_the_standard_library() {
    for n in [0u128, 1, 9, 10, 11, 99, 100, 101, 12345, 1_000_000, u64::MAX as u128, u128::MAX] {
        assert_eq!(decimal_string(n), n.to_string());
    }
}

#[test]
fn digits_are_read() {
    assert_eq!(digit_of('0'), Some(0));
    assert_eq!(digit_of('9'), Some(9));
    assert_eq!(digit_of('/'), None);
    assert_eq!(digit_of(':'), None);
    assert_eq!(digit_of('a'), None);
    assert_eq!(digit_of('٣'), None);
}

#[test]
fn measurement_is_the_whole_part() {
    assert_eq!(millis("12.3"), Some(12));
    assert_eq!(millis("12"), Some(12));
    assert_eq!(millis("12."), Some(12));
    assert_eq!(millis("0.045"), Some(0));
    assert_eq!(millis("007"), Some(7));
    assert_eq!(millis("123456.789012"), Some(123456));
}

#[test]
fn other_text_is_no_measurement() {
    assert_eq!(millis(""), None);
    assert_eq!(millis("."), None);
    assert_eq!(millis(".5"), None);
    assert_eq!(millis("abc"), None);
    assert_eq!(millis("12ms"), None);
    assert_eq!(millis("1e3"), None);
    assert_eq!(millis("-1"), None);
    assert_eq!(millis("+1"), None);
    assert_eq!(millis("1.2.3"), None);
    assert_eq!(millis("1.5x"), None);
    assert_eq!(millis("1,5"), None);
}

#[test]
fn measurement_must_fit() {
    assert_eq!(millis("340282366920938463463374607431768211455"), Some(u128::MAX));
    assert_eq!(millis("340282366920938463463374607431768211456"), None);
    assert_eq!(millis("340282366920938463463374607431768211455.9"), Some(u128::MAX));
    assert_eq!(millis("3402823669209384634633746074317682114550"), None);
    assert_eq!(millis("99999999999999999999999999999999999999999999x"), None);
}

#[test]
fn measurement_is_read_within_bounds() {
    let v = chars("ab12.5cd");
    assert_eq!(parse_millis_in(&v, 2, 6), Some(12));
    assert_eq!(parse_millis_in(&v, 2, 4), Some(12));
    assert_eq!(parse_millis_in(&v, 2, 7), None);
    assert_eq!(parse_millis_in(&v, 1, 6), None);
    assert_eq!(parse_millis_in(&v, 3, 3), None);
}
