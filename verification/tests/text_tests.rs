use theme_picker::text::{is_whitespace, push_decimal, trim_bounds};
use theme_picker::ui::indicators::format_page_number;

#[test]
fn whitespace_matches_std_for_every_char() {
    for v in 0u32..=0x10FFFF {
        if let Some(c) = char::from_u32(v) {
            assert_eq!(is_whitespace(c), c.is_whitespace(), "char {:#x}", v);
        }
    }
}

#[test]
fn trim_matches_std() {
    for s in ["", "  ", " a ", "\t/x/y.png\r", "\u{3000}ab\u{a0}", "a b", "\u{85}z"] {
        let chars: Vec<char> = s.chars().collect();
        let (lo, hi) = trim_bounds(&chars, 0, chars.len());
        let got: String = chars[lo..hi].iter().collect();
        assert_eq!(got, s.trim());
    }
}

#[test]
fn decimal_digits() {
    for n in [0usize, 7, 10, 99, 100, 12345, usize::MAX] {
        let mut v = Vec::new();
        push_decimal(n, &mut v);
        let s: String = v.iter().collect();
        assert_eq!(s, n.to_string());
    }
}

#[test]
fn page_numbers_up_to_three_digits_are_shown() {
    assert_eq!(format_page_number(1), "1");
    assert_eq!(format_page_number(42), "42");
    assert_eq!(format_page_number(999), "999");
}

#[test]
fn longer_page_numbers_are_an_ellipsis() {
    assert_eq!(format_page_number(1000), "…");
    assert_eq!(format_page_number(usize::MAX), "…");
}
