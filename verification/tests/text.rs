use tinysocks::text::{
    chars_of, decimal, eq_ignore_ascii_case, parse_u64, replace_all, split_chars, to_ascii_lowercase, trim,
};

#[test]
fn text_helpers_match_std() {
    for s in ["", "  a b  ", "\u{3000}x\u{85}", "\t\n y \r", "no-trim"] {
        assert_eq!(trim(s), s.trim());
    }
    assert_eq!(to_ascii_lowercase("AbC-É"), "AbC-É".to_ascii_lowercase());
    assert!(eq_ignore_ascii_case("Content-Length", "content-LENGTH"));
    assert!(!eq_ignore_ascii_case("É", "é"));
    for s in ["", ",", "a,b", ",a,,b,"] {
        let expected: Vec<Vec<char>> = s.split(',').map(|p| p.chars().collect()).collect();
        assert_eq!(split_chars(&chars_of(s), ','), expected);
    }
    for s in ["0", "+7", "18446744073709551615", "18446744073709551616", "", "+", "-1", "1a", "007"] {
        assert_eq!(parse_u64(&chars_of(s)), s.parse::<u64>().ok(), "{s:?}");
    }
    for n in [0u64, 9, 10, 1234567890, u64::MAX] {
        assert_eq!(decimal(n), n.to_string());
    }
    for (s, from, to) in [("aaa", "aa", "b"), ("abc", "", "-"), ("", "", "x"), ("a\\b", "\\", "\\\\")] {
        assert_eq!(replace_all(s, from, to), s.replace(from, to));
    }
}
