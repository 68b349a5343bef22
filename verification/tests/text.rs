use logx::text::{concat_str, decimal, parse_i64, signed_decimal, str_eq, trim, trim_start_matches};

fn chars(s: &str) -> Vec<char> {
    s.chars().collect()
}

#[test]
fn trim_removes_unicode_whitespace() {
    let t: String = trim(&chars("\u{3000} \t x y \u{A0}\n")).into_iter().collect();
    assert_eq!(t, "x y");
    let t2: String = trim(&chars(" \u{0B} ")).into_iter().collect();
    assert_eq!(t2, "");
    let inner = "\u{2003}a\u{2003}";
    let once: String = trim(&chars(inner)).into_iter().collect();
    let twice: String = trim(&chars(&once)).into_iter().collect();
    assert_eq!(once, twice);
}

#[test]
fn i64_parsing_follows_str_parse() {
    for s in ["0", "42", "+7", "-13", "9223372036854775807", "-9223372036854775808", "", "-", "+", "1a", " 1", "9223372036854775808", "-9223372036854775809", "00012"] {
        assert_eq!(parse_i64(&chars(s)), s.parse::<i64>().ok(), "input {:?}", s);
    }
}

#[test]
fn decimals_follow_display() {
    for n in [0u64, 7, 10, 99, 100, 1234567890, u64::MAX] {
        assert_eq!(decimal(n), n.to_string());
    }
    for v in [0i64, -1, -10, 42, i64::MIN, i64::MAX] {
        assert_eq!(signed_decimal(v), v.to_string());
    }
}

#[test]
fn small_string_helpers() {
    assert_eq!(concat_str("ab", "cd"), "abcd");
    assert!(str_eq("héllo", "héllo"));
    assert!(!str_eq("a", "ab"));
    assert_eq!(trim_start_matches("(?i)(?i)x(?i)", "(?i)"), "x(?i)");
    assert_eq!(trim_start_matches("abc", ""), "abc");
}
