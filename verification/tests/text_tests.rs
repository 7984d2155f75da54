use wattwise::text::{
    chars_equal, contains_chars, decimal_string, find_char, parse_u32, parse_u64, parse_u8,
    parse_usize, split_lines, str_equals, string_from_chars, strip_leading_chars, to_chars,
    trim_chars,
};

fn chars(s: &str) -> Vec<char> {
    s.chars().collect()
}

fn text(v: &[char]) -> String {
    v.iter().collect()
}

#[test]
fn trim_strips_unicode_whitespace_at_both_ends() {
    assert_eq!(text(&trim_chars(&chars("  a b \n"))), "a b");
    assert_eq!(text(&trim_chars(&chars("\u{3000}\t60\u{85}"))), "60");
    assert_eq!(text(&trim_chars(&chars(" \n "))), "");
    assert_eq!(text(&trim_chars(&chars("x"))), "x");
}

#[test]
fn parse_u8_follows_from_str() {
    assert_eq!(parse_u8(&chars("80")), Some(80));
    assert_eq!(parse_u8(&chars("+12")), Some(12));
    assert_eq!(parse_u8(&chars("007")), Some(7));
    assert_eq!(parse_u8(&chars("255")), Some(255));
    assert_eq!(parse_u8(&chars("256")), None);
    assert_eq!(parse_u8(&chars("")), None);
    assert_eq!(parse_u8(&chars("+")), None);
    assert_eq!(parse_u8(&chars("-1")), None);
    assert_eq!(parse_u8(&chars("1 ")), None);
    for s in ["0", "+0", "99", "100", "+255", "300", "", "+", "-", "a1", "1a", "٣"] {
        assert_eq!(parse_u8(&chars(s)), s.parse::<u8>().ok(), "input {:?}", s);
    }
}

#[test]
fn parse_wider_integers() {
    assert_eq!(parse_u32(&chars("4294967295")), Some(u32::MAX));
    assert_eq!(parse_u32(&chars("4294967296")), None);
    assert_eq!(parse_u64(&chars("18446744073709551615")), Some(u64::MAX));
    assert_eq!(parse_u64(&chars("18446744073709551616")), None);
    assert_eq!(parse_u64(&chars("2400000")), Some(2400000));
    assert_eq!(parse_usize(&chars("12")), Some(12));
}

#[test]
fn decimal_rendering_matches_to_string() {
    for n in [0u64, 7, 10, 42, 100, 3000, 1234567890, u64::MAX] {
        assert_eq!(decimal_string(n), n.to_string());
        assert_eq!(parse_u64(&chars(&decimal_string(n))), Some(n));
    }
}

#[test]
fn lines_split_like_str_lines() {
    for s in ["a\r\nb\n\nc", "a\n", "", "\n", "one", "x\r", "a\r\r\nb", "\n\n"] {
        let got: Vec<String> = split_lines(&chars(s)).iter().map(|l| text(l)).collect();
        let want: Vec<String> = s.lines().map(|l| l.to_string()).collect();
        assert_eq!(got, want, "input {:?}", s);
    }
}

#[test]
fn search_helpers() {
    assert_eq!(find_char(&chars("[ts] A: b"), ']'), Some(3));
    assert_eq!(find_char(&chars("abc"), ':'), None);
    assert!(contains_chars(&chars("tlp.service enabled"), &chars("tlp.service")));
    assert!(!contains_chars(&chars("tl"), &chars("tlp")));
    assert!(contains_chars(&chars("abc"), &chars("")));
    assert_eq!(text(&strip_leading_chars(&chars("[[2024"), '[')), "2024");
    assert!(chars_equal(&chars("on"), &chars("on")));
    assert!(!chars_equal(&chars("on"), &chars("off")));
    assert!(str_equals("Charging", "Charging"));
    assert!(!str_equals("Charging", "Discharging"));
    assert_eq!(to_chars("héllo"), chars("héllo"));
    assert_eq!(string_from_chars(&chars("héllo")), "héllo");
}
