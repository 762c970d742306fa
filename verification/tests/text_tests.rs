use openfusion_launcher::text::{
    chars_of, decimal_string, is_blank, parse_unsigned_chars, split_chars, trim_chars,
};

fn chars(s: &str) -> Vec<char> {
    s.chars().collect()
}

#[test]
fn decimal_renders_numbers() {
    assert_eq!(decimal_string(0), "0");
    assert_eq!(decimal_string(7), "7");
    assert_eq!(decimal_string(23000), "23000");
    assert_eq!(decimal_string(u64::MAX), "18446744073709551615");
}

#[test]
fn parse_unsigned_follows_from_str() {
    assert_eq!(parse_unsigned_chars(&chars("42"), 65535), Some(42));
    assert_eq!(parse_unsigned_chars(&chars("+42"), 65535), Some(42));
    assert_eq!(parse_unsigned_chars(&chars("0065535"), 65535), Some(65535));
    assert_eq!(parse_unsigned_chars(&chars("65536"), 65535), None);
    assert_eq!(parse_unsigned_chars(&chars(""), 65535), None);
    assert_eq!(parse_unsigned_chars(&chars("+"), 65535), None);
    assert_eq!(parse_unsigned_chars(&chars("-1"), 65535), None);
    assert_eq!(parse_unsigned_chars(&chars("1a"), 65535), None);
    assert_eq!(parse_unsigned_chars(&chars(" 1"), 65535), None);
    assert_eq!(parse_unsigned_chars(&chars("4294967295"), 4294967295), Some(4294967295));
    assert_eq!(parse_unsigned_chars(&chars("4294967296"), 4294967295), None);
    for s in ["0", "+0", "12", "99999", "-0", "x"] {
        assert_eq!(parse_unsigned_chars(&chars(s), 65535), s.parse::<u16>().ok().map(|v| v as u64));
    }
}

#[test]
fn split_matches_std_split() {
    for (s, sep) in [("a:b:c", ':'), ("", ':'), (":", ':'), ("abc", ':'), ("a..b.", '.')] {
        let parts: Vec<String> = split_chars(&chars(s), sep).iter().map(|p| p.iter().collect()).collect();
        let expected: Vec<String> = s.split(sep).map(|p| p.to_string()).collect();
        assert_eq!(parts, expected);
    }
}

#[test]
fn trim_matches_std_trim() {
    for s in ["  a b  ", "\t\nx\u{3000}", "", "   ", "abc", "\u{85}y\u{a0}"] {
        let t: String = trim_chars(&chars(s)).iter().collect();
        assert_eq!(t, s.trim());
        assert_eq!(is_blank(&chars(s)), s.trim().is_empty());
    }
}

#[test]
fn chars_round_trip() {
    let s = "héllo wörld";
    assert_eq!(chars_of(s), s.chars().collect::<Vec<char>>());
    assert_eq!(openfusion_launcher::text::concat(s, "!"), "héllo wörld!");
    assert_eq!(openfusion_launcher::text::concat("", s), s);
}
