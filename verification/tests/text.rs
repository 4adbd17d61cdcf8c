use proxyenv::text::number::parse_bounded;
use proxyenv::text::order::less;
use proxyenv::text::pieces::{join, split};
use proxyenv::text::search::{contains, find, same, starts_with};
use proxyenv::text::strings::{chain, chars_of, string_of};
use proxyenv::text::strip::{CharClass, strip_leading, strip_trailing, trim};

fn strings(items: &[&str]) -> Vec<String> {
    items.iter().map(|s| s.to_string()).collect()
}

#[test]
fn chars_and_back() {
    let v = chars_of("aé中😀");
    assert_eq!(v, vec!['a', 'é', '中', '😀']);
    assert_eq!(string_of(&v, 0, 4), "aé中😀");
    assert_eq!(string_of(&v, 1, 3), "é中");
    assert_eq!(string_of(&v, 2, 2), "");
}

#[test]
fn find_counts_in_characters() {
    assert_eq!(find("abcabc", "bc"), Some(1));
    assert_eq!(find("é中bc", "bc"), Some(2));
    assert_eq!(find("abc", ""), Some(0));
    assert_eq!(find("", ""), Some(0));
    assert_eq!(find("abc", "abcd"), None);
    assert_eq!(find("abc", "x"), None);
    assert_eq!(find("aab", "ab"), Some(1));
    assert_eq!(find("abc", "c"), Some(2));
}

#[test]
fn contains_and_starts_with() {
    assert!(contains("a://b", "://"));
    assert!(!contains("a:/b", "://"));
    assert!(starts_with("socks5://x", "socks"));
    assert!(!starts_with("sock", "socks"));
    assert!(starts_with("x", ""));
    assert!(same("", ""));
    assert!(same("abc", "abc"));
    assert!(!same("abc", "abd"));
    assert!(!same("abc", "ab"));
}

#[test]
fn split_as_std_does() {
    for (s, sep) in [
        ("a;b;c", ";"),
        ("", ";"),
        (";", ";"),
        ("a;;b;", ";"),
        ("a=b=c", "="),
        ("http://x://y", "://"),
        (":///", "://"),
        ("aaa", "aa"),
        ("1.2.3.4", "."),
        ("é;中", ";"),
    ] {
        let expected: Vec<String> = s.split(sep).map(|p| p.to_string()).collect();
        assert_eq!(split(s, sep), expected);
    }
    assert_eq!(split("abc", ""), strings(&["abc"]));
}

#[test]
fn parse_bounded_as_std_does() {
    for s in [
        "0", "7", "255", "256", "00255", "+5", "+", "-1", "", " 1", "1 ", "65535", "65536",
        "99999999999999999999", "1a", "٣", "+-1", "++1", "0000000000000000000000001",
    ] {
        assert_eq!(parse_bounded(s, 255), s.parse::<u8>().ok().map(u16::from));
        assert_eq!(parse_bounded(s, 65535), s.parse::<u16>().ok());
    }
}

#[test]
fn trim_as_std_does() {
    for s in [
        "", " ", "a", "  a b \t\r\n", "\u{a0}x\u{3000}", "\u{2003}\u{85}y", "\u{200b}z",
        "x\u{1680}", "\u{feff}a", "\u{b}\u{c}a\u{2028}\u{2029}\u{202f}\u{205f}",
    ] {
        assert_eq!(trim(s), s.trim());
    }
}

#[test]
fn strip_wildcards_and_dots() {
    assert_eq!(strip_leading("*.google.com", CharClass::WildcardOrDot), "google.com");
    assert_eq!(strip_leading("..*a.*", CharClass::WildcardOrDot), "a.*");
    assert_eq!(strip_leading("*.*", CharClass::WildcardOrDot), "");
    assert_eq!(strip_trailing("10.0.*.*", CharClass::WildcardOrDot), "10.0");
    assert_eq!(strip_trailing("*.a", CharClass::WildcardOrDot), "*.a");
    assert_eq!(strip_trailing("", CharClass::WildcardOrDot), "");
    assert_eq!(strip_leading(" a ", CharClass::Whitespace), "a ");
    assert_eq!(strip_trailing(" a ", CharClass::Whitespace), " a");
    assert!(CharClass::WildcardOrDot.holds('*'));
    assert!(!CharClass::WildcardOrDot.holds(' '));
    assert!(CharClass::Whitespace.holds('\n'));
    assert!(!CharClass::Whitespace.holds('.'));
}

#[test]
fn every_character_is_classed_as_std_does() {
    for n in 0u32..0x11_0000 {
        if let Some(c) = char::from_u32(n) {
            assert_eq!(CharClass::Whitespace.holds(c), c.is_whitespace());
        }
    }
}

#[test]
fn join_as_std_does() {
    assert_eq!(join(&strings(&[]), ","), "");
    assert_eq!(join(&strings(&["a"]), ","), "a");
    assert_eq!(join(&strings(&["a", "b", "c"]), ","), "a,b,c");
    assert_eq!(join(&strings(&["", ""]), "\n"), "\n");
    assert_eq!(join(&strings(&["a", "b"]), ""), "ab");
    assert_eq!(chain("ab", "cd"), "abcd");
}

#[test]
fn less_as_std_does() {
    let items = ["", "a", "ab", "abc", "b", "B", "é", "z", "中", "😀", "a\u{ff}", "a\u{100}"];
    for a in items {
        for b in items {
            assert_eq!(less(a, b), a < b);
        }
    }
}
