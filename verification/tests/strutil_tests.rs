use paul_scrape_rs::strutil::{
    check_digits, is_space, lines_of, normalize_spaces, parse_u32, remove_char, split_char,
    str_contains, str_contains_char, str_eq, str_starts_with, strip_prefix_once, u32_dec,
    u32_pad2, u32_pad4, u64_dec,
};

#[test]
fn str_eq_basic() {
    assert!(str_eq("", ""));
    assert!(str_eq("abc", "abc"));
    assert!(!str_eq("abc", "abd"));
    assert!(!str_eq("abc", "ab"));
    assert!(str_eq("M\u{e4}rz", "M\u{e4}rz"));
}

#[test]
fn starts_with_basic() {
    assert!(str_starts_with("Sommer 2023", "Sommer"));
    assert!(!str_starts_with("Herbst 2023", "Sommer"));
    assert!(str_starts_with("abc", ""));
    assert!(!str_starts_with("ab", "abc"));
}

#[test]
fn contains_basic() {
    assert!(str_contains("xxCOURSEDETAILSyy", "COURSEDETAILS"));
    assert!(!str_contains("xxCOURSEDETAILyy", "COURSEDETAILS"));
    assert!(str_contains("abc", ""));
    assert!(str_contains_char("a*b", '*'));
    assert!(!str_contains_char("ab", '*'));
}

#[test]
fn split_char_basic() {
    let parts = split_char("a b  c", ' ');
    let got: Vec<&str> = parts.iter().map(|s| s.as_str()).collect();
    assert_eq!(got, vec!["a", "b", "", "c"]);
    let parts = split_char("", ';');
    assert_eq!(parts.len(), 1);
    assert_eq!(parts[0], "");
    let parts = split_char("x;", ';');
    let got: Vec<&str> = parts.iter().map(|s| s.as_str()).collect();
    assert_eq!(got, vec!["x", ""]);
}

#[test]
fn normalize_spaces_collapses_runs() {
    assert_eq!(normalize_spaces("  a  b\t\nc  ").as_str(), "a b c");
    assert_eq!(normalize_spaces("").as_str(), "");
    assert_eq!(normalize_spaces("   ").as_str(), "");
    assert_eq!(normalize_spaces("room\u{a0}1").as_str(), "room 1");
    assert_eq!(normalize_spaces("one").as_str(), "one");
}

#[test]
fn is_space_class() {
    assert!(is_space(' '));
    assert!(is_space('\n'));
    assert!(is_space('\u{a0}'));
    assert!(!is_space('a'));
    assert!(!is_space('.'));
}

#[test]
fn lines_of_basic() {
    let lines = lines_of("code\ntitle");
    let got: Vec<&str> = lines.iter().map(|s| s.as_str()).collect();
    assert_eq!(got, vec!["code", "title"]);
    let lines = lines_of("a\r\nb\n");
    let got: Vec<&str> = lines.iter().map(|s| s.as_str()).collect();
    assert_eq!(got, vec!["a", "b"]);
    assert_eq!(lines_of("").len(), 0);
    let lines = lines_of("only");
    assert_eq!(lines.len(), 1);
    assert_eq!(lines[0], "only");
}

#[test]
fn digits_and_numbers() {
    assert!(check_digits("0123456789"));
    assert!(!check_digits(""));
    assert!(!check_digits("12a"));
    assert_eq!(parse_u32("0"), 0);
    assert_eq!(parse_u32("02"), 2);
    assert_eq!(parse_u32("2023"), 2023);
    assert_eq!(parse_u32("999999999"), 999_999_999);
    assert_eq!(u32_dec(0).as_str(), "0");
    assert_eq!(u32_dec(2023).as_str(), "2023");
    assert_eq!(u64_dec(12).as_str(), "12");
    assert_eq!(u32_pad2(7).as_str(), "07");
    assert_eq!(u32_pad2(42).as_str(), "42");
    assert_eq!(u32_pad4(7).as_str(), "0007");
    assert_eq!(u32_pad4(2023).as_str(), "2023");
    assert_eq!(u32_pad4(123).as_str(), "0123");
}

#[test]
fn remove_and_strip() {
    assert_eq!(remove_char("02.", '.').as_str(), "02");
    assert_eq!(remove_char("a.b.c", '.').as_str(), "abc");
    assert_eq!(remove_char("abc", '.').as_str(), "abc");
    assert_eq!(
        strip_prefix_once("Kleingruppe:\u{a0}Gruppe 1", "Kleingruppe:\u{a0}").as_str(),
        "Gruppe 1"
    );
    assert_eq!(strip_prefix_once("Gruppe 1", "Kleingruppe:\u{a0}").as_str(), "Gruppe 1");
}
