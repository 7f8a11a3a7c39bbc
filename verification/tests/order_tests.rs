use paul_scrape_rs::order::cmp_str_exec;

#[test]
fn string_comparison_is_code_point_lexicographic() {
    assert_eq!(cmp_str_exec("a", "b"), -1);
    assert_eq!(cmp_str_exec("b", "a"), 1);
    assert_eq!(cmp_str_exec("a", "a"), 0);
    assert_eq!(cmp_str_exec("", ""), 0);
    assert_eq!(cmp_str_exec("a", "ab"), -1);
    assert_eq!(cmp_str_exec("ab", "a"), 1);
    assert_eq!(cmp_str_exec("A", "a"), -1);
    // Code-point order agrees with Rust's byte-wise order on UTF-8 strings.
    assert_eq!(cmp_str_exec("z", "\u{e4}"), -1);
    assert_eq!("z".cmp("\u{e4}"), std::cmp::Ordering::Less);
}
