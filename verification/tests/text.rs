use aio_plugin_rbac::text::{contains_str, sorted_unique, str_eq, str_less, trim};

#[test]
fn strings_order_by_code_point() {
    assert!(str_less("a", "b"));
    assert!(str_less("", "a"));
    assert!(str_less("ab", "abc"));
    assert!(!str_less("abc", "ab"));
    assert!(str_less("Z", "a"));
    assert!(!str_less("x", "x"));
    assert!(str_eq("管理", "管理"));
    assert!(!str_eq("管理", "管"));
    assert!(contains_str(&vec!["a".to_string(), "b".into()], "b"));
}

#[test]
fn sorted_unique_matches_sort_then_dedup() {
    let input: Vec<String> = ["b", "a", "é", "b", "Z", "", "a"].iter().map(|s| s.to_string()).collect();
    let mut expected = input.clone();
    expected.sort();
    expected.dedup();
    assert_eq!(sorted_unique(input), expected);
}

#[test]
fn trim_removes_unicode_white_space() {
    assert_eq!(trim("\u{a0}\t x y \u{2028}\u{3000}"), "x y");
    assert_eq!(trim("   "), "");
    assert_eq!(trim("x"), "x");
}
