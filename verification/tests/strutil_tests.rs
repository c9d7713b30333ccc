use oneinstall::strutil::{
    bool_string, contains_ci, eq_ci, join_with_commas, parse_bool, split_and_trim,
    starts_with_ci, starts_with_plain, str_eq, trim,
};

#[test]
fn test_eq_ci() {
    assert!(eq_ci("Python", "pYTHON"));
    assert!(!eq_ci("python", "python3"));
    assert!(eq_ci("", ""));
}

#[test]
fn test_starts_with_ci() {
    assert!(starts_with_ci("Python3", "pyth"));
    assert!(!starts_with_ci("pyt", "python"));
    assert!(starts_with_ci("anything", ""));
}

#[test]
fn test_contains_ci() {
    assert!(contains_ci("Hello World", "lo wo"));
    assert!(!contains_ci("Hello", "world"));
    assert!(contains_ci("x", ""));
}

#[test]
fn test_starts_with_plain_is_case_sensitive() {
    assert!(starts_with_plain("https://x", "http"));
    assert!(!starts_with_plain("HTTPS://x", "http"));
}

#[test]
fn test_str_eq() {
    assert!(str_eq("abc", "abc"));
    assert!(!str_eq("abc", "abd"));
}

#[test]
fn test_trim() {
    assert_eq!(trim("  a b\t\n"), "a b");
    assert_eq!(trim("abc"), "abc");
    assert_eq!(trim("   "), "");
}

#[test]
fn test_split_and_trim() {
    assert_eq!(split_and_trim(" a, b ,c"), vec!["a", "b", "c"]);
    assert_eq!(split_and_trim(""), vec![""]);
    assert_eq!(split_and_trim("a,,b"), vec!["a", "", "b"]);
}

#[test]
fn test_join_with_commas() {
    let parts = vec!["a".to_string(), "b".to_string()];
    assert_eq!(join_with_commas(&parts), "a,b");
    assert_eq!(join_with_commas(&Vec::new()), "");
}

#[test]
fn test_bool_text() {
    assert_eq!(bool_string(true), "true");
    assert_eq!(bool_string(false), "false");
    assert_eq!(parse_bool("true"), Some(true));
    assert_eq!(parse_bool("false"), Some(false));
    assert_eq!(parse_bool("True"), None);
}
