use polypus::text::{contains_str, str_eq, usize_to_decimal};

#[test]
fn str_eq_cases() {
    assert!(str_eq("", ""));
    assert!(str_eq("abc", "abc"));
    assert!(!str_eq("abc", "abd"));
    assert!(!str_eq("abc", "ab"));
    assert!(str_eq("héllo", "héllo"));
}

#[test]
fn contains_str_cases() {
    assert!(contains_str("up 5 minutes", "up"));
    assert!(contains_str("abc", ""));
    assert!(contains_str("", ""));
    assert!(!contains_str("", "a"));
    assert!(!contains_str("ab", "abc"));
    assert!(contains_str("exited (0)", "exited"));
    assert!(contains_str("aab", "ab"));
    assert!(!contains_str("running", "unhealthy"));
}

#[test]
fn decimal_rendering() {
    assert_eq!(usize_to_decimal(0), "0");
    assert_eq!(usize_to_decimal(7), "7");
    assert_eq!(usize_to_decimal(10), "10");
    assert_eq!(usize_to_decimal(305), "305");
    assert_eq!(usize_to_decimal(usize::MAX), usize::MAX.to_string());
}
