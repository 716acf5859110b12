use gitka::paths::join_path;
use gitka::strings::{contains, lines, parse_u16, parse_u32, parse_u64, replace_all, split_whitespace, starts_with, trim};
use gitka::text::decimal;

#[test]
fn trimming() {
    assert_eq!(trim("  a b \t\n"), "a b");
    assert_eq!(trim(""), "");
    assert_eq!(trim("   "), "");
}

#[test]
fn parsing_numbers() {
    assert_eq!(parse_u64("42"), Some(42));
    assert_eq!(parse_u64("+7"), Some(7));
    assert_eq!(parse_u64("18446744073709551615"), Some(u64::MAX));
    assert_eq!(parse_u64("18446744073709551616"), None);
    assert_eq!(parse_u64(""), None);
    assert_eq!(parse_u64("+"), None);
    assert_eq!(parse_u64("-1"), None);
    assert_eq!(parse_u64("1 2"), None);
    assert_eq!(parse_u32("4294967296"), None);
    assert_eq!(parse_u32("4294967295"), Some(u32::MAX));
    assert_eq!(parse_u16("65535"), Some(65535));
    assert_eq!(parse_u16("65536"), None);
}

#[test]
fn searching_and_replacing() {
    assert!(starts_with("refs/remotes/origin/main", "refs/remotes/origin/"));
    assert!(!starts_with("ref", "refs"));
    assert!(contains("/dev/sdb1", "sdb"));
    assert!(contains("abc", ""));
    assert!(!contains("abc", "abd"));
    assert_eq!(replace_all("aXbXc", "X", "--"), "a--b--c");
    assert_eq!(replace_all("aaa", "aa", "b"), "ba");
    assert_eq!(replace_all("none", "z", "y"), "none");
}

#[test]
fn words_and_lines() {
    assert_eq!(split_whitespace("  one\ttwo  three \n"), vec!["one", "two", "three"]);
    assert!(split_whitespace("   ").is_empty());
    assert_eq!(lines("a\nb\r\n\nc"), vec!["a", "b", "", "c"]);
    assert_eq!(lines("a\n"), vec!["a"]);
    assert!(lines("").is_empty());
}

#[test]
fn joining_and_decimals() {
    assert_eq!(join_path("/mnt/usb", "repos"), "/mnt/usb/repos");
    assert_eq!(join_path("/mnt/usb/", "repos"), "/mnt/usb/repos");
    assert_eq!(join_path("/mnt/usb", "/abs"), "/abs");
    assert_eq!(join_path("", "rel"), "rel");
    assert_eq!(decimal(0), "0");
    assert_eq!(decimal(1234567890), "1234567890");
}
