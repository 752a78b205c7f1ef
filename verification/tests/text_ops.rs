use gg::text::join_comma;
use gg::text::str_contains;
use gg::text::str_eq;
use gg::text::u64_to_string;

#[test]
fn decimal_rendering_exact() {
    assert_eq!(u64_to_string(0), "0");
    assert_eq!(u64_to_string(7), "7");
    assert_eq!(u64_to_string(10), "10");
    assert_eq!(u64_to_string(1234567890), "1234567890");
    assert_eq!(u64_to_string(u64::MAX), "18446744073709551615");
}

#[test]
fn string_equality() {
    assert!(str_eq("", ""));
    assert!(str_eq("abc", "abc"));
    assert!(!str_eq("abc", "abd"));
    assert!(!str_eq("abc", "ab"));
    assert!(str_eq("héllo", "héllo"));
    assert!(!str_eq("héllo", "hello"));
}

#[test]
fn substring_search() {
    assert!(str_contains("git@github.com", "git@"));
    assert!(!str_contains("https://github.com", "git@"));
    assert!(str_contains("abc", ""));
    assert!(str_contains("", ""));
    assert!(!str_contains("", "a"));
    assert!(str_contains("ababa", "aba"));
}

#[test]
fn comma_joining() {
    assert_eq!(join_comma(&Vec::new()), "");
    assert_eq!(join_comma(&vec![String::from("one")]), "one");
    assert_eq!(
        join_comma(&vec![String::from("a"), String::from("b"), String::from("c")]),
        "a, b, c"
    );
}
