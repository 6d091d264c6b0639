use healer_fuzzer::text::{contains_memleak, fmt_u64, str_contains};

#[test]
fn fmt_u64_renders_decimal() {
    assert_eq!(fmt_u64(0), "0");
    assert_eq!(fmt_u64(7), "7");
    assert_eq!(fmt_u64(10), "10");
    assert_eq!(fmt_u64(987654321), "987654321");
    assert_eq!(fmt_u64(u64::MAX), "18446744073709551615");
}

#[test]
fn str_contains_finds_substrings() {
    assert!(str_contains("hello world", "lo wo"));
    assert!(str_contains("hello", "hello"));
    assert!(str_contains("hello", ""));
    assert!(str_contains("", ""));
    assert!(!str_contains("", "a"));
    assert!(!str_contains("hello", "world"));
    assert!(!str_contains("abc", "abcd"));
    assert!(str_contains("aaab", "aab"));
}

#[test]
fn memleak_marker_detection() {
    assert!(contains_memleak("CRASH-MEMLEAK: xyz"));
    assert!(contains_memleak("prefix CRASH-MEMLEAK"));
    assert!(!contains_memleak("CRASH-MEMLEA"));
    assert!(!contains_memleak("crash-memleak"));
}
