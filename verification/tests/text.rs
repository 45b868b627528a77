//! String primitives.

use memory_core::text::{
    insert_string, push_decimal, sort_dedup_strings, split_whitespace, str_contains, trim_chars,
};

#[test]
fn decimal_notation() {
    let mut s = String::from("n=");
    push_decimal(&mut s, 0);
    push_decimal(&mut s, 1234);
    assert_eq!(s, "n=01234");
}

#[test]
fn whitespace_splitting_and_trimming() {
    assert_eq!(split_whitespace("  a\tbb \n c  "), vec!["a", "bb", "c"]);
    assert_eq!(trim_chars("\u{a0} x y \t"), "x y");
    assert!(split_whitespace("   ").is_empty());
}

#[test]
fn containment() {
    assert!(str_contains("hello world", "o w"));
    assert!(str_contains("abc", ""));
    assert!(!str_contains("ab", "abc"));
}

#[test]
fn string_sets() {
    let mut v: Vec<String> = Vec::new();
    insert_string(&mut v, "a".to_string());
    insert_string(&mut v, "b".to_string());
    insert_string(&mut v, "a".to_string());
    assert_eq!(v, vec!["a".to_string(), "b".to_string()]);
    assert_eq!(
        sort_dedup_strings(vec!["b".to_string(), "a".to_string(), "b".to_string()]),
        vec!["a".to_string(), "b".to_string()]
    );
}
