use todo_backend::text::contains_str;

#[test]
fn contains_finds_inner_substring() {
    assert!(contains_str("todo_001", "do_0"));
    assert!(contains_str("todo_001", "todo"));
    assert!(contains_str("todo_001", "001"));
}

#[test]
fn contains_of_equal_strings() {
    assert!(contains_str("abc", "abc"));
}

#[test]
fn contains_rejects_absent_substring() {
    assert!(!contains_str("todo_001", "002"));
    assert!(!contains_str("abc", "ac"));
}

#[test]
fn empty_needle_is_everywhere() {
    assert!(contains_str("", ""));
    assert!(contains_str("abc", ""));
}

#[test]
fn needle_longer_than_hay_never_matches() {
    assert!(!contains_str("ab", "abc"));
    assert!(!contains_str("", "a"));
}

#[test]
fn contains_counts_characters_not_bytes() {
    assert!(contains_str("héllo", "éll"));
    assert!(!contains_str("héllo", "hl"));
}
