use mechanix_shell::text::{
    chars_between, join_text, decimal_string, same_text, str_byte_len, substring, white_space,
};

#[test]
fn decimal_rendering() {
    assert_eq!(decimal_string(0), "0");
    assert_eq!(decimal_string(7), "7");
    assert_eq!(decimal_string(1234), "1234");
    assert_eq!(decimal_string(u64::MAX), u64::MAX.to_string());
}

#[test]
fn byte_lengths_and_substrings() {
    assert_eq!(str_byte_len("héllo"), 6);
    assert_eq!(substring("héllo", 1, 3), "é");
    assert_eq!(substring("abc", 0, 3), "abc");
    assert_eq!(chars_between("héllo", 1, 3), "él");
}

#[test]
fn text_equality_and_concat() {
    assert!(same_text("abc", "abc"));
    assert!(!same_text("abc", "abd"));
    assert!(!same_text("abc", "ab"));
    assert_eq!(join_text("ab", "cd"), "abcd");
}

#[test]
fn white_space_matches_std() {
    for c in [' ', '\t', '\n', '\u{a0}', '\u{3000}', 'a', '0', '(', '\u{200b}'] {
        assert_eq!(white_space(c), c.is_whitespace(), "{:?}", c);
    }
}
