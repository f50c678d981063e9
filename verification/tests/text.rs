use waseda_moodle_checker::text::{
    chars_of, decimal_string, matches_at, push_decimal, strip, strip_token_chars,
};

fn chars(text: &str) -> Vec<char> {
    text.chars().collect()
}

#[test]
fn chars_of_gives_the_characters_in_order() {
    assert_eq!(chars_of("héllo"), vec!['h', 'é', 'l', 'l', 'o']);
    assert_eq!(chars_of(""), Vec::<char>::new());
}

#[test]
fn matches_at_tests_one_position() {
    let text = chars("abcabc");
    assert!(matches_at(&text, &chars("abc"), 0));
    assert!(matches_at(&text, &chars("abc"), 3));
    assert!(!matches_at(&text, &chars("abc"), 1));
    assert!(!matches_at(&text, &chars("abc"), 4));
    assert!(!matches_at(&text, &chars("abc"), 7));
    assert!(matches_at(&text, &chars(""), 6));
    assert!(!matches_at(&text, &chars(""), 7));
}

#[test]
fn strip_removes_every_occurrence() {
    assert_eq!(strip("a=TOK&b=TOK", "TOK"), "a=&b=");
    assert_eq!(strip("TOKTOK", "TOK"), "");
    assert_eq!(strip("no token here", "TOK"), "no token here");
    assert_eq!(strip("", "TOK"), "");
}

#[test]
fn strip_with_an_empty_token_changes_nothing() {
    assert_eq!(strip("abc", ""), "abc");
    assert_eq!(strip("", ""), "");
}

#[test]
fn strip_takes_occurrences_from_the_left_without_overlap() {
    assert_eq!(strip("aaaaa", "aa"), "a");
    assert_eq!(strip("ababa", "aba"), "ba");
}

#[test]
fn strip_does_not_look_again_at_what_a_removal_joins() {
    assert_eq!(strip("aabb", "ab"), "ab");
}

#[test]
fn strip_agrees_with_replace_of_the_standard_library() {
    let cases = [
        ("sesskey=abc123&x=abc123", "abc123"),
        ("aaaa", "aa"),
        ("aabb", "ab"),
        ("日本語のテキスト日本", "日本"),
        ("xyz", "xyzz"),
        ("xyz", ""),
    ];
    for (text, token) in cases {
        assert_eq!(strip(text, token), text.replace(token, ""));
    }
}

#[test]
fn strip_token_chars_works_on_characters() {
    assert_eq!(strip_token_chars(&chars("a-b-c"), &chars("-")), chars("abc"));
}

#[test]
fn decimal_string_writes_numbers_as_the_standard_library_does() {
    for n in [0u64, 1, 9, 10, 11, 99, 100, 101, 4096, 1234567890, u64::MAX] {
        assert_eq!(decimal_string(n), n.to_string());
    }
    assert_eq!(decimal_string(4096), "4096");
}

#[test]
fn push_decimal_appends() {
    let mut out = vec!['n', '='];
    push_decimal(&mut out, 305);
    assert_eq!(out, chars("n=305"));
}
