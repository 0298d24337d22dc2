use fm::text::{chars_of, decimal_text, is_white_space, join, same, split, starts_with, trim};

fn owned(parts: &[&str]) -> Vec<String> {
    parts.iter().map(|part| (*part).to_owned()).collect()
}

#[test]
fn white_space_is_what_unicode_says() {
    for c in '\0'..=char::MAX {
        assert_eq!(is_white_space(c), c.is_whitespace(), "{:?}", c);
    }
}

#[test]
fn trims_like_the_standard_library() {
    for text in ["", " ", "a", " a b ", "\u{3000}x\u{a0}", "\t\r\n", "x\u{200b}"] {
        assert_eq!(trim(text), text.trim());
        assert_eq!(trim(&trim(text)), trim(text));
    }
}

#[test]
fn numbers_read_as_usual() {
    for n in [0, 7, 10, 99, 100, 1_234_567_890, u64::MAX] {
        assert_eq!(decimal_text(n), n.to_string());
    }
}

#[test]
fn splitting_and_joining_undo_each_other() {
    for text in ["", "/", "a", "a/b", "/a//b/"] {
        let parts = split(text, '/');
        let expected: Vec<String> = text.split('/').map(str::to_owned).collect();
        assert_eq!(parts, expected);
        assert_eq!(join(&parts, "/"), text);
    }
    assert_eq!(join(&owned(&["a", "b", "c"]), ", "), "a, b, c");
    assert_eq!(join(&[], ", "), "");
}

#[test]
fn characters_and_prefixes() {
    assert_eq!(chars_of("a\u{e9}"), vec!['a', '\u{e9}']);
    assert!(same(&"x".to_owned(), "x"));
    assert!(!same(&"x".to_owned(), "X"));
    assert!(starts_with(&owned(&["a", "b"]), &owned(&["a"])));
    assert!(starts_with(&owned(&["a", "b"]), &owned(&[])));
    assert!(!starts_with(&owned(&["a"]), &owned(&["a", "b"])));
    assert!(!starts_with(&owned(&["ab"]), &owned(&["a"])));
}
