use fm::component::search::{fold, highlights, is_match, Span};

fn span(start: usize, end: usize) -> Span {
    Span { start, end }
}

#[test]
fn ascii_case_is_folded_and_nothing_else() {
    let folded: String = fold("AZaz@[\u{c9}\u{130}").into_iter().collect();
    assert_eq!(folded, "AZaz@[\u{c9}\u{130}".to_ascii_lowercase());
}

#[test]
fn a_name_matches_in_whatever_case() {
    assert!(is_match("Makefile", "FILE"));
    assert!(is_match("a\u{e9}b", "\u{e9}B"));
    assert!(!is_match("a\u{c9}b", "\u{e9}"));
    assert!(!is_match("abc", "abcd"));
    assert!(!is_match("abc", ""));
    assert!(!is_match("", "a"));
}

#[test]
fn highlights_are_byte_ranges_of_the_name() {
    assert_eq!(highlights("notas NOTAS", "nota"), vec![span(0, 4), span(6, 10)]);
    assert_eq!(highlights("\u{e9}a\u{1f600}A", "a"), vec![span(2, 3), span(7, 8)]);
    assert_eq!(highlights("x\u{20ac}\u{20ac}", "\u{20ac}"), vec![span(1, 4), span(4, 7)]);
    assert_eq!(highlights("abc", ""), vec![]);
}

#[test]
fn highlights_do_not_overlap() {
    assert_eq!(highlights("aaaaa", "AA"), vec![span(0, 2), span(2, 4)]);
    assert_eq!(highlights("ababa", "aba"), vec![span(0, 3)]);
}

#[test]
fn what_matches_is_highlighted_as_the_standard_library_finds_it() {
    for name in ["", "abcabc", "ABab", "aXbXc", "\u{e9}\u{e9}\u{e9}", "mississippi"] {
        for term in ["a", "ab", "x", "\u{e9}\u{e9}", "issi", "c"] {
            let lower = name.to_ascii_lowercase();
            let expected: Vec<Span> = lower
                .match_indices(&term.to_ascii_lowercase())
                .map(|(at, found)| span(at, at + found.len()))
                .collect();
            assert_eq!(highlights(name, term), expected);
            assert_eq!(is_match(name, term), !expected.is_empty());
        }
    }
}
