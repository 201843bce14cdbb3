use vcs_provider::order::{begins_with, is_before, sort_positions};
use vcs_provider::path::{split, validate_path};
use vcs_provider::error::VcsError;
use vcs_provider::text::{
    after_prefix, characters, contains_text, decimal_text, first_line_text, has_control,
    parse_unsigned, same_text, text_between, trim_bounds,
};

fn trim(text: &str) -> String {
    let chars = characters(text);
    let (start, end) = trim_bounds(&chars, 0, chars.len());
    text_between(&chars, start, end)
}

fn number(text: &str) -> Option<usize> {
    let chars = characters(text);
    parse_unsigned(&chars, 0, chars.len()).ok()
}

#[test]
fn numbers_are_written_and_read_back() {
    for n in [0u64, 7, 10, 4096, 33554432, u64::MAX] {
        assert_eq!(decimal_text(n), n.to_string());
        assert_eq!(number(&n.to_string()), Some(n as usize));
    }
    for text in ["0012", "+5"] {
        assert_eq!(number(text), text.parse().ok());
    }
    for text in ["", "+", "-1", "1.5", " 1", "18446744073709551616"] {
        assert_eq!(number(text), None, "{text}");
    }
}

#[test]
fn white_space_is_trimmed_as_unicode_has_it() {
    for text in ["", "  ", " a b ", "\u{a0}a\u{3000}", "\u{200b}a", "\t2\r\n", "\u{85}x\u{2029}"] {
        assert_eq!(trim(text), text.trim());
    }
}

#[test]
fn control_characters_are_found() {
    for text in ["plain", "a\u{7f}", "a\u{9f}b", "a\u{a0}b", "\u{0}", "tab\t"] {
        assert_eq!(has_control(text), text.chars().any(char::is_control));
    }
}

#[test]
fn texts_are_searched_and_cut() {
    assert!(contains_text("aab", "ab"));
    assert!(contains_text("anything", ""));
    assert!(!contains_text("ab", "abc"));
    assert_eq!(after_prefix("HEAD:a", "HEAD:"), Some("a".into()));
    assert_eq!(after_prefix("HEAD", "HEAD:"), None);
    assert!(same_text("a\u{301}", "a\u{301}"));
    assert!(!same_text("\u{e1}", "a\u{301}"));
}

#[test]
fn the_first_line_ends_as_lines_do() {
    for text in ["", "one", "one\ntwo", "one\r\ntwo", "\ntwo", "one\rtwo\nthree", "one\r", "\r\n"] {
        assert_eq!(first_line_text(text), text.lines().next().unwrap_or_default());
    }
}

#[test]
fn paths_are_refused_for_their_reasons() {
    for path in ["", "a\\b", "a:b", "a\0"] {
        assert_eq!(validate_path(path), Err(VcsError::InvalidPath), "{path}");
    }
    for path in ["/", "/a", "a/", "a//b", ".", "..", "a/./b", "a/.."] {
        assert_eq!(validate_path(path), Err(VcsError::PathEscapes), "{path}");
    }
    for path in ["a", "a/b", "...", "a b/.c", "..a/b.."] {
        assert_eq!(validate_path(path), Ok(()), "{path}");
    }
}

#[test]
fn paths_are_ordered_by_components() {
    let before = |left: &str, right: &str| is_before(&split(left), &split(right));
    assert!(before("a/b", "a-b"));
    assert!(before("a", "a/b"));
    assert!(before("B", "a"));
    assert!(!before("a", "a"));
    assert!(before("z", "\u{e9}"));
    let keys = ["c", "a/z", "b", "a", "a/b/c"].iter().map(|path| split(path)).collect();
    assert_eq!(sort_positions(&keys, 0, 5), [3, 4, 1, 2, 0]);
    assert!(begins_with(&split("a/b/c"), &split("a/b")));
    assert!(!begins_with(&split("ab/c"), &split("a")));
}
