use shortlink::pattern::{characters, like_chars};
use shortlink::{containment_pattern, like_match};

#[test]
fn containment_pattern_wraps_the_fragment() {
    assert_eq!(containment_pattern("ab1"), "%ab1%");
    assert_eq!(containment_pattern(""), "%%");
    assert_eq!(containment_pattern("a_b"), "%a_b%");
    assert_eq!(containment_pattern("%"), "%%%");
    assert_eq!(containment_pattern("\\"), "%\\%");
}

#[test]
fn like_empty_pattern_matches_only_the_empty_text() {
    assert!(like_match("", ""));
    assert!(!like_match("", "a"));
}

#[test]
fn like_plain_pattern_matches_the_same_text() {
    assert!(like_match("abc", "abc"));
    assert!(!like_match("abc", "abd"));
    assert!(!like_match("abc", "ab"));
    assert!(!like_match("ab", "abc"));
    assert!(!like_match("abc", ""));
    assert!(!like_match("ABC", "abc"));
}

#[test]
fn like_percent_stands_for_any_run() {
    assert!(like_match("%", ""));
    assert!(like_match("%", "abc"));
    assert!(like_match("%%", ""));
    assert!(like_match("%%", "abc"));
    assert!(like_match("a%", "a"));
    assert!(like_match("a%", "abc"));
    assert!(!like_match("a%", "bac"));
    assert!(like_match("%c", "abc"));
    assert!(!like_match("%c", "abcd"));
    assert!(like_match("a%c", "ac"));
    assert!(like_match("a%c", "abc"));
    assert!(like_match("a%c", "abbbc"));
    assert!(!like_match("a%c", "abd"));
    assert!(like_match("%b%", "abc"));
    assert!(!like_match("%d%", "abc"));
    assert!(like_match("%a%a%", "aa"));
    assert!(like_match("%a%a%", "banana"));
    assert!(!like_match("%a%a%", "a"));
}

#[test]
fn like_underscore_stands_for_one_character() {
    assert!(like_match("_", "a"));
    assert!(!like_match("_", ""));
    assert!(!like_match("_", "ab"));
    assert!(like_match("a_c", "abc"));
    assert!(like_match("a_c", "a_c"));
    assert!(!like_match("a_c", "ac"));
    assert!(!like_match("a_c", "abbc"));
    assert!(like_match("%a_c%", "xxabcxx"));
    assert!(like_match("%_%", "a"));
    assert!(!like_match("%_%", ""));
    assert!(like_match("__", "ab"));
    assert!(like_match("_", "\u{e9}"));
    assert!(like_match("\u{e9}%", "\u{e9}t\u{e9}"));
}

#[test]
fn like_backslash_makes_the_next_character_literal() {
    assert!(like_match("\\%", "%"));
    assert!(!like_match("\\%", "a"));
    assert!(!like_match("\\%", ""));
    assert!(like_match("\\_", "_"));
    assert!(!like_match("\\_", "a"));
    assert!(like_match("a\\%b", "a%b"));
    assert!(!like_match("a\\%b", "axb"));
    assert!(like_match("\\\\", "\\"));
    assert!(!like_match("\\\\", "\\\\"));
    assert!(like_match("\\a", "a"));
    assert!(!like_match("\\a", "\\a"));
    assert!(like_match("100\\%%", "100% sure"));
    assert!(!like_match("100\\%%", "1000 sure"));
}

#[test]
fn like_backslash_at_the_end_stands_for_itself() {
    assert!(like_match("a\\", "a\\"));
    assert!(!like_match("a\\", "a"));
    assert!(like_match("\\", "\\"));
}

#[test]
fn like_containment_pattern_finds_plain_fragments() {
    let texts = ["", "a", "ab", "abc", "xabcx", "abab", "ba", "cab", "aab", "b"];
    let fragments = ["", "a", "ab", "abc", "ba", "bb", "abab"];
    for fragment in fragments {
        let pattern = containment_pattern(fragment);
        for text in texts {
            assert_eq!(like_match(&pattern, text), text.contains(fragment));
        }
    }
}

#[test]
fn like_many_percents_are_answered_quickly() {
    let pattern = "%a%a%a%a%a%a%a%a%a%a%a%a%a%a%a%a%b";
    let text = "aaaaaaaaaaaaaaaaaaaaaaaaaaaaaaaaaaaaaaaaaaaaaaaaaaaaaaaaaaaaaaaa";
    assert!(!like_match(pattern, text));
    assert!(like_match("%a%a%a%a%a%a%a%a%a%a%a%a%a%a%a%a%", text));
}

#[test]
fn characters_of_a_text() {
    assert_eq!(characters(""), Vec::<char>::new());
    assert_eq!(characters("ab1"), vec!['a', 'b', '1']);
    assert_eq!(characters("\u{e9}t\u{e9}"), vec!['\u{e9}', 't', '\u{e9}']);
}

#[test]
fn like_chars_agrees_with_like_match() {
    let patterns = ["", "%", "_", "a%", "%a", "a_c", "\\%", "%a%b%", "abc"];
    let texts = ["", "a", "abc", "ab", "%", "xaxbx", "ba"];
    for pattern in patterns {
        for text in texts {
            assert_eq!(
                like_chars(&characters(pattern), &characters(text)),
                like_match(pattern, text)
            );
        }
    }
    assert!(like_chars(&vec!['a', '%'], &vec!['a', 'b']));
    assert!(!like_chars(&vec!['a', '_'], &vec!['a']));
}
