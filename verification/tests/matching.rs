use kooforge::matching::{
    ascii_lower_byte, ascii_lowercase_bytes, contains_ci, contains_cs, ends_with_ci, ends_with_cs,
    starts_with_ci, starts_with_cs, Matcher, Mode,
};

#[test]
fn matcher_case_sensitive_behaviour() {
    let any = Matcher::new(Mode::Any, false, "aB");
    let prefix = Matcher::new(Mode::Prefix, false, "aB");
    let suffix = Matcher::new(Mode::Suffix, false, "aB");

    assert!(any.is_match(b"xxaByy"));
    assert!(!any.is_match(b"xxAByy"));
    assert!(prefix.is_match(b"aBzzz"));
    assert!(!prefix.is_match(b"ABzzz"));
    assert!(suffix.is_match(b"zzzaB"));
    assert!(!suffix.is_match(b"zzzAB"));
}

#[test]
fn matcher_case_insensitive_behaviour() {
    let any = Matcher::new(Mode::Any, true, "aB");
    let prefix = Matcher::new(Mode::Prefix, true, "aB");
    let suffix = Matcher::new(Mode::Suffix, true, "aB");

    assert!(any.is_match(b"xxAByy"));
    assert!(prefix.is_match(b"ABzzz"));
    assert!(suffix.is_match(b"zzzAB"));
}

#[test]
fn matching_an_empty_pattern() {
    for mode in [Mode::Any, Mode::Prefix, Mode::Suffix] {
        for ci in [false, true] {
            let matcher = Matcher::new(mode, ci, "");
            assert!(matcher.is_match(b""));
            assert!(matcher.is_match(b"abc"));
        }
    }
}

#[test]
fn matching_a_pattern_longer_than_the_text() {
    for mode in [Mode::Any, Mode::Prefix, Mode::Suffix] {
        for ci in [false, true] {
            assert!(!Matcher::new(mode, ci, "abcd").is_match(b"abc"));
        }
    }
}

#[test]
fn an_anchored_match_is_a_match() {
    for ci in [false, true] {
        let any = Matcher::new(Mode::Any, ci, "ab");
        assert!(Matcher::new(Mode::Prefix, ci, "ab").is_match(b"abx"));
        assert!(any.is_match(b"abx"));
        assert!(Matcher::new(Mode::Suffix, ci, "ab").is_match(b"xab"));
        assert!(any.is_match(b"xab"));
    }
}

#[test]
fn matching_restarts_inside_a_partial_match() {
    assert!(contains_ci(b"aAaB", b"aab"));
    assert!(contains_cs(b"aaab", b"aab"));
    assert!(!contains_ci(b"aabA", b"aaa"));
    assert!(!contains_cs(b"aAab", b"aaa"));
}

#[test]
fn only_ascii_letters_change_case() {
    assert_eq!(ascii_lower_byte(b'A'), b'a');
    assert_eq!(ascii_lower_byte(b'Z'), b'z');
    assert_eq!(ascii_lower_byte(b'@'), b'@');
    assert_eq!(ascii_lower_byte(b'['), b'[');
    assert_eq!(ascii_lower_byte(0xC0), 0xC0);
    assert_eq!(ascii_lowercase_bytes(b"aB1Z"), b"ab1z".to_vec());
}

#[test]
fn prefixes_and_suffixes() {
    assert!(starts_with_cs(b"abc", b"ab") && !starts_with_cs(b"abc", b"bc"));
    assert!(ends_with_cs(b"abc", b"bc") && !ends_with_cs(b"abc", b"ab"));
    assert!(starts_with_ci(b"ABc", b"ab") && !starts_with_ci(b"ABc", b"AB"));
    assert!(ends_with_ci(b"aBC", b"bc") && !ends_with_ci(b"aBC", b"BC"));
}

#[test]
fn a_copy_of_a_matcher_matches_alike() {
    let matcher = Matcher::new(Mode::Suffix, true, "Ab").clone();
    assert!(matcher.is_match(b"xxaB"));
    assert!(!matcher.is_match(b"aBxx"));
}
