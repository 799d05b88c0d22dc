use rustpeek::similarity::chars_of;
use rustpeek::similarity::edit_distance;
use rustpeek::similarity::is_similar;

fn dist(a: &str, b: &str) -> usize {
    edit_distance(&chars_of(a), &chars_of(b))
}

#[test]
fn identical_names_are_not_similar() {
    assert!(!is_similar("Parser", "Parser"));
    assert!(!is_similar("", ""));
}

#[test]
fn names_differing_only_in_case_are_similar() {
    assert!(is_similar("Parser", "parser"));
    assert!(is_similar("FOO", "foo"));
    assert!(is_similar("MyType", "mytype"));
}

#[test]
fn distance_two_between_six_character_names_is_similar() {
    assert_eq!(dist("abcdef", "abcdxx"), 2);
    assert!(is_similar("abcdef", "abcdxx"));
}

#[test]
fn distance_three_between_four_character_names_is_not_similar() {
    assert_eq!(dist("abcd", "xyzd"), 3);
    assert!(!is_similar("abcd", "xyzd"));
}

#[test]
fn threshold_scales_with_length() {
    // length <= 4: one edit allowed
    assert!(is_similar("abcd", "abxd"));
    assert!(!is_similar("abcd", "abxy"));
    // length 5..8: two edits allowed
    assert!(is_similar("abcdefgh", "abcdefxy"));
    assert!(!is_similar("abcdefgh", "abcdexyz"));
    // length >= 9: three edits allowed
    assert!(is_similar("abcdefghi", "abcdefxyz"));
    assert!(!is_similar("abcdefghi", "abcdewxyz"));
}

#[test]
fn edit_distance_exact_values() {
    assert_eq!(dist("kitten", "sitting"), 3);
    assert_eq!(dist("", "abc"), 3);
    assert_eq!(dist("abc", ""), 3);
    assert_eq!(dist("flaw", "lawn"), 2);
    // case never costs an edit
    assert_eq!(dist("ABC", "abc"), 0);
}

#[test]
fn typo_suggestions_behave_like_the_checks_expect() {
    assert!(is_similar("Parser", "Parsre"));
    assert!(is_similar("Color", "Colour"));
    assert!(!is_similar("Yellow", "Red"));
}
