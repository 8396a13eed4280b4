use langsprint::text::{is_space_char, split_whitespace, str_eq};

#[test]
fn splitting_finds_maximal_nonspace_runs() {
    assert_eq!(split_whitespace("a b c"), vec!["a", "b", "c"]);
    assert_eq!(split_whitespace("  და   არა  "), vec!["და", "არა"]);
    assert_eq!(split_whitespace(""), Vec::<String>::new());
    assert_eq!(split_whitespace(" \t\n "), Vec::<String>::new());
    assert_eq!(split_whitespace("ერთი\u{00A0}ორი"), vec!["ერთი", "ორი"]);
}

#[test]
fn string_comparison_goes_by_codepoints() {
    assert!(str_eq("და", "და"));
    assert!(!str_eq("და", "დ"));
    assert!(!str_eq("a", "ა"));
    assert!(str_eq("", ""));
}

#[test]
fn whitespace_test_matches_the_standard_set() {
    for c in [' ', '\t', '\n', '\r', '\u{00A0}', '\u{2028}', '\u{3000}'] {
        assert!(is_space_char(c));
        assert!(c.is_whitespace());
    }
    for c in ['a', 'ა', '0', '-', '\u{200B}'] {
        assert!(!is_space_char(c));
        assert!(!c.is_whitespace());
    }
}
