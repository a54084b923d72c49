use velos::text::{
    decimal_text, find, has_prefix, has_suffix, is_before, is_white_space, join, lines,
    octal_text, pad_spaces, pad_zeros, parse_integer, parse_natural, same_ignoring_case, shortened, trim, trim_end,
    without_prefix, words,
};

#[test]
fn numerals_are_written_and_read() {
    assert_eq!(decimal_text(0), "0");
    assert_eq!(decimal_text(u64::MAX), "18446744073709551615");
    assert_eq!(octal_text(0o644), "644");
    assert_eq!(pad_zeros("644", 4), "0644");
    assert_eq!(pad_zeros("12345", 4), "12345");
    assert_eq!(pad_spaces("ab", 4), "ab  ");
    assert_eq!(parse_natural("+42", 100), Some(42));
    assert_eq!(parse_natural("101", 100), None);
    assert_eq!(parse_natural("", 100), None);
    assert_eq!(parse_natural("4x", 100), None);
    assert_eq!(parse_natural("18446744073709551616", u64::MAX), None);
    assert_eq!(parse_integer("-9223372036854775808"), Some(i64::MIN));
    assert_eq!(parse_integer("-9223372036854775809"), None);
    assert_eq!(parse_integer("9223372036854775807"), Some(i64::MAX));
    assert_eq!(parse_integer("9223372036854775808"), None);
    assert_eq!(parse_integer("-"), None);
    assert_eq!(parse_integer("+-1"), None);
}

#[test]
fn strings_are_compared_and_cut() {
    assert!(is_before("10.0.0.10", "10.0.0.2"));
    assert!(is_before("a", "ab"));
    assert!(!is_before("a", "a"));
    assert!(has_prefix("velos-u1", "velos-"));
    assert!(!has_prefix("vel", "velos-"));
    assert!(has_suffix("io.velos-worker", "velos-worker"));
    assert_eq!(without_prefix("velos-u1", "velos-"), Some("u1".to_string()));
    assert_eq!(without_prefix("other", "velos-"), None);
    assert_eq!(find("a://b://c", "://"), Some(1));
    assert_eq!(find("abc", "://"), None);
    assert_eq!(trim_end("http://h///", '/'), "http://h");
    assert_eq!(shortened("héllo", 2), "hé");
    assert!(same_ignoring_case("RUNNING", "running"));
    assert!(!same_ignoring_case("É", "é"));
}

#[test]
fn white_space_is_that_of_unicode() {
    for c in '\0'..=char::MAX {
        assert_eq!(is_white_space(c), c.is_whitespace(), "{c:?}");
    }
    assert_eq!(trim("\u{a0}\t a b \r\n\u{2003}"), "a b");
    assert_eq!(trim(" \n"), "");
    assert_eq!(
        words("  a\u{2003}b\tc "),
        vec!["a".to_string(), "b".to_string(), "c".to_string()]
    );
    assert_eq!(
        lines("a\n\nb"),
        vec!["a".to_string(), String::new(), "b".to_string()]
    );
    assert_eq!(
        join(&vec!["a".to_string(), "b".to_string()], ", "),
        "a, b"
    );
    assert_eq!(join(&vec![], ", "), "");
}
