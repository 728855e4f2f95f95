use cxlib_app::text::{
    i64_to_text, nonempty_fields, nonempty_lines, parse_i64, split_char, split_once, to_string_lines,
    trim, trimmed_pieces,
};

#[test]
fn trim_removes_surrounding_white_space() {
    assert_eq!(trim("  a b \n\t"), "a b");
    assert_eq!(trim("\u{3000}x\u{a0}"), "x");
    assert_eq!(trim("   "), "");
    assert_eq!(trim("plain"), "plain");
}

#[test]
fn split_keeps_empty_pieces() {
    assert_eq!(split_char("a,,b,", ','), vec!["a", "", "b", ""]);
    assert_eq!(split_char("", ','), vec![""]);
    assert_eq!(split_char("abc", ','), vec!["abc"]);
}

#[test]
fn split_once_at_first_separator() {
    assert_eq!(
        split_once("pwd:phone:x", ':'),
        Some(("pwd".to_string(), "phone:x".to_string()))
    );
    assert_eq!(split_once("phone", ':'), None);
    assert_eq!(split_once(":", ':'), Some((String::new(), String::new())));
}

#[test]
fn lines_are_each_followed_by_a_line_feed() {
    assert_eq!(to_string_lines(vec!["a".to_string(), "b".to_string()]), "a\nb\n");
    assert_eq!(to_string_lines(vec![]), "");
}

#[test]
fn nonempty_lines_skip_empty_ones() {
    assert_eq!(nonempty_lines("a\n\nb\n"), vec!["a", "b"]);
    assert_eq!(nonempty_lines(""), Vec::<String>::new());
}

#[test]
fn fields_are_trimmed_and_empty_ones_dropped() {
    assert_eq!(trimmed_pieces(" a , b ,", ','), vec!["a", "b", ""]);
    assert_eq!(nonempty_fields(" a , , b ", ','), vec!["a", "b"]);
}

#[test]
fn parse_i64_reads_what_std_reads() {
    assert_eq!(parse_i64("42"), Some(42));
    assert_eq!(parse_i64("+7"), Some(7));
    assert_eq!(parse_i64("-0"), Some(0));
    assert_eq!(parse_i64("-9223372036854775808"), Some(i64::MIN));
    assert_eq!(parse_i64("9223372036854775807"), Some(i64::MAX));
    assert_eq!(parse_i64("9223372036854775808"), None);
    assert_eq!(parse_i64(""), None);
    assert_eq!(parse_i64("-"), None);
    assert_eq!(parse_i64("1a"), None);
    assert_eq!(parse_i64(" 1"), None);
    for s in ["0", "17", "-3", "+12"] {
        assert_eq!(parse_i64(s), s.parse::<i64>().ok());
    }
}

#[test]
fn i64_text_is_display() {
    for v in [0i64, 9, 10, -1, 1234567, i64::MIN, i64::MAX] {
        assert_eq!(i64_to_text(v), v.to_string());
        assert_eq!(parse_i64(&i64_to_text(v)), Some(v));
    }
}
