use fig_lite::text::{
    concat_str, first_line_str, is_blank_str, is_whitespace_char, push_decimal,
    push_padded_decimal, strip_prefix_or_keep_str, trim_end_str, trim_start_str, utf16_len_str,
    utf8_len_below,
};

#[test]
fn whitespace_matches_std() {
    for c in ['a', ' ', '\t', '\n', '\r', '\u{85}', '\u{a0}', '\u{2003}', '\u{3000}', '\u{200b}', 'é'] {
        assert_eq!(is_whitespace_char(c), c.is_whitespace());
    }
}

#[test]
fn trims_match_std() {
    for s in ["", "  ", " a b ", "x\u{3000}", "\u{a0}y", "abc"] {
        assert_eq!(trim_end_str(s), s.trim_end());
        assert_eq!(trim_start_str(s), s.trim_start());
        assert_eq!(is_blank_str(s), s.trim().is_empty());
    }
}

#[test]
fn first_line_matches_split_once() {
    for s in ["", "a", "a\nb", "\nb", "ab\r\ncd\nef"] {
        let expected = s.split_once('\n').map(|(l, _)| l).unwrap_or(s);
        assert_eq!(first_line_str(s), expected);
    }
}

#[test]
fn strip_prefix_matches_std() {
    for (t, p) in [("abc", "ab"), ("abc", "abc"), ("abc", "abcd"), ("abc", "b"), ("abc", "")] {
        assert_eq!(strip_prefix_or_keep_str(t, p), t.strip_prefix(p).unwrap_or(t));
    }
}

#[test]
fn decimal_formatting_matches_format() {
    for n in [0usize, 7, 10, 99, 12345, 123456, usize::MAX] {
        let mut out = Vec::new();
        push_decimal(&mut out, n);
        assert_eq!(out.iter().collect::<String>(), n.to_string());
        let mut out = Vec::new();
        push_padded_decimal(&mut out, n, 5);
        assert_eq!(out.iter().collect::<String>(), format!("{:>5}", n));
    }
}

#[test]
fn lengths_match_std() {
    for s in ["", "abc", "é", "😀a", "日本語"] {
        assert_eq!(utf16_len_str(s), s.encode_utf16().count());
        assert!(utf8_len_below(s, s.len() + 1));
        assert!(!utf8_len_below(s, s.len()));
    }
    assert_eq!(concat_str("ab", "cd"), "abcd");
}
