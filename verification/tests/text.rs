use baan::number::{decimal_text, parse_u32, signed_decimal_text};
use baan::text::{
    eq_ignore_ascii_case, find, is_whitespace, lines, same_text, split, strip_prefix, text_of, trim,
    trim_end,
};

fn chars(s: &str) -> Vec<char> {
    s.chars().collect()
}

fn strings(parts: Vec<Vec<char>>) -> Vec<String> {
    parts.into_iter().map(|part| part.into_iter().collect()).collect()
}

#[test]
fn trimming_is_that_of_the_standard_library() {
    for s in ["", "  ", "a", " a b ", "\u{a0}\u{2003}x\u{3000}", "\t\r\n\u{b}\u{c}é\u{85}", "\u{200b}a"] {
        assert_eq!(trim(s), s.trim(), "{s:?}");
        assert_eq!(trim_end(s), s.trim_end(), "{s:?}");
    }
    for code in 0..0x11_0000u32 {
        if let Some(c) = char::from_u32(code) {
            assert_eq!(is_whitespace(c), c.is_whitespace(), "{code:x}");
        }
    }
}

#[test]
fn searching_finds_the_first_occurrence() {
    assert_eq!(find(&chars("abcabc"), &chars("ca"), 0), Some(2));
    assert_eq!(find(&chars("abcabc"), &chars("bc"), 2), Some(4));
    assert_eq!(find(&chars("abc"), &chars("x"), 0), None);
    assert_eq!(find(&chars("abc"), &chars(""), 0), Some(0));
    assert_eq!(find(&chars("aab"), &chars("ab"), 0), Some(1));
    assert_eq!(find(&chars(""), &chars("a"), 0), None);
}

#[test]
fn splitting_and_lines_are_those_of_the_standard_library() {
    for s in ["", "a", "a:b", ":", "::a", "a:b:"] {
        let expected: Vec<&str> = s.split(':').collect();
        assert_eq!(strings(split(&chars(s), ':')), expected, "{s:?}");
    }
    for s in ["", "a", "a\n", "a\r\nb", "\n\n", "a\nb\r", "\r\n"] {
        let expected: Vec<&str> = s.lines().collect();
        assert_eq!(strings(lines(&chars(s))), expected, "{s:?}");
    }
}

#[test]
fn letter_case_is_ignored_in_ascii_only() {
    assert!(eq_ignore_ascii_case("GrEeT", "gReEt"));
    assert!(!eq_ignore_ascii_case("é", "É"));
    assert!(!eq_ignore_ascii_case("a", "ab"));
    assert!(!eq_ignore_ascii_case("[", "{"));
}

#[test]
fn pieces_of_text_are_cut_by_characters() {
    assert_eq!(text_of(&chars("héllo"), 1, 3), "él");
    assert_eq!(strip_prefix("X12", "X"), Some(chars("12")));
    assert_eq!(strip_prefix("x12", "X"), None);
    assert!(same_text("é", "é"));
    assert!(!same_text("e", "é"));
}

#[test]
fn numbers_are_written_and_read() {
    for n in [0, 7, 10, 4294967295u128, u128::MAX] {
        assert_eq!(decimal_text(n), n.to_string());
    }
    for i in [0, -1, 42, i64::MIN, i64::MAX] {
        assert_eq!(signed_decimal_text(i), i.to_string());
    }
    for s in ["0", "007", "+5", "4294967295", "4294967296", "", "+", "-1", "1a", "++1", " 1", "٣"] {
        assert_eq!(parse_u32(&chars(s)), s.parse::<u32>().ok(), "{s:?}");
    }
}
