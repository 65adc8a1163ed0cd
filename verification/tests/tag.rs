use baan::tag::TagParser;

fn feed(s: &str) -> TagParser {
    let mut p = TagParser::default();
    p.feed(s);
    p
}

#[test]
fn initial_state() {
    assert!(TagParser::default().is_expecting_tag_name());
}

#[test]
fn ignores_chars_before_open_bracket() {
    let mut p = TagParser::default();
    for ch in " \na".chars() {
        p.consume(ch);
        assert!(p.is_expecting_tag_name());
    }
}

#[test]
fn open_bracket_starts_opening_tag() {
    let p = feed("<");
    assert_eq!(p.opening_tag_name(), Some(""));
}

#[test]
fn opening_tag_builds_name() {
    let p = feed("<div");
    assert_eq!(p.opening_tag_name(), Some("div"));
}

#[test]
fn closing_bracket_finishes_opening_tag() {
    let p = feed("<div>");
    assert_eq!(p.collected_content(), Some(("div", "")));
}

#[test]
fn content_accumulates() {
    let p = feed("<div>hi");
    assert_eq!(p.collected_content(), Some(("div", "hi")));
}

#[test]
fn open_bracket_in_content_starts_close_tag() {
    let p = feed("<div>hi<");
    assert_eq!(p.close_tag_state(), Some(("div", "hi", "")));
}

#[test]
fn slash_consumed_without_storing() {
    let p = feed("<div>hi</");
    assert_eq!(p.close_tag_state(), Some(("div", "hi", "")));
}

#[test]
fn close_tag_name_accumulates() {
    let p = feed("<div>hi</div");
    assert_eq!(p.close_tag_state(), Some(("div", "hi", "div")));
}

#[test]
fn complete_matching_tag() {
    let p = feed("<div>hi</div>");
    assert!(p.is_closed());
}

#[test]
fn take_returns_name_content_and_tag_text() {
    let mut p = TagParser::default();
    p.feed("<p>hi</p>");
    assert_eq!(
        p.take(),
        Some(("p".into(), Some("hi".into()), "<p>hi</p>".into()))
    );
    assert!(p.is_expecting_tag_name());
}

#[test]
fn sequential_tags() {
    let mut p = feed("<p>a</p><b>c</b>");
    assert!(p.is_closed());
    assert_eq!(
        p.take(),
        Some(("b".into(), Some("c".into()), "<b>c</b>".into()))
    );
}

#[test]
fn mismatched_close_tag_absorbed_into_content() {
    let p = feed("<div>hello</span>");
    assert_eq!(p.collected_content(), Some(("div", "hello</span>")));
}

#[test]
fn tag_name_with_hyphens_and_digits() {
    let mut p = feed("<my-tag1>content</my-tag1>");
    assert_eq!(
        p.take(),
        Some((
            "my-tag1".into(),
            Some("content".into()),
            "<my-tag1>content</my-tag1>".into()
        ))
    );
}

#[test]
fn chars_consumed_resets_on_non_tag_char() {
    let mut p = TagParser::default();
    p.consume('a');
    assert_eq!(p.chars_consumed(), 0);
}

#[test]
fn chars_consumed_counts_full_sequence() {
    let mut p = TagParser::default();
    p.feed("<x>y</x>");
    assert_eq!(p.chars_consumed(), 8);
}

#[test]
fn single_close_tag() {
    let mut p = feed("<now/>");
    assert!(p.is_closed());
    assert_eq!(p.take(), Some(("now".into(), None, "<now/>".into())));
    assert!(p.is_expecting_tag_name());
}

#[test]
fn invalid_single_close_tag_resets() {
    let p = feed("<now/a");
    assert!(p.is_expecting_tag_name());
    assert_eq!(p.chars_consumed(), 0);
}

#[test]
fn test_remove_char_opening_tag() {
    let mut parser = feed("<di");
    assert_eq!(parser.chars_consumed(), 3);
    assert_eq!(parser.opening_tag_name(), Some("di"));

    assert!(parser.remove_char());
    assert_eq!(parser.chars_consumed(), 2);
    assert_eq!(parser.opening_tag_name(), Some("d"));

    assert!(parser.remove_char());
    assert_eq!(parser.chars_consumed(), 1);
    assert_eq!(parser.opening_tag_name(), Some(""));

    assert!(parser.remove_char());
    assert_eq!(parser.chars_consumed(), 0);
    assert!(parser.is_expecting_tag_name());

    assert!(!parser.remove_char());
}

#[test]
fn test_remove_char_content() {
    let mut parser = feed("<a>He");

    assert_eq!(parser.chars_consumed(), 5);
    assert_eq!(parser.collected_content(), Some(("a", "He")));

    assert!(parser.remove_char());
    assert_eq!(parser.collected_content(), Some(("a", "H")));

    assert!(parser.remove_char());
    assert_eq!(parser.collected_content(), Some(("a", "")));

    assert!(parser.remove_char());
    assert_eq!(parser.opening_tag_name(), Some("a"));
}

#[test]
fn test_remove_char_invalid_input_clears_history() {
    let parser = feed("<a");
    assert_eq!(parser.chars_consumed(), 2);


    let mut parser2 = feed("<a/>");
    assert!(parser2.is_closed());

    parser2.consume('x');
    assert!(parser2.is_expecting_tag_name());
    assert_eq!(parser2.chars_consumed(), 0);

    assert!(!parser2.remove_char());
}

#[test]
fn test_remove_char_close_tag_mismatch() {
    let mut parser = feed("<a>hello</b");

    assert_eq!(parser.close_tag_state(), Some(("a", "hello", "b")));

    assert!(parser.remove_char());
    assert_eq!(parser.close_tag_state(), Some(("a", "hello", "")));

    assert!(parser.remove_char());
    assert_eq!(parser.close_tag_state(), Some(("a", "hello", "")));

    assert!(parser.remove_char());
    assert_eq!(parser.collected_content(), Some(("a", "hello")));
}

#[test]
fn the_tag_text_is_what_was_typed() {
    let mut p = feed("x<a>hi<a>");
    assert_eq!(p.take(), Some(("a".into(), Some("hi".into()), "<a>hi<a>".into())));
    let mut p = feed("<a>b</c>d</a>");
    assert_eq!(
        p.take(),
        Some(("a".into(), Some("b</c>d".into()), "<a>b</c>d</a>".into()))
    );
    assert_eq!(p.take(), None);
}

#[test]
fn feeding_in_parts_is_feeding_at_once() {
    let mut p = feed("<di");
    p.feed("v>h");
    assert_eq!(p.collected_content(), feed("<div>h").collected_content());
    assert_eq!(p.chars_consumed(), 6);
}

#[test]
fn a_closed_tag_can_be_taken_back() {
    let mut p = feed("<a/>");
    assert!(p.is_closed());
    assert!(p.remove_char());
    assert!(!p.is_closed());
    p.consume('>');
    assert_eq!(p.take(), Some(("a".into(), None, "<a/>".into())));
}
