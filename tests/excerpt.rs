use blog_core::excerpt::{clean_excerpt, excerpt_from_events, generate_excerpt};
use blog_core::markdown::MdEvent;
use blog_core::wrap::wrap_text;

#[test]
fn excerpt_stops_after_first_paragraph() {
    let markdown = "# Test Post\n\nThis is the first paragraph with some **bold** text.\n\nThis is the second paragraph.";
    assert_eq!(generate_excerpt(markdown, 10), "This is the first paragraph with some bold text.");
    assert_eq!(generate_excerpt(markdown, 30), "This is the first paragraph with some bold text. This is the second paragraph.");
    assert_eq!(generate_excerpt(markdown, 4), "This is the first...");
}

#[test]
fn test_code_block_skipping() {
    let markdown = "Some text\n\n```rust\nfn main() {}\n```\n\nMore text here.";
    let excerpt = generate_excerpt(markdown, 10);
    assert!(!excerpt.contains("fn main"));
    assert!(excerpt.contains("More text"));
}

#[test]
fn clean_excerpt_trims_and_closes() {
    assert_eq!(clean_excerpt("  a   b  "), "a b...");
    assert_eq!(clean_excerpt("Done."), "Done.");
    assert_eq!(clean_excerpt("Why?"), "Why?");
    assert_eq!(clean_excerpt("   "), "");
}

#[test]
fn excerpt_stops_at_word_limit() {
    let events = vec![MdEvent::Text("one two three four five".to_string())];
    assert_eq!(excerpt_from_events(&events, 3), "one two three...");
    assert_eq!(excerpt_from_events(&events, 10), "one two three four five...");
}

#[test]
fn excerpt_skips_headings_and_code() {
    let events = vec![
        MdEvent::HeadingStart(1),
        MdEvent::Text("Title".to_string()),
        MdEvent::HeadingEnd,
        MdEvent::Text("Body".to_string()),
        MdEvent::LineBreak,
        MdEvent::Text("line.".to_string()),
        MdEvent::CodeBlockStart,
        MdEvent::Text("code".to_string()),
        MdEvent::CodeBlockEnd,
    ];
    assert_eq!(excerpt_from_events(&events, 10), "Body line.");
}

#[test]
fn wraps_long_lines_greedily() {
    assert_eq!(wrap_text("aaa bbb ccc", 7), "aaa bbb\nccc\n");
    assert_eq!(wrap_text("short\n```rust fenced line that is long\n    indented code stays as it is", 10),
        "short\n```rust fenced line that is long\n    indented code stays as it is\n");
    // Widths count UTF-8 bytes.
    assert_eq!(wrap_text("é é é", 5), "é é\né\n");
    assert_eq!(wrap_text("", 10), "");
    assert_eq!(wrap_text("one\r\ntwo\n", 10), "one\ntwo\n");
    assert_eq!(wrap_text("averyveryverylongword x", 5), "averyveryverylongword\nx\n");
}
