use blog_core::markdown::MdEvent;
use blog_core::toc::{escape_html, generate_toc, generate_toc_html, toc_from_events, TocEntry};

#[test]
fn test_generate_toc() {
    let markdown = r#"
# Main Title

## Section 1
Some content here.

### Subsection 1.1
More content.

### Subsection 1.2
Even more content.

## Section 2
Another section.
"#;

    let toc = generate_toc(markdown);
    assert_eq!(toc.len(), 2); // H1 is skipped
    assert_eq!(toc[0].text, "Section 1");
    assert_eq!(toc[0].level, 2);
    assert_eq!(toc[0].children.len(), 2);
    assert_eq!(toc[0].children[0].text, "Subsection 1.1");
    assert_eq!(toc[1].text, "Section 2");
}

#[test]
fn toc_ids_and_inline_code() {
    let toc = generate_toc("## Using `Vec` & friends\n\n#### Deep\n\n### Back up\n");
    assert_eq!(toc.len(), 1);
    assert_eq!(toc[0].text, "Using `Vec` & friends");
    assert_eq!(toc[0].id, "using-_vec_-_-friends");
    let kids: Vec<(u8, &str)> = toc[0].children.iter().map(|c| (c.level, c.text.as_str())).collect();
    assert_eq!(kids, vec![(4, "Deep"), (3, "Back up")]);
    assert!(generate_toc("no headings here").is_empty());
}

#[test]
fn toc_html_nests_lists() {
    assert_eq!(generate_toc_html(&[]), "");
    let toc = vec![TocEntry {
        level: 2,
        text: "A <b>".to_string(),
        id: "a".to_string(),
        children: vec![TocEntry { level: 3, text: "B".to_string(), id: "b".to_string(), children: vec![] }],
    }];
    let html = generate_toc_html(&toc);
    let expected = [
        "<nav class=\"toc\" id=\"toc\">\n    <h2 class=\"toc-title\">Table of Contents</h2>\n    <ul class=\"toc-list\">",
        "<li class=\"toc-item toc-level-2\">\n                <a href=\"#a\" class=\"toc-link\">A &lt;b&gt;</a>",
        "<ul class=\"toc-sublist\">",
        "<li class=\"toc-item toc-level-3\">\n                <a href=\"#b\" class=\"toc-link\">B</a></li>",
        "</ul></li>",
        "</ul></nav>",
    ]
    .concat();
    assert_eq!(html, expected);
}

#[test]
fn escapes_html_specials() {
    assert_eq!(escape_html("a & b < c > d \" e ' f"), "a &amp; b &lt; c &gt; d &quot; e &#x27; f");
    assert_eq!(escape_html("plain"), "plain");
}

#[test]
fn toc_from_heading_events() {
    let events = vec![
        MdEvent::HeadingStart(1),
        MdEvent::Text("Title".to_string()),
        MdEvent::HeadingEnd,
        MdEvent::HeadingStart(3),
        MdEvent::Text("Deep".to_string()),
        MdEvent::HeadingEnd,
        MdEvent::HeadingStart(2),
        MdEvent::HeadingEnd,
        MdEvent::HeadingStart(2),
        MdEvent::Code("x".to_string()),
        MdEvent::HeadingEnd,
    ];
    let toc = toc_from_events(&events);
    let top: Vec<(u8, &str)> = toc.iter().map(|e| (e.level, e.text.as_str())).collect();
    assert_eq!(top, vec![(3, "Deep"), (2, "`x`")]);
    assert_eq!(toc[1].id, "_x_");
}
