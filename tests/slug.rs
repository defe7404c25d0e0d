use blog_core::post::BlogPost;
use blog_core::slug::{
    generate_doc_slug, generate_heading_id, heading_id_from_lowercase, slug_from_lowercase, url_safe_tag,
};

#[test]
fn heading_ids() {
    assert_eq!(generate_heading_id("Hello World"), "hello-world");
    assert_eq!(generate_heading_id("Rust & Go"), "rust-_-go");
    assert_eq!(generate_heading_id("  Multiple   Spaces  "), "multiple-spaces");
    // CJK characters are alphanumeric and stay as they are.
    assert_eq!(generate_heading_id("中文标题"), "中文标题");
    assert_eq!(generate_heading_id("中文 标题!"), "中文-标题_");
    assert_eq!(generate_heading_id(""), "");
}

#[test]
fn doc_slug_keeps_ascii_only() {
    assert_eq!(generate_doc_slug("Hello, World!"), "hello-world");
    assert_eq!(generate_doc_slug("  Getting_Started -- Guide "), "getting-started-guide");
    assert_eq!(generate_doc_slug("中文标题"), "");
    assert_eq!(generate_doc_slug(""), "");
}

#[test]
fn slug_from_lowercase_does_not_lowercase() {
    assert_eq!(slug_from_lowercase("abc DEF"), "abc-DEF");
    assert_eq!(heading_id_from_lowercase("x.y z"), "x_y-z");
}

#[test]
fn post_slug_from_title() {
    assert_eq!(BlogPost::generate_slug("My First Post"), "my-first-post");
    assert_eq!(BlogPost::generate_slug("Rust & Web Development!"), "rust-web-development");
}

#[test]
fn post_slug_never_empty() {
    for title in ["", "中文标题", "!!!", "   ", "---"] {
        let s = BlogPost::generate_slug(title);
        assert!(!s.is_empty());
        assert!(s.starts_with("post-"));
        assert!(s["post-".len()..].chars().all(|c| c.is_ascii_digit() || c == '-'));
    }
}

#[test]
fn test_url_safe_tag() {
    assert_eq!(url_safe_tag("Rust & Web Development!"), "rust-web-development");
    assert_eq!(url_safe_tag("C++ / Systems"), "c-systems");
    assert_eq!(url_safe_tag("中文"), "");
}
