use blog_core::frontmatter::{split_frontmatter, split_tags, FrontMatterError};

#[test]
fn frontmatter_block_and_body() {
    let content = r#"---
title: Test Post
author: Test Author
tags: [rust, blog]
category: Technology
excerpt: This is a test post
---

# Test Content

This is the post content."#;
    let (fm, body) = split_frontmatter(content).unwrap();
    assert_eq!(
        fm.unwrap(),
        "title: Test Post\nauthor: Test Author\ntags: [rust, blog]\ncategory: Technology\nexcerpt: This is a test post"
    );
    assert!(body.starts_with("# Test Content"));
    assert_eq!(body, "# Test Content\n\nThis is the post content.");
}

#[test]
fn no_frontmatter_returns_content() {
    let content = "# Just a regular markdown file\n\nNo frontmatter here.";
    let (fm, body) = split_frontmatter(content).unwrap();
    assert!(fm.is_none());
    assert_eq!(body, content);
    let (fm, body) = split_frontmatter("\n  text").unwrap();
    assert!(fm.is_none());
    assert_eq!(body, "text");
}

#[test]
fn frontmatter_edge_cases() {
    assert_eq!(split_frontmatter("---\ntitle: x\n"), Err(FrontMatterError::Unclosed));
    assert_eq!(split_frontmatter("---"), Err(FrontMatterError::Unclosed));
    let (fm, body) = split_frontmatter("---\r\na: 1\r\n  ---  \r\nbody\r\n---\r\nmore").unwrap();
    assert_eq!(fm.unwrap(), "a: 1");
    assert_eq!(body, "body\n---\nmore");
    let (fm, body) = split_frontmatter("---\n---\n").unwrap();
    assert_eq!(fm.unwrap(), "");
    assert_eq!(body, "");
}

#[test]
fn comma_separated_tags() {
    assert_eq!(split_tags("rust, blog ,, web "), vec!["rust", "blog", "web"]);
    assert_eq!(split_tags(""), Vec::<String>::new());
    assert_eq!(split_tags("single"), vec!["single"]);
}
