use blog_core::docs::{DocCategory, DocSection, Documentation};
use blog_core::slug::generate_doc_slug;

fn section(title: &str) -> DocSection {
    DocSection {
        id: title.to_lowercase(),
        title: title.to_string(),
        slug: generate_doc_slug(title),
        content: String::new(),
        parent_id: None,
        order: 0,
        created_at: 0,
        updated_at: 0,
        source_url: None,
        is_translated: false,
    }
}

#[test]
fn sections_grouped_by_category() {
    let mut docs = Documentation::new("proj".to_string(), "https://example.com".to_string(), "1.0".to_string());
    docs.add_category(DocCategory {
        id: "guide".to_string(),
        name: "Guide".to_string(),
        slug: "guide".to_string(),
        description: String::new(),
        order: 1,
        icon: None,
    });
    assert_eq!(docs.categories.len(), 1);
    docs.add_section("guide".to_string(), section("Getting Started"));
    docs.add_section("api".to_string(), section("Client API"));
    docs.add_section("guide".to_string(), section("Advanced Topics"));

    let guide: Vec<&str> = docs.get_sections_by_category("guide").iter().map(|s| s.title.as_str()).collect();
    assert_eq!(guide, vec!["Getting Started", "Advanced Topics"]);
    assert_eq!(docs.get_sections_by_category("api").len(), 1);
    assert!(docs.get_sections_by_category("missing").is_empty());

    assert_eq!(docs.get_section_by_slug("client-api").map(|s| s.title.as_str()), Some("Client API"));
    assert_eq!(docs.get_section_by_slug("advanced-topics").map(|s| s.title.as_str()), Some("Advanced Topics"));
    assert!(docs.get_section_by_slug("nope").is_none());
}
