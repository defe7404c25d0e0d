use blog_core::blog::BlogManager;
use blog_core::digest::content_hash;
use blog_core::index::{IndexError, PostIndex};
use blog_core::post::{slug_or_fallback, BlogPost};

fn post_at(title: &str, content: &str, author: &str, id: &str, created: i64) -> BlogPost {
    BlogPost::new_at(title.to_string(), content.to_string(), author.to_string(), id.to_string(), created)
}

fn published(mut p: BlogPost, tags: &[&str], category: Option<&str>) -> BlogPost {
    p.published = true;
    p.tags = tags.iter().map(|t| t.to_string()).collect();
    p.category = category.map(|c| c.to_string());
    p
}

#[test]
fn hash_is_sha256_hex() {
    assert_eq!(
        BlogPost::calculate_hash("Hello"),
        "185f8db32271fe25f561a6fc938b2e264306ec304eda518007d1764826381969"
    );
    assert_eq!(
        content_hash(""),
        "e3b0c44298fc1c149afbf4c8996fb92427ae41e4649b934ca495991b7852b855"
    );
    assert_eq!(BlogPost::calculate_hash("Hello"), BlogPost::calculate_hash("Hello"));
    assert_ne!(BlogPost::calculate_hash("Hello"), BlogPost::calculate_hash("Hello!"));
}

#[test]
fn new_post_is_a_draft_with_its_hash() {
    let p = BlogPost::new("Hi".to_string(), "Hello".to_string(), "A".to_string());
    assert!(!p.published);
    assert_eq!(p.slug, "hi");
    assert_eq!(p.content_hash, BlogPost::calculate_hash("Hello"));
    assert_eq!(p.created_at, p.updated_at);
    assert!(p.tags.is_empty());
    assert_eq!(p.id.len(), 36);
}

#[test]
fn update_content_refreshes_hash() {
    let mut p = post_at("T", "one", "A", "id1", 10);
    p.update_content_at("two".to_string(), 20);
    assert_eq!(p.content, "two");
    assert_eq!(p.content_hash, BlogPost::calculate_hash("two"));
    assert_eq!(p.updated_at, 20);
    assert_eq!(p.created_at, 10);
    p.update_content("three".to_string());
    assert_eq!(p.content_hash, BlogPost::calculate_hash("three"));
}

#[test]
fn fallback_slug_uses_timestamp() {
    assert_eq!(slug_or_fallback(String::new(), 1700000000), "post-1700000000");
    assert_eq!(slug_or_fallback(String::new(), -5), "post--5");
    assert_eq!(slug_or_fallback("kept".to_string(), 1), "kept");
}

#[test]
fn end_to_end_dedup_publish_and_related() {
    let mut blog = BlogManager::new();
    let first = post_at("Hi", "Hello", "A", "id-1", 100);
    assert_eq!(blog.existing_copy(&first), None);
    let s1 = blog.create_post(first, "S1".to_string()).unwrap();
    assert_eq!(s1, "S1");
    assert_eq!(blog.list_posts(false).len(), 1);

    let second = post_at("Hi Again", "Hello", "B", "id-2", 200);
    assert_eq!(blog.existing_copy(&second), Some("S1".to_string()));
    let s2 = blog.create_post(second, "S2".to_string()).unwrap();
    assert_eq!(s2, s1);
    assert_eq!(blog.list_posts(false).len(), 1);

    blog.publish_post(&s1, 300);
    let all = blog.list_posts(false);
    let live = blog.list_posts(true);
    assert_eq!(live.len(), 1);
    assert_eq!(all.len(), 1);
    assert_eq!(live[0].0, "S1");
    assert!(live[0].1.published);
    assert_eq!(live[0].1.updated_at, 300);

    let other = published(post_at("Other", "Another body", "A", "id-3", 150), &[], None);
    blog.create_post(other, "S3".to_string()).unwrap();
    let third = post_at("Unrelated", "Third body", "C", "id-4", 400);
    blog.create_post(third, "S4".to_string()).unwrap();

    let related = blog.get_related_posts("id-4", &[], None, 5);
    assert_eq!(related.len(), 2);
    let none_for_first = blog.get_related_posts("id-1", &[], None, 5);
    assert_eq!(none_for_first.len(), 1);
    assert_eq!(none_for_first[0].0, "S3");
}

#[test]
fn create_post_recomputes_hash() {
    let mut blog = BlogManager::new();
    let mut p = post_at("T", "body", "A", "id-1", 1);
    p.content_hash = "stale".to_string();
    blog.create_post(p, "S1".to_string()).unwrap();
    let stored = blog.get_post("S1").unwrap();
    assert_eq!(stored.content_hash, BlogPost::calculate_hash("body"));
    assert_eq!(stored.storage_id, Some("S1".to_string()));
}

#[test]
fn insert_errors_leave_index_unchanged() {
    let mut index = PostIndex::new();
    let mut p = post_at("T", "a", "A", "id-1", 1);
    p.tags = vec!["x".to_string(), "y".to_string(), "x".to_string()];
    index.insert_post(&p, "S1").unwrap();
    assert_eq!(index.get_post_by_storage_id("S1").unwrap().tags, vec!["x", "y"]);

    let same_id = post_at("T2", "b", "A", "id-1", 2);
    assert_eq!(index.insert_post(&same_id, "S2"), Err(IndexError::DuplicateId));
    let same_sid = post_at("T2", "b", "A", "id-2", 2);
    assert_eq!(index.insert_post(&same_sid, "S1"), Err(IndexError::DuplicateStorageId));
    let same_content = post_at("T2", "a", "A", "id-3", 2);
    assert_eq!(index.insert_post(&same_content, "S3"), Err(IndexError::DuplicateContent));
    assert_eq!(index.len(), 1);
    assert!(index.get_posts_by_tag("x", false).len() == 1);
    assert!(index.get_posts_by_tag("y", false).len() == 1);
    assert!(index.get_post_by_storage_id("S2").is_none());
    assert!(index.get_post_by_storage_id("S3").is_none());
}

#[test]
fn listing_is_newest_first_and_filtered() {
    let mut index = PostIndex::new();
    index.insert_post(&published(post_at("a", "1", "A", "a", 10), &[], None), "Sa").unwrap();
    index.insert_post(&post_at("b", "2", "A", "b", 30), "Sb").unwrap();
    index.insert_post(&published(post_at("c", "3", "A", "c", 20), &[], None), "Sc").unwrap();
    let all: Vec<String> = index.list_posts(false).into_iter().map(|r| r.0).collect();
    let live: Vec<String> = index.list_posts(true).into_iter().map(|r| r.0).collect();
    assert_eq!(all, vec!["Sb", "Sc", "Sa"]);
    assert_eq!(live, vec!["Sc", "Sa"]);
}

#[test]
fn tags_query_and_delete() {
    let mut index = PostIndex::new();
    index.insert_post(&published(post_at("a", "1", "A", "a", 10), &["rust", "web"], None), "Sa").unwrap();
    index.insert_post(&post_at("b", "2", "A", "b", 20), "Sb").unwrap();
    index.insert_post(&published(post_at("c", "3", "A", "c", 30), &["rust"], None), "Sc").unwrap();
    let rust: Vec<String> = index.get_posts_by_tag("rust", false).into_iter().map(|r| r.0).collect();
    assert_eq!(rust, vec!["Sc", "Sa"]);
    assert_eq!(index.get_posts_by_tag("web", true).len(), 1);
    assert_eq!(index.get_posts_by_tag("go", false).len(), 0);
    index.delete_post("c");
    assert_eq!(index.len(), 2);
    assert!(index.get_post_by_storage_id("Sc").is_none());
    index.delete_post("missing");
    assert_eq!(index.len(), 2);
}

#[test]
fn update_post_edits_in_place() {
    let mut index = PostIndex::new();
    index.insert_post(&post_at("a", "1", "A", "a", 10), "Sa").unwrap();
    index.insert_post(&post_at("b", "2", "A", "b", 20), "Sb").unwrap();
    let mut edit = post_at("a2", "new body", "Z", "a", 99);
    edit.tags = vec!["t".to_string(), "t".to_string()];
    index.update_post(&edit, 50).unwrap();
    let p = index.get_post_by_storage_id("Sa").unwrap();
    assert_eq!(p.title, "a2");
    assert_eq!(p.content, "new body");
    assert_eq!(p.author, "Z");
    assert_eq!(p.slug, "a");
    assert_eq!(p.created_at, 10);
    assert_eq!(p.updated_at, 50);
    assert_eq!(p.tags, vec!["t"]);
    assert_eq!(p.content_hash, BlogPost::calculate_hash("new body"));
    assert_eq!(index.get_post_by_content_hash(&BlogPost::calculate_hash("new body")), Some("Sa".to_string()));

    let clash = post_at("x", "2", "A", "a", 1);
    assert_eq!(index.update_post(&clash, 60), Err(IndexError::DuplicateContent));
    assert_eq!(index.get_post_by_storage_id("Sa").unwrap().content, "new body");
}

#[test]
fn related_posts_scored_then_padded() {
    let mut index = PostIndex::new();
    let target_tags = ["rust", "web"];
    index.insert_post(&published(post_at("t", "0", "A", "t", 50), &target_tags, Some("dev")), "St").unwrap();
    index.insert_post(&published(post_at("a", "1", "A", "a", 10), &["rust"], None), "Sa").unwrap();
    index.insert_post(&published(post_at("b", "2", "A", "b", 20), &["rust", "web"], None), "Sb").unwrap();
    index.insert_post(&published(post_at("c", "3", "A", "c", 30), &[], Some("dev")), "Sc").unwrap();
    index.insert_post(&published(post_at("d", "4", "A", "d", 40), &["go"], None), "Sd").unwrap();
    index.insert_post(&published(post_at("e", "5", "A", "e", 45), &[], None), "Se").unwrap();
    index.insert_post(&post_at("f", "6", "A", "f", 60), "Sf").unwrap();
    let tags: Vec<String> = target_tags.iter().map(|t| t.to_string()).collect();

    let ids = |limit: usize| -> Vec<String> {
        index.get_related_posts("t", &tags, Some("dev"), limit).into_iter().map(|r| r.0).collect()
    };
    // b scores 4, a scores 2, c scores 1; then d and e pad by recency.
    assert_eq!(ids(10), vec!["Sb", "Sa", "Sc", "Se", "Sd"]);
    assert_eq!(ids(2), vec!["Sb", "Sa"]);
    assert_eq!(ids(4), vec!["Sb", "Sa", "Sc", "Se"]);
    assert_eq!(ids(0), Vec::<String>::new());
    // Without a category, c no longer scores and pads by recency.
    let no_cat: Vec<String> =
        index.get_related_posts("t", &tags, None, 10).into_iter().map(|r| r.0).collect();
    assert_eq!(no_cat, vec!["Sb", "Sa", "Se", "Sd", "Sc"]);
}

#[test]
fn tag_counts_most_used_first() {
    let mut blog = BlogManager::new();
    blog.create_post(published(post_at("a", "1", "A", "a", 10), &["rust", "web"], None), "Sa".to_string()).unwrap();
    blog.create_post(published(post_at("b", "2", "A", "b", 20), &["web", "go"], None), "Sb".to_string()).unwrap();
    blog.create_post(published(post_at("c", "3", "A", "c", 30), &["web", "ai"], None), "Sc".to_string()).unwrap();
    blog.create_post(post_at("d", "4", "A", "d", 40), "Sd".to_string()).unwrap();
    let mut draft = post_at("e", "5", "A", "e", 50);
    draft.tags = vec!["draft-only".to_string(), "rust".to_string()];
    blog.create_post(draft, "Se".to_string()).unwrap();
    let tags = blog.get_all_tags();
    assert_eq!(
        tags,
        vec![
            ("web".to_string(), 3),
            ("ai".to_string(), 1),
            ("go".to_string(), 1),
            ("rust".to_string(), 1),
        ]
    );
    assert!(BlogManager::new().get_all_tags().is_empty());
}
