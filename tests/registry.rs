use blog_core::images::{is_image_file, ImageOptimizationConfig, OptimizationStats};
use blog_core::slug::{sanitize_slug, sanitize_slug_at, sanitize_tag_for_url};
use blog_core::minify::MinifyStats;
use blog_core::site::{GiscusConfig, PageContext, SiteConfig};
use blog_core::storage::{
    commit_message, content_type, local_object_id, metadata_get, required_path, StorageBackend,
    StorageError, StorageManager,
};

#[test]
fn registry_lookup_and_overwrite() {
    let mut m: StorageManager<&str> = StorageManager::new(StorageBackend::Local);
    assert_eq!(m.get_backend(&StorageBackend::Local), None);
    m.add_backend(StorageBackend::Local, "disk");
    m.add_backend(StorageBackend::Ipfs, "ipfs-a");
    m.add_backend(StorageBackend::Ipfs, "ipfs-b");
    assert_eq!(m.get_backend(&StorageBackend::Ipfs), Some(&"ipfs-b"));
    assert_eq!(m.get_backend(&StorageBackend::GitHub), None);
    assert_eq!(*m.default_backend(), "disk");
    assert_eq!(m.default_backend_kind(), StorageBackend::Local);
}

#[test]
fn site_path_joins_base() {
    let mut c = SiteConfig::default();
    assert_eq!(c.path("/posts/a"), "/posts/a");
    c.base_path = Some("/blog//".to_string());
    assert_eq!(c.path("/posts/a"), "/blog/posts/a");
    assert_eq!(c.path("posts/a"), "/blog/posts/a");
    c.base_path = Some(String::new());
    assert_eq!(c.path("x"), "/x");
}

#[test]
fn defaults() {
    let c = SiteConfig::default();
    assert_eq!(c.title, "My IPFS Blog");
    assert_eq!(c.posts_per_page, 10);
    assert!(c.enable_rss);
    let g = GiscusConfig::default();
    assert_eq!(g.category, "Announcements");
    assert_eq!(g.mapping, "pathname");
    let i = ImageOptimizationConfig::default();
    assert_eq!((i.max_width, i.max_height, i.jpeg_quality), (1920, 1080, 85));
    let p = PageContext { site: c, page_title: "T".to_string(), content: String::new() };
    assert_eq!(p.page_title, "T");
}

#[test]
fn summaries() {
    let s = MinifyStats { files_processed: 3, bytes_saved: 2048, errors: 0 };
    assert_eq!(s.summary(), "Minified 3 files, saved 2048 bytes (0.00 MB), 0 errors");
    let s = MinifyStats { files_processed: 1, bytes_saved: 1572864, errors: 2 };
    assert_eq!(s.summary(), "Minified 1 files, saved 1572864 bytes (1.50 MB), 2 errors");
    let o = OptimizationStats { images_processed: 2, bytes_saved: -1048576, errors: 0 };
    assert_eq!(o.summary(), "Processed 2 images, saved -1048576 bytes (-1.00 MB), 0 errors");
    let o = OptimizationStats { images_processed: 0, bytes_saved: 5243, errors: 1 };
    assert_eq!(o.summary(), "Processed 0 images, saved 5243 bytes (0.01 MB), 1 errors");
    let o = OptimizationStats::default();
    assert_eq!(o.summary(), format!("Processed 0 images, saved 0 bytes ({:.2} MB), 0 errors", 0.0));
}

#[test]
fn test_is_image_file() {
    assert!(is_image_file("test.jpg"));
    assert!(is_image_file("test.JPEG"));
    assert!(is_image_file("test.png"));
    assert!(is_image_file("test.gif"));
    assert!(!is_image_file("test.txt"));
    assert!(!is_image_file("test"));
}

#[test]
fn image_extension_edge_cases() {
    assert!(is_image_file("static/images/photo.WebP"));
    assert!(is_image_file("a.b/c.bmp"));
    assert!(!is_image_file(".png"));
    assert!(is_image_file(".hidden.png"));
    assert!(!is_image_file("images.png/readme"));
    assert!(!is_image_file("photo."));
}

#[test]
fn sanitized_names() {
    assert_eq!(sanitize_slug_at("Hello World!", 5), "Hello-World");
    assert_eq!(sanitize_slug_at("snake_case--name", 5), "snake_case-name");
    assert_eq!(sanitize_slug_at("中文", 42), "post-42");
    assert!(sanitize_slug("中文").starts_with("post-"));
    assert_eq!(sanitize_slug("ok-name"), "ok-name");
    assert_eq!(sanitize_tag_for_url("Rust Web 开发"), "rust-web-开发");
    assert_eq!(sanitize_tag_for_url("A  B"), "a--b");
}

fn meta(pairs: &[(&str, &str)]) -> Vec<(String, String)> {
    pairs.iter().map(|(k, v)| (k.to_string(), v.to_string())).collect()
}

#[test]
fn backend_capabilities() {
    assert_eq!(StorageBackend::Ipfs.storage_type(), "ipfs");
    assert_eq!(StorageBackend::GitHub.storage_type(), "github");
    assert_eq!(StorageBackend::Local.storage_type(), "local");
    assert_eq!(StorageBackend::Ipfs.check_delete(), Err(StorageError::Unsupported));
    assert_eq!(StorageBackend::GitHub.check_delete(), Err(StorageError::Unsupported));
    assert_eq!(StorageBackend::Local.check_delete(), Ok(()));
}

#[test]
fn store_metadata_rules() {
    let m = meta(&[("path", "posts/a.md"), ("content_type", "text/markdown"), ("path", "other")]);
    assert_eq!(required_path(&m), Ok("posts/a.md".to_string()));
    assert_eq!(required_path(&meta(&[])), Err(StorageError::MissingPath));
    assert_eq!(commit_message(&m, "posts/a.md"), "Add content to posts/a.md");
    assert_eq!(commit_message(&meta(&[("message", "hi")]), "x"), "hi");
    assert_eq!(local_object_id(&m, "abc123"), "abc123");
    assert_eq!(local_object_id(&meta(&[("filename", "img.png")]), "abc123"), "img.png");
    assert_eq!(content_type(&m), "text/markdown");
    assert_eq!(content_type(&meta(&[])), "application/octet-stream");
    assert_eq!(metadata_get(&m, "missing"), None);
}
