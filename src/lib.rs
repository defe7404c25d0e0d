//! Verified core of a small publishing tool: slugs, content digests, the
//! deduplicating post index, related-post selection and text utilities.

pub mod text;
pub mod slug;
pub mod digest;
pub mod post;
pub mod index;
pub mod related;
pub mod blog;
pub mod seqs;
pub mod markdown;
pub mod reading_time;
pub mod minify;
pub mod storage;
pub mod site;
pub mod images;
pub mod tags;
pub mod toc;
pub mod excerpt;
pub mod docs;
pub mod frontmatter;
pub mod wrap;
