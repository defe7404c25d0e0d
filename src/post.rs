//! The blog post record, its slug and its content hash.
use vstd::prelude::*;
use crate::digest::{content_hash, content_hash_of};
use crate::slug::{generate_doc_slug, slug_of};
use crate::text::{lowercase_of, decimal_of, i64_to_decimal};

verus! {

/// A blog post. Times are Unix timestamps in microseconds.
pub struct BlogPost {
    pub id: String,
    pub title: String,
    pub slug: String,
    pub content: String,
    pub excerpt: Option<String>,
    pub author: String,
    pub created_at: i64,
    pub updated_at: i64,
    pub published: bool,
    pub tags: Vec<String>,
    pub category: Option<String>,
    pub storage_id: Option<String>,
    pub content_hash: String,
}

/// The mathematical model of a post: every text as its characters.
pub struct PostView {
    pub id: Seq<char>,
    pub title: Seq<char>,
    pub slug: Seq<char>,
    pub content: Seq<char>,
    pub excerpt: Option<Seq<char>>,
    pub author: Seq<char>,
    pub created_at: i64,
    pub updated_at: i64,
    pub published: bool,
    pub tags: Seq<Seq<char>>,
    pub category: Option<Seq<char>>,
    pub storage_id: Option<Seq<char>>,
    pub content_hash: Seq<char>,
}

pub open spec fn opt_view(o: Option<String>) -> Option<Seq<char>> {
    match o {
        Some(s) => Some(s@),
        None => None,
    }
}

pub open spec fn strings_view(v: Seq<String>) -> Seq<Seq<char>> {
    v.map_values(|s: String| s@)
}

impl View for BlogPost {
    type V = PostView;

    open spec fn view(&self) -> PostView {
        PostView {
            id: self.id@,
            title: self.title@,
            slug: self.slug@,
            content: self.content@,
            excerpt: opt_view(self.excerpt),
            author: self.author@,
            created_at: self.created_at,
            updated_at: self.updated_at,
            published: self.published,
            tags: strings_view(self.tags@),
            category: opt_view(self.category),
            storage_id: opt_view(self.storage_id),
            content_hash: self.content_hash@,
        }
    }
}

/// The slug used when a title yields no slug characters.
pub open spec fn fallback_slug(timestamp: i64) -> Seq<char> {
    seq!['p', 'o', 's', 't', '-'] + decimal_of(timestamp as int)
}

/// What `generate_slug` returns, given the clock reading it falls back on.
pub open spec fn slug_with_fallback(slug: Seq<char>, timestamp: i64) -> Seq<char> {
    if slug.len() > 0 { slug } else { fallback_slug(timestamp) }
}

/// Relies on `chrono::Utc::now` and `DateTime::timestamp_micros`: the clock now.
#[verifier::external_body]
pub(crate) fn now_micros() -> (r: i64) {
    chrono::Utc::now().timestamp_micros()
}

/// Relies on `uuid::Uuid::new_v4` and its hyphenated `to_string`: a fresh random id.
#[verifier::external_body]
fn new_uuid() -> (r: String) {
    uuid::Uuid::new_v4().to_string()
}

/// Keeps a non-empty slug; replaces an empty one by `post-<timestamp>`.
pub fn slug_or_fallback(slug: String, timestamp: i64) -> (r: String)
    ensures
        r@ == slug_with_fallback(slug@, timestamp),
        r@.len() > 0,
{
    if !slug.as_str().is_empty() {
        slug
    } else {
        let digits = i64_to_decimal(timestamp);
        let mut r = String::from_str("post-");
        r.append(digits.as_str());
        proof {
            reveal_strlit("post-");
            assert(r@ =~= fallback_slug(timestamp));
        }
        r
    }
}

impl BlogPost {
    /// The record's own invariant: the hash is that of the content, the slug is not empty.
    pub open spec fn wf(&self) -> bool {
        &&& self.content_hash@ == content_hash_of(self.content@)
        &&& self.slug@.len() > 0
    }

    /// A new draft with the given id and creation time.
    pub fn new_at(title: String, content: String, author: String, id: String, now: i64) -> (r: Self)
        ensures
            r.wf(),
            r.id == id,
            r.title == title,
            r.content == content,
            r.author == author,
            r.slug@ == slug_with_fallback(slug_of(lowercase_of(title@)), now),
            r.excerpt.is_none(),
            r.created_at == now,
            r.updated_at == now,
            !r.published,
            r.tags@.len() == 0,
            r.category.is_none(),
            r.storage_id.is_none(),
    {
        let slug = slug_or_fallback(generate_doc_slug(title.as_str()), now);
        let content_hash = content_hash(content.as_str());
        BlogPost {
            id,
            title,
            slug,
            content,
            excerpt: None,
            author,
            created_at: now,
            updated_at: now,
            published: false,
            tags: Vec::new(),
            category: None,
            storage_id: None,
            content_hash,
        }
    }

    /// A new draft with a fresh random id, created now.
    pub fn new(title: String, content: String, author: String) -> (r: Self)
        ensures
            r.wf(),
            r.title == title,
            r.content == content,
            r.author == author,
            exists|t: i64| r.slug@ == slug_with_fallback(slug_of(lowercase_of(title@)), t),
            r.excerpt.is_none(),
            r.created_at == r.updated_at,
            !r.published,
            r.tags@.len() == 0,
            r.category.is_none(),
            r.storage_id.is_none(),
    {
        let now = now_micros();
        let id = new_uuid();
        Self::new_at(title, content, author, id, now)
    }

    /// The slug for a title; never empty, falling back on `post-<timestamp>`.
    pub fn generate_slug(title: &str) -> (r: String)
        ensures
            r@.len() > 0,
            exists|t: i64| r@ == slug_with_fallback(slug_of(lowercase_of(title@)), t),
            slug_of(lowercase_of(title@)).len() > 0 ==> r@ == slug_of(lowercase_of(title@)),
    {
        let now = now_micros();
        slug_or_fallback(generate_doc_slug(title), now)
    }

    /// The content hash: lowercase hex of the SHA-256 of the UTF-8 bytes.
    pub fn calculate_hash(content: &str) -> (r: String)
        ensures
            r@ == content_hash_of(content@),
    {
        content_hash(content)
    }

    /// Replaces the content at time `now`, keeping the hash in step.
    pub fn update_content_at(&mut self, new_content: String, now: i64)
        requires
            old(self).wf(),
        ensures
            final(self).wf(),
            final(self)@ == (PostView {
                content: new_content@,
                content_hash: content_hash_of(new_content@),
                updated_at: now,
                ..old(self)@
            }),
    {
        self.content_hash = content_hash(new_content.as_str());
        self.content = new_content;
        self.updated_at = now;
    }

    /// Replaces the content, keeping the hash in step and refreshing the update time.
    pub fn update_content(&mut self, new_content: String)
        requires
            old(self).wf(),
        ensures
            final(self).wf(),
            final(self)@ == (PostView {
                content: new_content@,
                content_hash: content_hash_of(new_content@),
                updated_at: final(self).updated_at,
                ..old(self)@
            }),
    {
        let now = now_micros();
        self.update_content_at(new_content, now);
    }

    /// A field-by-field copy.
    pub fn duplicate(&self) -> (r: Self)
        ensures
            r@ == self@,
    {
        let tags = clone_strings(&self.tags);
        proof {
            assert(strings_view(tags@) =~= strings_view(self.tags@));
        }
        BlogPost {
            id: self.id.clone(),
            title: self.title.clone(),
            slug: self.slug.clone(),
            content: self.content.clone(),
            excerpt: clone_opt(&self.excerpt),
            author: self.author.clone(),
            created_at: self.created_at,
            updated_at: self.updated_at,
            published: self.published,
            tags,
            category: clone_opt(&self.category),
            storage_id: clone_opt(&self.storage_id),
            content_hash: self.content_hash.clone(),
        }
    }
}

pub fn clone_opt(o: &Option<String>) -> (r: Option<String>)
    ensures
        r == *o,
{
    match o {
        Some(s) => Some(s.clone()),
        None => None,
    }
}

pub fn clone_strings(v: &Vec<String>) -> (r: Vec<String>)
    ensures
        r@ == v@,
{
    let mut r: Vec<String> = Vec::new();
    let mut i: usize = 0;
    while i < v.len()
        invariant
            i <= v.len(),
            r@ == v@.take(i as int),
        decreases v.len() - i,
    {
        r.push(v[i].clone());
        i += 1;
        assert(r@ =~= v@.take(i as int));
    }
    assert(v@.take(v.len() as int) =~= v@);
    r
}

} // verus!
