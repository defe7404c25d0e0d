//! The blog manager: deduplicating writes and the queries that callers use.
//!
//! Writing a post's blob to a storage backend is the caller's part: it asks
//! [`BlogManager::existing_copy`] first and writes only when that is `None`,
//! then hands the backend's identifier to [`BlogManager::create_post`].
use vstd::prelude::*;
use crate::digest::{content_hash, content_hash_of};
use crate::index::{
    PostIndex, IndexError, RowView, rows_wf, stored_row, insert_error, hash_count, listed, tagged,
    rows_view, with_published, edited_row, lemma_hash_count_one, lemma_dedup,
};
use crate::post::{BlogPost, PostView, strings_view};
use crate::related::related;
use crate::tags::{is_tag_listing, entries_view};

verus! {

/// A post with its content hash recomputed from its content.
pub open spec fn rehashed(p: PostView) -> PostView {
    PostView { content_hash: content_hash_of(p.content), ..p }
}

/// The index of the row holding a content hash, if one does.
pub open spec fn row_with_hash(v: Seq<RowView>, h: Seq<char>) -> Option<int> {
    if exists|i: int| 0 <= i < v.len() && v[i].1.content_hash == h {
        Some(choose|i: int| 0 <= i < v.len() && v[i].1.content_hash == h)
    } else {
        None
    }
}

/// What `create_post` does, as a relation between the index before and
/// after, the post, the fresh storage id and the result.
pub open spec fn create_post_step(
    before: Seq<RowView>,
    post: PostView,
    sid: Seq<char>,
    after: Seq<RowView>,
    r: Result<Seq<char>, IndexError>,
) -> bool {
    let p = rehashed(post);
    match row_with_hash(before, p.content_hash) {
        Some(i) => after == before && r == Ok::<Seq<char>, IndexError>(before[i].0),
        None => match insert_error(before, p, sid) {
            Some(e) => after == before && r == Err::<Seq<char>, IndexError>(e),
            None => r == Ok::<Seq<char>, IndexError>(sid) && exists|k: int|
                0 <= k <= before.len() && after == before.insert(k, stored_row(p, sid)),
        },
    }
}

pub open spec fn result_view(r: Result<String, IndexError>) -> Result<Seq<char>, IndexError> {
    match r {
        Ok(s) => Ok(s@),
        Err(e) => Err(e),
    }
}

/// Orchestrates the post index on behalf of the command line, the web
/// server and the site generator.
pub struct BlogManager {
    index: PostIndex,
}

impl View for BlogManager {
    type V = Seq<RowView>;

    closed spec fn view(&self) -> Seq<RowView> {
        self.index@
    }
}

impl BlogManager {
    pub open spec fn wf(&self) -> bool {
        rows_wf(self@)
    }

    /// A manager over an empty index.
    pub fn new() -> (r: Self)
        ensures
            r.wf(),
            r@.len() == 0,
    {
        BlogManager { index: PostIndex::new() }
    }

    /// The storage id of a stored post with the same content, if any. When
    /// this is `Some`, `create_post` writes nothing and returns it.
    pub fn existing_copy(&self, post: &BlogPost) -> (r: Option<String>)
        requires
            self.wf(),
        ensures
            match r {
                Some(s) => row_with_hash(self@, content_hash_of(post@.content)) matches Some(i)
                    && self@[i].0 == s@,
                None => row_with_hash(self@, content_hash_of(post@.content)) is None,
            },
    {
        let h = content_hash(post.content.as_str());
        let r = self.index.get_post_by_content_hash(h.as_str());
        proof {
            let v = self@;
            if r is Some {
                let i = choose|i: int| 0 <= i < v.len() && v[i].0 == r->0@ && v[i].1.content_hash == h@;
                let j = row_with_hash(v, h@)->0;
                assert(i == j);
            }
        }
        r
    }

    /// Records a post whose blob the default backend stored under `storage_id`.
    /// The hash is first recomputed from the content. When a post with the
    /// same content is already indexed, nothing changes and its storage id is
    /// returned; otherwise the post is inserted, all or nothing.
    pub fn create_post(&mut self, post: BlogPost, storage_id: String) -> (r: Result<String, IndexError>)
        requires
            old(self).wf(),
        ensures
            final(self).wf(),
            create_post_step(old(self)@, post@, storage_id@, final(self)@, result_view(r)),
    {
        let mut post = post;
        let ghost given = post@;
        post.content_hash = content_hash(post.content.as_str());
        assert(post@ == rehashed(given));
        match self.existing_copy(&post) {
            Some(s) => Ok(s),
            None => {
                match self.index.insert_post(&post, storage_id.as_str()) {
                    Ok(()) => Ok(storage_id),
                    Err(e) => Err(e),
                }
            },
        }
    }

    /// The post stored under a storage id.
    pub fn get_post(&self, storage_id: &str) -> (r: Option<BlogPost>)
        ensures
            match r {
                Some(p) => exists|i: int| 0 <= i < self@.len() && self@[i] == (storage_id@, p@),
                None => forall|i: int| 0 <= i < self@.len() ==> self@[i].0 != storage_id@,
            },
    {
        let r = self.index.get_post_by_storage_id(storage_id);
        proof {
            if r is Some {
                let i = choose|i: int|
                    0 <= i < self.index@.len() && self.index@[i] == (storage_id@, r->0@);
                assert(self@[i] == (storage_id@, r->0@));
            }
        }
        r
    }

    /// Edits a post in place by its id; see [`PostIndex::update_post`].
    pub fn update_post(&mut self, post: &BlogPost, now: i64) -> (r: Result<(), IndexError>)
        requires
            old(self).wf(),
        ensures
            final(self).wf(),
            r.is_err() ==> final(self)@ == old(self)@,
            r.is_ok() ==> final(self)@.len() == old(self)@.len(),
            r.is_ok() ==> forall|i: int|
                0 <= i < old(self)@.len() ==> #[trigger] final(self)@[i] == if old(self)@[i].1.id
                    == post@.id {
                    edited_row(old(self)@[i], post@, now)
                } else {
                    old(self)@[i]
                },
    {
        self.index.update_post(post, now)
    }

    /// Removes the post with this id from the index.
    pub fn delete_post(&mut self, post_id: &str)
        requires
            old(self).wf(),
        ensures
            final(self).wf(),
            (exists|i: int|
                0 <= i < old(self)@.len() && old(self)@[i].1.id == post_id@ && final(self)@
                    == old(self)@.remove(i)) || ((forall|i: int|
                0 <= i < old(self)@.len() ==> old(self)@[i].1.id != post_id@) && final(self)@
                == old(self)@),
    {
        self.index.delete_post(post_id)
    }

    /// Marks the post stored under `storage_id` as published at time `now`.
    pub fn publish_post(&mut self, storage_id: &str, now: i64)
        requires
            old(self).wf(),
        ensures
            final(self).wf(),
            final(self)@.len() == old(self)@.len(),
            forall|i: int|
                0 <= i < old(self)@.len() ==> #[trigger] final(self)@[i] == if old(self)@[i].0
                    == storage_id@ {
                    with_published(old(self)@[i], true, now)
                } else {
                    old(self)@[i]
                },
    {
        self.index.update_post_published(storage_id, true, now)
    }

    /// All posts, or only the published ones, newest first.
    pub fn list_posts(&self, published_only: bool) -> (r: Vec<(String, BlogPost)>)
        ensures
            rows_view(r@) == listed(self@, published_only),
    {
        self.index.list_posts(published_only)
    }

    /// Every tag of a published post with its number of published posts,
    /// most used first, then by name.
    pub fn get_all_tags(&self) -> (r: Vec<(String, usize)>)
        requires
            self.wf(),
        ensures
            is_tag_listing(self@, entries_view(r@)),
    {
        self.index.get_all_tags()
    }

    /// The posts carrying `tag`, newest first.
    pub fn get_posts_by_tag(&self, tag: &str, published_only: bool) -> (r: Vec<(String, BlogPost)>)
        ensures
            rows_view(r@) == tagged(self@, tag@, published_only),
    {
        self.index.get_posts_by_tag(tag, published_only)
    }

    /// Related posts: scored by shared tags and category, padded by recency.
    pub fn get_related_posts(
        &self,
        post_id: &str,
        tags: &[String],
        category: Option<&str>,
        limit: usize,
    ) -> (r: Vec<(String, BlogPost)>)
        ensures
            rows_view(r@) == related(
                self@,
                post_id@,
                strings_view(tags@),
                match category {
                    Some(c) => Some(c@),
                    None => None,
                },
                limit as nat,
            ),
    {
        self.index.get_related_posts(post_id, tags, category, limit)
    }
}

/// Creating two posts with the same content returns the same storage id both
/// times: the second call changes nothing, and exactly one row holds that
/// content's hash.
pub proof fn create_post_dedup(
    v0: Seq<RowView>,
    first: PostView,
    first_sid: Seq<char>,
    v1: Seq<RowView>,
    r1: Result<Seq<char>, IndexError>,
    second: PostView,
    second_sid: Seq<char>,
    v2: Seq<RowView>,
    r2: Result<Seq<char>, IndexError>,
)
    requires
        rows_wf(v0),
        rows_wf(v1),
        first.content == second.content,
        create_post_step(v0, first, first_sid, v1, r1),
        create_post_step(v1, second, second_sid, v2, r2),
        r1 is Ok,
    ensures
        r2 == r1,
        v2 == v1,
        hash_count(v1, content_hash_of(first.content)) == 1,
{
    let h = content_hash_of(first.content);
    match row_with_hash(v0, h) {
        Some(i) => {
            lemma_hash_count_one(v1, h, i);
        },
        None => {
            let k = choose|k: int|
                0 <= k <= v0.len() && v1 == v0.insert(k, stored_row(rehashed(first), first_sid));
            assert(v1[k].1.content_hash == h);
            let j = row_with_hash(v1, h)->0;
            assert(v1[j].1.content_hash == h);
            assert(j == k);
            lemma_hash_count_one(v1, h, k);
        },
    }
}

/// Creating a post is all or nothing: a refused create leaves the index as it
/// was; otherwise either nothing changes (the content was already there) or
/// exactly one row is added, and that row carries every tag of the post, each
/// once.
pub proof fn create_post_all_or_nothing(
    before: Seq<RowView>,
    post: PostView,
    sid: Seq<char>,
    after: Seq<RowView>,
    r: Result<Seq<char>, IndexError>,
)
    requires
        create_post_step(before, post, sid, after, r),
    ensures
        r is Err ==> after == before,
        after == before || exists|k: int|
            0 <= k <= before.len() && after == before.insert(k, stored_row(rehashed(post), sid))
                && after[k].1.tags.no_duplicates() && forall|t: Seq<char>|
                post.tags.contains(t) <==> #[trigger] after[k].1.tags.contains(t),
{
    lemma_dedup(post.tags);
    if after != before {
        let k = choose|k: int|
            0 <= k <= before.len() && after == before.insert(k, stored_row(rehashed(post), sid));
        assert(after[k] == stored_row(rehashed(post), sid));
    }
}

} // verus!
