//! The post index: the metadata store that answers lookups by storage id and
//! by content hash, listings, tag queries and related-post queries.
//!
//! Rows are `(storage_id, post)` pairs kept newest first. Storage ids, post ids
//! and content hashes are unique; each row's tag list has no duplicates.
use vstd::prelude::*;
use crate::digest::{content_hash, content_hash_of};
use crate::post::{BlogPost, PostView, clone_opt, strings_view};
use crate::text::str_eq;
use crate::related::{related, select_related};
use crate::tags::{is_tag_listing, entries_view, tag_listing};
use crate::seqs::{
    newest_first, lemma_filter_all, lemma_filter_members, lemma_filter_newest_first,
    lemma_filter_shorter,
};

verus! {

pub type RowView = (Seq<char>, PostView);

pub open spec fn row_view(r: (String, BlogPost)) -> RowView {
    (r.0@, r.1@)
}

/// Why the index refused a change.
#[derive(PartialEq, Eq, Structural, Debug, Clone, Copy)]
pub enum IndexError {
    /// A row already holds a post with this id.
    DuplicateId,
    /// A row already holds this storage id.
    DuplicateStorageId,
    /// A row already holds a post with this content hash.
    DuplicateContent,
}

pub open spec fn row_ok(r: RowView) -> bool {
    &&& r.1.storage_id == Some(r.0)
    &&& r.1.content_hash == content_hash_of(r.1.content)
    &&& r.1.tags.no_duplicates()
}

pub open spec fn rows_wf(v: Seq<RowView>) -> bool {
    &&& forall|i: int, j: int| 0 <= i < j < v.len() ==> v[i].1.created_at >= v[j].1.created_at
    &&& forall|i: int, j: int|
        0 <= i < v.len() && 0 <= j < v.len() && i != j ==> {
            &&& v[i].0 != v[j].0
            &&& v[i].1.id != v[j].1.id
            &&& v[i].1.content_hash != v[j].1.content_hash
        }
    &&& forall|i: int| 0 <= i < v.len() ==> row_ok(#[trigger] v[i])
}

/// The tags with later repeats removed, first occurrences in order.
pub open spec fn dedup(s: Seq<Seq<char>>) -> Seq<Seq<char>>
    decreases s.len(),
{
    if s.len() == 0 {
        Seq::empty()
    } else {
        let d = dedup(s.drop_last());
        if d.contains(s.last()) { d } else { d.push(s.last()) }
    }
}

/// The row that `insert_post` stores for a post.
pub open spec fn stored_row(p: PostView, sid: Seq<char>) -> RowView {
    (sid, PostView { storage_id: Some(sid), tags: dedup(p.tags), ..p })
}

/// Which constraint, if any, refuses inserting `p` under `sid`.
pub open spec fn insert_error(v: Seq<RowView>, p: PostView, sid: Seq<char>) -> Option<IndexError> {
    if exists|i: int| 0 <= i < v.len() && v[i].1.id == p.id {
        Some(IndexError::DuplicateId)
    } else if exists|i: int| 0 <= i < v.len() && v[i].0 == sid {
        Some(IndexError::DuplicateStorageId)
    } else if exists|i: int| 0 <= i < v.len() && v[i].1.content_hash == p.content_hash {
        Some(IndexError::DuplicateContent)
    } else {
        None
    }
}

/// How many rows hold a given content hash.
pub open spec fn hash_count(v: Seq<RowView>, hash: Seq<char>) -> nat
    decreases v.len(),
{
    if v.len() == 0 {
        0
    } else {
        hash_count(v.drop_last(), hash) + if v.last().1.content_hash == hash { 1nat } else { 0nat }
    }
}

pub proof fn lemma_dedup(s: Seq<Seq<char>>)
    ensures
        dedup(s).no_duplicates(),
        forall|t: Seq<char>| dedup(s).contains(t) <==> s.contains(t),
    decreases s.len(),
{
    if s.len() > 0 {
        lemma_dedup(s.drop_last());
        let d = dedup(s.drop_last());
        assert forall|t: Seq<char>| dedup(s).contains(t) <==> s.contains(t) by {
            if s.contains(t) && t != s.last() {
                let k = choose|k: int| 0 <= k < s.len() && s[k] == t;
                assert(s.drop_last()[k] == t);
            }
            if s.drop_last().contains(t) {
                let k = choose|k: int| 0 <= k < s.drop_last().len() && s.drop_last()[k] == t;
                assert(s[k] == t);
            }
            if !d.contains(s.last()) && dedup(s).contains(t) && !d.contains(t) {
                assert(t == s.last());
                assert(s[s.len() - 1] == t);
            }
            if !d.contains(s.last()) && d.contains(t) {
                let k = choose|k: int| 0 <= k < d.len() && d[k] == t;
                assert(dedup(s)[k] == t);
            }
            if !d.contains(s.last()) && t == s.last() {
                assert(dedup(s)[d.len() as int] == t);
            }
        }
        if !d.contains(s.last()) {
            assert forall|i: int, j: int|
                0 <= i < dedup(s).len() && 0 <= j < dedup(s).len() && i != j implies
                dedup(s)[i] != dedup(s)[j] by {
                if i == d.len() {
                    assert(d.contains(dedup(s)[j]));
                } else if j == d.len() {
                    assert(d.contains(dedup(s)[i]));
                }
            }
        }
    }
}

pub open spec fn rows_view(v: Seq<(String, BlogPost)>) -> Seq<RowView> {
    v.map_values(|r: (String, BlogPost)| row_view(r))
}

/// The rows that a listing returns: all of them, or the published ones, in index order.
pub open spec fn listed(v: Seq<RowView>, published_only: bool) -> Seq<RowView> {
    v.filter(listing_filter(published_only))
}

pub open spec fn listing_filter(published_only: bool) -> spec_fn(RowView) -> bool {
    |r: RowView| !published_only || r.1.published
}

/// The rows carrying a tag, optionally only published ones, in index order.
pub open spec fn tagged(v: Seq<RowView>, tag: Seq<char>, published_only: bool) -> Seq<RowView> {
    v.filter(|r: RowView| r.1.tags.contains(tag) && (!published_only || r.1.published))
}

/// A row after its published flag is set.
pub open spec fn with_published(r: RowView, published: bool, now: i64) -> RowView {
    (r.0, PostView { published, updated_at: now, ..r.1 })
}

/// A row after an edit: text fields, category and tags from `p`, hash recomputed.
pub open spec fn edited_row(r: RowView, p: PostView, now: i64) -> RowView {
    (
        r.0,
        PostView {
            title: p.title,
            content: p.content,
            excerpt: p.excerpt,
            author: p.author,
            category: p.category,
            updated_at: now,
            content_hash: content_hash_of(p.content),
            tags: dedup(p.tags),
            ..r.1
        },
    )
}

pub proof fn lemma_filter_step(v: Seq<RowView>, f: spec_fn(RowView) -> bool, i: int)
    requires
        0 <= i < v.len(),
    ensures
        v.take(i + 1).filter(f) == if f(v[i]) {
            v.take(i).filter(f).push(v[i])
        } else {
            v.take(i).filter(f)
        },
{
    reveal(Seq::filter);
    assert(v.take(i + 1).drop_last() =~= v.take(i));
}

pub fn copy_row(r: &(String, BlogPost)) -> (c: (String, BlogPost))
    ensures
        row_view(c) == row_view(*r),
{
    (r.0.clone(), r.1.duplicate())
}

/// The in-memory post index.
pub struct PostIndex {
    rows: Vec<(String, BlogPost)>,
}

impl View for PostIndex {
    type V = Seq<RowView>;

    closed spec fn view(&self) -> Seq<RowView> {
        self.rows@.map_values(|r: (String, BlogPost)| row_view(r))
    }
}

fn dedup_tags(tags: &Vec<String>) -> (r: Vec<String>)
    ensures
        strings_view(r@) == dedup(strings_view(tags@)),
{
    let mut out: Vec<String> = Vec::new();
    let mut i: usize = 0;
    while i < tags.len()
        invariant
            i <= tags.len(),
            strings_view(out@) == dedup(strings_view(tags@.take(i as int))),
        decreases tags.len() - i,
    {
        let t = &tags[i];
        let mut seen = false;
        let mut j: usize = 0;
        while j < out.len()
            invariant
                j <= out.len(),
                seen == exists|k: int| 0 <= k < j && out@[k]@ == t@,
            decreases out.len() - j,
        {
            if str_eq(out[j].as_str(), t.as_str()) {
                seen = true;
            }
            j += 1;
        }
        let ghost prev = strings_view(out@);
        proof {
            assert(strings_view(tags@.take(i + 1)).drop_last() =~= strings_view(tags@.take(i as int)));
            assert(strings_view(tags@.take(i + 1)).last() == t@);
            if seen {
                let k = choose|k: int| 0 <= k < out.len() && out@[k]@ == t@;
                assert(prev[k] == t@);
            }
            if prev.contains(t@) {
                let k = choose|k: int| 0 <= k < prev.len() && prev[k] == t@;
                assert(out@[k]@ == t@);
            }
        }
        if !seen {
            out.push(t.clone());
            assert(strings_view(out@) =~= prev.push(t@));
        }
        i += 1;
    }
    assert(tags@.take(tags.len() as int) =~= tags@);
    out
}

impl PostIndex {
    pub open spec fn wf(&self) -> bool {
        rows_wf(self@)
    }

    /// An empty index.
    pub fn new() -> (r: Self)
        ensures
            r.wf(),
            r@.len() == 0,
    {
        let r = PostIndex { rows: Vec::new() };
        assert(r@ =~= Seq::<RowView>::empty());
        r
    }

    /// The number of rows.
    pub fn len(&self) -> (r: usize)
        ensures
            r == self@.len(),
    {
        self.rows.len()
    }

    fn position_of_storage_id(&self, storage_id: &str) -> (r: Option<usize>)
        ensures
            match r {
                Some(i) => i < self@.len() && self@[i as int].0 == storage_id@,
                None => forall|i: int| 0 <= i < self@.len() ==> self@[i].0 != storage_id@,
            },
    {
        let mut i: usize = 0;
        while i < self.rows.len()
            invariant
                i <= self.rows.len(),
                forall|k: int| 0 <= k < i ==> self@[k].0 != storage_id@,
            decreases self.rows.len() - i,
        {
            if str_eq(self.rows[i].0.as_str(), storage_id) {
                return Some(i);
            }
            i += 1;
        }
        None
    }

    fn position_of_post_id(&self, post_id: &str) -> (r: Option<usize>)
        ensures
            match r {
                Some(i) => i < self@.len() && self@[i as int].1.id == post_id@,
                None => forall|i: int| 0 <= i < self@.len() ==> self@[i].1.id != post_id@,
            },
    {
        let mut i: usize = 0;
        while i < self.rows.len()
            invariant
                i <= self.rows.len(),
                forall|k: int| 0 <= k < i ==> self@[k].1.id != post_id@,
            decreases self.rows.len() - i,
        {
            if str_eq(self.rows[i].1.id.as_str(), post_id) {
                return Some(i);
            }
            i += 1;
        }
        None
    }

    fn position_of_hash(&self, hash: &str) -> (r: Option<usize>)
        ensures
            match r {
                Some(i) => i < self@.len() && self@[i as int].1.content_hash == hash@,
                None => forall|i: int| 0 <= i < self@.len() ==> self@[i].1.content_hash != hash@,
            },
    {
        let mut i: usize = 0;
        while i < self.rows.len()
            invariant
                i <= self.rows.len(),
                forall|k: int| 0 <= k < i ==> self@[k].1.content_hash != hash@,
            decreases self.rows.len() - i,
        {
            if str_eq(self.rows[i].1.content_hash.as_str(), hash) {
                return Some(i);
            }
            i += 1;
        }
        None
    }

    /// The post stored under a storage id.
    pub fn get_post_by_storage_id(&self, storage_id: &str) -> (r: Option<BlogPost>)
        ensures
            match r {
                Some(p) => exists|i: int| 0 <= i < self@.len() && self@[i] == (storage_id@, p@),
                None => forall|i: int| 0 <= i < self@.len() ==> self@[i].0 != storage_id@,
            },
    {
        match self.position_of_storage_id(storage_id) {
            Some(i) => {
                let p = self.rows[i].1.duplicate();
                assert(self@[i as int] == (storage_id@, p@));
                Some(p)
            },
            None => None,
        }
    }

    /// The storage id of the post whose content has this hash.
    pub fn get_post_by_content_hash(&self, content_hash: &str) -> (r: Option<String>)
        ensures
            match r {
                Some(s) => exists|i: int|
                    0 <= i < self@.len() && self@[i].0 == s@ && self@[i].1.content_hash
                        == content_hash@,
                None => forall|i: int|
                    0 <= i < self@.len() ==> self@[i].1.content_hash != content_hash@,
            },
    {
        match self.position_of_hash(content_hash) {
            Some(i) => Some(self.rows[i].0.clone()),
            None => None,
        }
    }

    fn insert_position(&self, created_at: i64) -> (r: usize)
        requires
            self.wf(),
        ensures
            r <= self@.len(),
            forall|i: int| 0 <= i < r ==> self@[i].1.created_at >= created_at,
            forall|i: int| r <= i < self@.len() ==> self@[i].1.created_at < created_at,
    {
        let mut i: usize = 0;
        while i < self.rows.len()
            invariant
                i <= self.rows.len(),
                self.wf(),
                forall|k: int| 0 <= k < i ==> self@[k].1.created_at >= created_at,
            decreases self.rows.len() - i,
        {
            if self.rows[i].1.created_at < created_at {
                assert forall|j: int| i <= j < self@.len() implies self@[j].1.created_at
                    < created_at by {
                    if j > i {
                        assert(self@[i as int].1.created_at >= self@[j].1.created_at);
                    }
                }
                return i;
            }
            i += 1;
        }
        i
    }

    /// Stores a post under a storage id, with its tags linked once each.
    /// All or nothing: a refused insert leaves the index as it was.
    pub fn insert_post(&mut self, post: &BlogPost, storage_id: &str) -> (r: Result<(), IndexError>)
        requires
            old(self).wf(),
            post.content_hash@ == content_hash_of(post.content@),
        ensures
            final(self).wf(),
            r == match insert_error(old(self)@, post@, storage_id@) {
                Some(e) => Err::<(), IndexError>(e),
                None => Ok(()),
            },
            r.is_err() ==> final(self)@ == old(self)@,
            r.is_ok() ==> exists|k: int|
                0 <= k <= old(self)@.len() && final(self)@ == old(self)@.insert(
                    k,
                    stored_row(post@, storage_id@),
                ),
    {
        if self.position_of_post_id(post.id.as_str()).is_some() {
            return Err(IndexError::DuplicateId);
        }
        if self.position_of_storage_id(storage_id).is_some() {
            return Err(IndexError::DuplicateStorageId);
        }
        if self.position_of_hash(post.content_hash.as_str()).is_some() {
            return Err(IndexError::DuplicateContent);
        }
        let sid = String::from_str(storage_id);
        let mut p = post.duplicate();
        p.storage_id = Some(sid.clone());
        p.tags = dedup_tags(&post.tags);
        let k = self.insert_position(p.created_at);
        let ghost before = self@;
        proof {
            lemma_dedup(post@.tags);
            assert(row_view((sid, p)) == stored_row(post@, storage_id@));
        }
        self.rows.insert(k, (sid, p));
        proof {
            let rv = stored_row(post@, storage_id@);
            assert(self@ =~= before.insert(k as int, rv));
            let v = self@;
            assert forall|i: int, j: int| 0 <= i < j < v.len() implies v[i].1.created_at
                >= v[j].1.created_at by {
                if i < k && j > k {
                    assert(v[i] == before[i]);
                    assert(v[j] == before[j - 1]);
                }
            }
            assert forall|i: int| 0 <= i < v.len() implies row_ok(#[trigger] v[i]) by {
                if i < k {
                    assert(v[i] == before[i]);
                } else if i > k {
                    assert(v[i] == before[i - 1]);
                }
            }
        }
        Ok(())
    }

    /// All posts, or only the published ones, newest first.
    pub fn list_posts(&self, published_only: bool) -> (r: Vec<(String, BlogPost)>)
        ensures
            rows_view(r@) == listed(self@, published_only),
    {
        let ghost f = listing_filter(published_only);
        let mut out: Vec<(String, BlogPost)> = Vec::new();
        let mut i: usize = 0;
        while i < self.rows.len()
            invariant
                i <= self.rows.len(),
                f == listing_filter(published_only),
                rows_view(out@) == self@.take(i as int).filter(f),
            decreases self.rows.len() - i,
        {
            proof {
                lemma_filter_step(self@, f, i as int);
            }
            if !published_only || self.rows[i].1.published {
                let c = copy_row(&self.rows[i]);
                out.push(c);
                assert(rows_view(out@) =~= self@.take(i as int).filter(f).push(self@[i as int]));
            }
            i += 1;
        }
        assert(self@.take(self.rows.len() as int) =~= self@);
        out
    }

    /// The posts carrying `tag`, optionally only published ones, newest first.
    pub fn get_posts_by_tag(&self, tag: &str, published_only: bool) -> (r: Vec<(String, BlogPost)>)
        ensures
            rows_view(r@) == tagged(self@, tag@, published_only),
    {
        let ghost f = |rv: RowView| rv.1.tags.contains(tag@) && (!published_only || rv.1.published);
        let mut out: Vec<(String, BlogPost)> = Vec::new();
        let mut i: usize = 0;
        while i < self.rows.len()
            invariant
                i <= self.rows.len(),
                f == (|rv: RowView| rv.1.tags.contains(tag@) && (!published_only || rv.1.published)),
                rows_view(out@) == self@.take(i as int).filter(f),
            decreases self.rows.len() - i,
        {
            proof {
                lemma_filter_step(self@, f, i as int);
            }
            let has = contains_str(&self.rows[i].1.tags, tag);
            if has && (!published_only || self.rows[i].1.published) {
                let c = copy_row(&self.rows[i]);
                out.push(c);
                assert(rows_view(out@) =~= self@.take(i as int).filter(f).push(self@[i as int]));
            }
            i += 1;
        }
        assert(self@.take(self.rows.len() as int) =~= self@);
        out
    }

    /// Sets the published flag of the post stored under `storage_id`, if any,
    /// and stamps its update time.
    pub fn update_post_published(&mut self, storage_id: &str, published: bool, now: i64)
        requires
            old(self).wf(),
        ensures
            final(self).wf(),
            final(self)@.len() == old(self)@.len(),
            forall|i: int|
                0 <= i < old(self)@.len() ==> #[trigger] final(self)@[i] == if old(self)@[i].0
                    == storage_id@ {
                    with_published(old(self)@[i], published, now)
                } else {
                    old(self)@[i]
                },
    {
        match self.position_of_storage_id(storage_id) {
            Some(i) => {
                let ghost before = self@;
                let mut row = copy_row(&self.rows[i]);
                row.1.published = published;
                row.1.updated_at = now;
                self.rows.set(i, row);
                proof {
                    assert(self@ =~= before.update(i as int, with_published(before[i as int], published, now)));
                    assert forall|k: int| 0 <= k < before.len() && k != i implies before[k].0 != storage_id@ by {
                    }
                    let v = self@;
                    assert forall|a: int| 0 <= a < v.len() implies row_ok(#[trigger] v[a]) by {
                        if a != i {
                            assert(v[a] == before[a]);
                        }
                    }
                }
            },
            None => {},
        }
    }

    /// Removes the post with this id, if any.
    pub fn delete_post(&mut self, post_id: &str)
        requires
            old(self).wf(),
        ensures
            final(self).wf(),
            (exists|i: int|
                0 <= i < old(self)@.len() && old(self)@[i].1.id == post_id@ && final(self)@
                    == old(self)@.remove(i)) || ((forall|i: int|
                0 <= i < old(self)@.len() ==> old(self)@[i].1.id != post_id@) && final(self)@
                == old(self)@),
    {
        match self.position_of_post_id(post_id) {
            Some(i) => {
                let ghost before = self@;
                self.rows.remove(i);
                proof {
                    let v = self@;
                    assert(v =~= before.remove(i as int));
                    assert forall|a: int| 0 <= a < v.len() implies row_ok(#[trigger] v[a]) by {
                        if a < i {
                            assert(v[a] == before[a]);
                        } else {
                            assert(v[a] == before[a + 1]);
                        }
                    }
                }
            },
            None => {},
        }
    }

    /// Edits the post with `post.id` in place: title, content, excerpt, author,
    /// category and tags come from `post`, the hash is recomputed and the update
    /// time stamped. No row with that id: nothing changes. Refused, and nothing
    /// changes, when the new content's hash belongs to another row.
    pub fn update_post(&mut self, post: &BlogPost, now: i64) -> (r: Result<(), IndexError>)
        requires
            old(self).wf(),
        ensures
            final(self).wf(),
            r.is_err() ==> final(self)@ == old(self)@ && r == Err::<(), IndexError>(
                IndexError::DuplicateContent,
            ),
            r.is_err() <==> exists|i: int, j: int|
                0 <= i < old(self)@.len() && 0 <= j < old(self)@.len() && i != j
                    && old(self)@[i].1.id == post@.id && old(self)@[j].1.content_hash
                    == content_hash_of(post@.content),
            r.is_ok() ==> final(self)@.len() == old(self)@.len(),
            r.is_ok() ==> forall|i: int|
                0 <= i < old(self)@.len() ==> #[trigger] final(self)@[i] == if old(self)@[i].1.id
                    == post@.id {
                    edited_row(old(self)@[i], post@, now)
                } else {
                    old(self)@[i]
                },
    {
        match self.position_of_post_id(post.id.as_str()) {
            Some(i) => {
                let hash = content_hash(post.content.as_str());
                match self.position_of_hash(hash.as_str()) {
                    Some(j) => {
                        if j != i {
                            return Err(IndexError::DuplicateContent);
                        }
                    },
                    None => {},
                }
                let ghost before = self@;
                proof {
                    assert forall|a: int, b: int|
                        0 <= a < before.len() && 0 <= b < before.len() && a != b
                            && before[a].1.id == post@.id implies before[b].1.content_hash
                        != content_hash_of(post@.content) by {
                        assert(a == i);
                    }
                }
                let mut row = copy_row(&self.rows[i]);
                row.1.title = post.title.clone();
                row.1.content = post.content.clone();
                row.1.excerpt = clone_opt(&post.excerpt);
                row.1.author = post.author.clone();
                row.1.category = clone_opt(&post.category);
                row.1.updated_at = now;
                row.1.content_hash = hash;
                row.1.tags = dedup_tags(&post.tags);
                proof {
                    lemma_dedup(post@.tags);
                    assert(row_view(row) == edited_row(before[i as int], post@, now));
                }
                self.rows.set(i, row);
                proof {
                    assert(self@ =~= before.update(i as int, edited_row(before[i as int], post@, now)));
                    let v = self@;
                    assert forall|a: int| 0 <= a < v.len() implies row_ok(#[trigger] v[a]) by {
                        if a != i {
                            assert(v[a] == before[a]);
                        }
                    }
                }
                Ok(())
            },
            None => Ok(()),
        }
    }

    /// Every tag of a published post with how many published posts carry it,
    /// most used first, then by name.
    pub fn get_all_tags(&self) -> (r: Vec<(String, usize)>)
        requires
            self.wf(),
        ensures
            is_tag_listing(self@, entries_view(r@)),
    {
        assert(rows_view(self.rows@) =~= self@);
        tag_listing(&self.rows, Ghost(self@))
    }

    /// Related posts for the post `post_id` with the given tags and category:
    /// see [`crate::related::related`].
    pub fn get_related_posts(
        &self,
        post_id: &str,
        tags: &[String],
        category: Option<&str>,
        limit: usize,
    ) -> (r: Vec<(String, BlogPost)>)
        ensures
            rows_view(r@) == related(
                self@,
                post_id@,
                strings_view(tags@),
                match category {
                    Some(c) => Some(c@),
                    None => None,
                },
                limit as nat,
            ),
    {
        let mut tv: Vec<String> = Vec::new();
        let mut i: usize = 0;
        while i < tags.len()
            invariant
                i <= tags.len(),
                tv@ == tags@.take(i as int),
            decreases tags.len() - i,
        {
            tv.push(tags[i].clone());
            i += 1;
            assert(tv@ =~= tags@.take(i as int));
        }
        assert(tv@ =~= tags@);
        let cat: Option<String> = match category {
            Some(c) => Some(String::from_str(c)),
            None => None,
        };
        assert(rows_view(self.rows@) =~= self@);
        select_related(&self.rows, post_id, &tv, &cat, limit)
    }
}

/// Whether a list of strings holds `s`.
pub fn contains_str(v: &Vec<String>, s: &str) -> (r: bool)
    ensures
        r == strings_view(v@).contains(s@),
{
    let mut i: usize = 0;
    while i < v.len()
        invariant
            i <= v.len(),
            forall|k: int| 0 <= k < i ==> v@[k]@ != s@,
        decreases v.len() - i,
    {
        if str_eq(v[i].as_str(), s) {
            assert(strings_view(v@)[i as int] == s@);
            return true;
        }
        i += 1;
    }
    proof {
        if strings_view(v@).contains(s@) {
            let k = choose|k: int| 0 <= k < v@.len() && strings_view(v@)[k] == s@;
            assert(v@[k]@ == s@);
        }
    }
    false
}

/// The full listing is every row; the published listing is exactly the
/// published rows of the full listing, in the same newest-first order, and it
/// is strictly shorter whenever some post is still a draft.
pub proof fn published_listing(v: Seq<RowView>)
    requires
        rows_wf(v),
    ensures
        listed(v, false) == v,
        listed(v, true) == listed(v, false).filter(|r: RowView| r.1.published),
        forall|i: int| 0 <= i < listed(v, true).len() ==> (#[trigger] listed(v, true)[i]).1.published,
        forall|i: int|
            0 <= i < listed(v, true).len() ==> listed(v, false).contains(#[trigger] listed(v, true)[i]),
        newest_first(listed(v, false)),
        newest_first(listed(v, true)),
        (exists|i: int| 0 <= i < v.len() && !v[i].1.published) ==> listed(v, true).len() < listed(
            v,
            false,
        ).len(),
{
    let all = listing_filter(false);
    let pubd = listing_filter(true);
    let p = |r: RowView| r.1.published;
    lemma_filter_all(v, all);
    assert(pubd =~= p);
    lemma_filter_members(v, pubd);
    lemma_filter_newest_first(v, pubd);
    if exists|i: int| 0 <= i < v.len() && !v[i].1.published {
        let i = choose|i: int| 0 <= i < v.len() && !v[i].1.published;
        lemma_filter_shorter(v, pubd, i);
    }
}

/// How many rows hold a hash is one when exactly one row does.
pub proof fn lemma_hash_count_one(v: Seq<RowView>, h: Seq<char>, i: int)
    requires
        0 <= i < v.len(),
        v[i].1.content_hash == h,
        forall|a: int, b: int|
            0 <= a < v.len() && 0 <= b < v.len() && a != b ==> v[a].1.content_hash
                != v[b].1.content_hash,
    ensures
        hash_count(v, h) == 1,
    decreases v.len(),
{
    let w = v.drop_last();
    if i == v.len() - 1 {
        lemma_hash_count_none(w, h);
    } else {
        assert(v.last() == v[v.len() - 1]);
        lemma_hash_count_one(w, h, i);
    }
}

pub proof fn lemma_hash_count_none(v: Seq<RowView>, h: Seq<char>)
    requires
        forall|a: int| 0 <= a < v.len() ==> v[a].1.content_hash != h,
    ensures
        hash_count(v, h) == 0,
    decreases v.len(),
{
    if v.len() > 0 {
        lemma_hash_count_none(v.drop_last(), h);
    }
}

} // verus!
