//! The storage registry: backends by kind, and the configured default.
//!
//! The backends themselves do file and network I/O and live outside this
//! library; the registry is generic over the handle it keeps for each.
use vstd::prelude::*;
use crate::text::str_eq;

verus! {

/// The kinds of storage backend.
#[derive(PartialEq, Eq, Structural, Debug, Clone, Copy, Hash)]
pub enum StorageBackend {
    Ipfs,
    GitHub,
    Local,
    S3,
}

/// The registry after a sequence of registrations: a later one for the same
/// kind replaces an earlier one.
pub open spec fn registry_of<B>(s: Seq<(StorageBackend, B)>) -> Map<StorageBackend, B>
    decreases s.len(),
{
    if s.len() == 0 {
        Map::empty()
    } else {
        registry_of(s.drop_last()).insert(s.last().0, s.last().1)
    }
}

/// Backends by kind, with a default kind.
pub struct StorageManager<B> {
    backends: Vec<(StorageBackend, B)>,
    default_backend: StorageBackend,
}

proof fn lemma_registry_tail<B>(s: Seq<(StorageBackend, B)>, i: int, k: StorageBackend)
    requires
        0 <= i <= s.len(),
        forall|j: int| i <= j < s.len() ==> s[j].0 != k,
    ensures
        registry_of(s).dom().contains(k) == registry_of(s.take(i)).dom().contains(k),
        registry_of(s).dom().contains(k) ==> registry_of(s)[k] == registry_of(s.take(i))[k],
    decreases s.len() - i,
{
    if i < s.len() {
        lemma_registry_tail(s.drop_last(), i, k);
        assert(s.drop_last().take(i) =~= s.take(i));
    } else {
        assert(s.take(i) =~= s);
    }
}

impl<B> StorageManager<B> {
    /// The registered backends by kind.
    pub closed spec fn registry(&self) -> Map<StorageBackend, B> {
        registry_of(self.backends@)
    }

    /// The default kind.
    pub closed spec fn default_kind(&self) -> StorageBackend {
        self.default_backend
    }

    /// An empty registry with the given default kind.
    pub fn new(default_backend: StorageBackend) -> (r: Self)
        ensures
            r.registry() == Map::<StorageBackend, B>::empty(),
            r.default_kind() == default_backend,
    {
        StorageManager { backends: Vec::new(), default_backend }
    }

    /// Registers a backend, replacing any earlier one of the same kind.
    pub fn add_backend(&mut self, backend_type: StorageBackend, backend: B)
        ensures
            final(self).registry() == old(self).registry().insert(backend_type, backend),
            final(self).default_kind() == old(self).default_kind(),
    {
        let ghost before = self.backends@;
        self.backends.push((backend_type, backend));
        assert(self.backends@.drop_last() =~= before);
    }

    /// The backend registered for a kind.
    pub fn get_backend(&self, backend_type: &StorageBackend) -> (r: Option<&B>)
        ensures
            match r {
                Some(b) => self.registry().dom().contains(*backend_type) && *b == self.registry()[*backend_type],
                None => !self.registry().dom().contains(*backend_type),
            },
    {
        let mut i = self.backends.len();
        while i > 0
            invariant
                i <= self.backends@.len(),
                forall|j: int| i <= j < self.backends@.len() ==> self.backends@[j].0 != *backend_type,
            decreases i,
        {
            let k = i - 1;
            if self.backends[k].0 == *backend_type {
                proof {
                    let s = self.backends@;
                    lemma_registry_tail(s, i as int, *backend_type);
                    assert(s.take(i as int).drop_last() =~= s.take(k as int));
                    assert(s.take(i as int).last() == s[k as int]);
                }
                return Some(&self.backends[k].1);
            }
            i = k;
        }
        proof {
            lemma_registry_tail(self.backends@, 0, *backend_type);
            assert(self.backends@.take(0) =~= Seq::<(StorageBackend, B)>::empty());
        }
        None
    }

    /// The backend of the default kind, which must be registered.
    pub fn default_backend(&self) -> (r: &B)
        requires
            self.registry().dom().contains(self.default_kind()),
        ensures
            *r == self.registry()[self.default_kind()],
    {
        self.get_backend(&self.default_backend).unwrap()
    }

    /// The default kind.
    pub fn default_backend_kind(&self) -> (r: StorageBackend)
        ensures
            r == self.default_kind(),
    {
        self.default_backend
    }
}

/// Why a storage operation was refused.
#[derive(PartialEq, Eq, Structural, Debug, Clone, Copy)]
pub enum StorageError {
    /// The backend cannot do this at all (content-addressed data is immutable).
    Unsupported,
    /// A path-based backend was given no `path` entry in the metadata.
    MissingPath,
}

/// The name a backend kind is known by.
pub open spec fn kind_name(k: StorageBackend) -> Seq<char> {
    match k {
        StorageBackend::Ipfs => "ipfs"@,
        StorageBackend::GitHub => "github"@,
        StorageBackend::Local => "local"@,
        StorageBackend::S3 => "s3"@,
    }
}

/// Whether a backend kind can delete what it stored.
pub open spec fn deletes(k: StorageBackend) -> bool {
    k == StorageBackend::Local || k == StorageBackend::S3
}

impl StorageBackend {
    /// The backend's name, for diagnostics and for choosing it on the command line.
    pub fn storage_type(&self) -> (r: String)
        ensures
            r@ == kind_name(*self),
    {
        match self {
            StorageBackend::Ipfs => String::from_str("ipfs"),
            StorageBackend::GitHub => String::from_str("github"),
            StorageBackend::Local => String::from_str("local"),
            StorageBackend::S3 => String::from_str("s3"),
        }
    }

    /// Whether a delete may go ahead: the content-addressed network and the
    /// Git-hosting backend refuse it permanently.
    pub fn check_delete(&self) -> (r: Result<(), StorageError>)
        ensures
            r is Ok <==> deletes(*self),
            r is Err ==> r == Err::<(), StorageError>(StorageError::Unsupported),
    {
        match self {
            StorageBackend::Local | StorageBackend::S3 => Ok(()),
            _ => Err(StorageError::Unsupported),
        }
    }
}

pub type Entry = (Seq<char>, Seq<char>);

pub open spec fn entries_of(m: Seq<(String, String)>) -> Seq<Entry> {
    m.map_values(|e: (String, String)| (e.0@, e.1@))
}

/// The value of the first entry with a key, if any.
pub open spec fn lookup(m: Seq<Entry>, key: Seq<char>) -> Option<Seq<char>>
    decreases m.len(),
{
    if m.len() == 0 {
        None
    } else if m[0].0 == key {
        Some(m[0].1)
    } else {
        lookup(m.drop_first(), key)
    }
}

/// The value stored under `key` in store metadata.
pub fn metadata_get(metadata: &Vec<(String, String)>, key: &str) -> (r: Option<String>)
    ensures
        match (r, lookup(entries_of(metadata@), key@)) {
            (Some(v), Some(w)) => v@ == w,
            (None, None) => true,
            _ => false,
        },
{
    let ghost m = entries_of(metadata@);
    let mut i: usize = 0;
    assert(m.skip(0) =~= m);
    while i < metadata.len()
        invariant
            i <= metadata@.len(),
            m == entries_of(metadata@),
            lookup(m, key@) == lookup(m.skip(i as int), key@),
        decreases metadata.len() - i,
    {
        assert(m.skip(i as int)[0] == m[i as int]);
        if str_eq(metadata[i].0.as_str(), key) {
            return Some(metadata[i].1.clone());
        }
        assert(m.skip(i as int).drop_first() =~= m.skip(i + 1));
        i += 1;
    }
    None
}

/// The value under `key`, or `default` when there is none.
pub open spec fn value_or(m: Seq<Entry>, key: Seq<char>, default: Seq<char>) -> Seq<char> {
    match lookup(m, key) {
        Some(v) => v,
        None => default,
    }
}

/// The repository path a Git-hosting store writes to: the `path` entry.
pub fn required_path(metadata: &Vec<(String, String)>) -> (r: Result<String, StorageError>)
    ensures
        match (r, lookup(entries_of(metadata@), "path"@)) {
            (Ok(p), Some(q)) => p@ == q,
            (Err(e), None) => e == StorageError::MissingPath,
            _ => false,
        },
{
    match metadata_get(metadata, "path") {
        Some(p) => Ok(p),
        None => Err(StorageError::MissingPath),
    }
}

/// The commit message of a Git-hosting store: the `message` entry, or
/// `Add content to <path>`.
pub fn commit_message(metadata: &Vec<(String, String)>, path: &str) -> (r: String)
    ensures
        r@ == value_or(entries_of(metadata@), "message"@, "Add content to "@ + path@),
{
    match metadata_get(metadata, "message") {
        Some(m) => m,
        None => {
            let mut r = String::from_str("Add content to ");
            r.append(path);
            r
        },
    }
}

/// The identifier of a local store: the `filename` entry, or the content digest.
pub fn local_object_id(metadata: &Vec<(String, String)>, digest: &str) -> (r: String)
    ensures
        r@ == value_or(entries_of(metadata@), "filename"@, digest@),
{
    match metadata_get(metadata, "filename") {
        Some(f) => f,
        None => String::from_str(digest),
    }
}

/// The content type recorded for a store: the `content_type` entry, or
/// `application/octet-stream`.
pub fn content_type(metadata: &Vec<(String, String)>) -> (r: String)
    ensures
        r@ == value_or(entries_of(metadata@), "content_type"@, "application/octet-stream"@),
{
    match metadata_get(metadata, "content_type") {
        Some(c) => c,
        None => String::from_str("application/octet-stream"),
    }
}

} // verus!
