//! Site configuration and the path helper used when rendering links.
use vstd::prelude::*;
use crate::text::{chars_of, string_of};

verus! {

/// Settings of the comment widget embedded in post pages.
#[derive(Debug, Clone)]
pub struct GiscusConfig {
    pub enabled: bool,
    pub repo: String,
    pub repo_id: String,
    pub category: String,
    pub category_id: String,
    pub mapping: String,
    pub reactions_enabled: bool,
    pub emit_metadata: bool,
    pub input_position: String,
    pub theme: String,
    pub lang: String,
}

impl Default for GiscusConfig {
    fn default() -> (r: Self)
        ensures
            !r.enabled,
            r.repo@.len() == 0,
            r.repo_id@.len() == 0,
            r.category@ == "Announcements"@,
            r.category_id@.len() == 0,
            r.mapping@ == "pathname"@,
            r.reactions_enabled,
            !r.emit_metadata,
            r.input_position@ == "bottom"@,
            r.theme@ == "preferred_color_scheme"@,
            r.lang@ == "en"@,
    {
        GiscusConfig {
            enabled: false,
            repo: String::new(),
            repo_id: String::new(),
            category: String::from_str("Announcements"),
            category_id: String::new(),
            mapping: String::from_str("pathname"),
            reactions_enabled: true,
            emit_metadata: false,
            input_position: String::from_str("bottom"),
            theme: String::from_str("preferred_color_scheme"),
            lang: String::from_str("en"),
        }
    }
}

/// The site's settings.
#[derive(Debug, Clone)]
pub struct SiteConfig {
    pub title: String,
    pub description: String,
    pub author: String,
    pub base_url: String,
    pub base_path: Option<String>,
    pub ipfs_gateway: String,
    pub posts_per_page: usize,
    pub enable_rss: bool,
    pub theme: String,
    pub giscus: GiscusConfig,
}

impl Default for SiteConfig {
    fn default() -> (r: Self)
        ensures
            r.title@ == "My IPFS Blog"@,
            r.description@ == "A decentralized blog powered by IPFS"@,
            r.author@ == "Anonymous"@,
            r.base_url@ == "http://localhost:8080"@,
            r.base_path.is_none(),
            r.ipfs_gateway@ == "http://localhost:8080/ipfs/"@,
            r.posts_per_page == 10,
            r.enable_rss,
            r.theme@ == "default"@,
            !r.giscus.enabled,
    {
        SiteConfig {
            title: String::from_str("My IPFS Blog"),
            description: String::from_str("A decentralized blog powered by IPFS"),
            author: String::from_str("Anonymous"),
            base_url: String::from_str("http://localhost:8080"),
            base_path: None,
            ipfs_gateway: String::from_str("http://localhost:8080/ipfs/"),
            posts_per_page: 10,
            enable_rss: true,
            theme: String::from_str("default"),
            giscus: GiscusConfig::default(),
        }
    }
}

/// What a rendered page receives: the site settings, a title and its content.
#[derive(Debug, Clone)]
pub struct PageContext {
    pub site: SiteConfig,
    pub page_title: String,
    pub content: String,
}

/// A text without its trailing slashes.
pub open spec fn trim_slashes(s: Seq<char>) -> Seq<char>
    decreases s.len(),
{
    if s.len() > 0 && s.last() == '/' {
        trim_slashes(s.drop_last())
    } else {
        s
    }
}

/// A site path under an optional base path: joined with exactly the one
/// slash that `path` may already start with.
pub open spec fn site_path(base_path: Option<Seq<char>>, path: Seq<char>) -> Seq<char> {
    match base_path {
        Some(b) => if path.len() > 0 && path[0] == '/' {
            trim_slashes(b) + path
        } else {
            trim_slashes(b) + seq!['/'] + path
        },
        None => path,
    }
}

impl SiteConfig {
    /// `path` placed under the configured base path, if there is one.
    pub fn path(&self, path: &str) -> (r: String)
        ensures
            r@ == site_path(
                match self.base_path {
                    Some(b) => Some(b@),
                    None => None,
                },
                path@,
            ),
    {
        let p = chars_of(path);
        match &self.base_path {
            Some(b) => {
                let bc = chars_of(b.as_str());
                let mut end = bc.len();
                assert(bc@.take(end as int) =~= bc@);
                while end > 0 && bc[end - 1] == '/'
                    invariant
                        end <= bc@.len(),
                        trim_slashes(bc@) == trim_slashes(bc@.take(end as int)),
                    decreases end,
                {
                    assert(bc@.take(end as int).drop_last() =~= bc@.take(end - 1));
                    end -= 1;
                }
                let mut out: Vec<char> = Vec::new();
                let mut i: usize = 0;
                while i < end
                    invariant
                        i <= end <= bc@.len(),
                        out@ == bc@.take(i as int),
                    decreases end - i,
                {
                    out.push(bc[i]);
                    i += 1;
                    assert(out@ =~= bc@.take(i as int));
                }
                assert(trim_slashes(bc@.take(end as int)) == bc@.take(end as int));
                if !(p.len() > 0 && p[0] == '/') {
                    out.push('/');
                }
                let ghost head = out@;
                let mut j: usize = 0;
                while j < p.len()
                    invariant
                        j <= p@.len(),
                        out@ == head + p@.take(j as int),
                    decreases p.len() - j,
                {
                    out.push(p[j]);
                    j += 1;
                    assert(out@ =~= head + p@.take(j as int));
                }
                assert(p@.take(p.len() as int) =~= p@);
                string_of(&out)
            },
            None => String::from_str(path),
        }
    }
}

} // verus!
