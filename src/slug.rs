//! URL slugs and heading anchors: characters are classified, separators
//! collapse to single dashes, and leading or trailing dashes are dropped.
use vstd::prelude::*;
use crate::post::{slug_or_fallback, slug_with_fallback, now_micros};
use crate::text::{
    is_space, is_ascii_alnum, lowercase_of, unicode_alnum, char_is_space, char_is_alnum,
    char_is_ascii_alnum, to_lowercase, chars_of, string_of,
};

verus! {

/// How one (already lower-cased) character contributes to a slug.
pub enum SlugClass {
    Keep(char),
    Sep,
    Drop,
}

pub open spec fn is_sep_char(c: char) -> bool {
    is_space(c) || c == '-' || c == '_'
}

/// Slugs keep ASCII letters and digits, turn separators into dashes and drop the rest.
pub open spec fn slug_class(c: char) -> SlugClass {
    if is_ascii_alnum(c) {
        SlugClass::Keep(c)
    } else if is_sep_char(c) {
        SlugClass::Sep
    } else {
        SlugClass::Drop
    }
}

/// Heading ids keep every alphanumeric character and replace other symbols by `_`.
pub open spec fn heading_class(c: char) -> SlugClass {
    if unicode_alnum(c) {
        SlugClass::Keep(c)
    } else if is_sep_char(c) {
        SlugClass::Sep
    } else {
        SlugClass::Keep('_')
    }
}

/// File-name slugs keep ASCII letters, digits and `_`; anything else separates.
pub open spec fn file_class(c: char) -> SlugClass {
    if is_ascii_alnum(c) || c == '_' {
        SlugClass::Keep(c)
    } else {
        SlugClass::Sep
    }
}

/// Which characters a slug keeps.
#[derive(PartialEq, Eq, Structural, Clone, Copy)]
pub enum SlugStyle {
    /// URL slugs of titles.
    Title,
    /// Anchor ids of headings.
    Heading,
    /// File names.
    File,
}

pub open spec fn class_of(c: char, style: SlugStyle) -> SlugClass {
    match style {
        SlugStyle::Title => slug_class(c),
        SlugStyle::Heading => heading_class(c),
        SlugStyle::File => file_class(c),
    }
}

/// Output so far, and whether a dash is owed before the next kept character.
pub open spec fn dash_run(s: Seq<char>, style: SlugStyle) -> (Seq<char>, bool)
    decreases s.len(),
{
    if s.len() == 0 {
        (Seq::empty(), false)
    } else {
        let (out, pending) = dash_run(s.drop_last(), style);
        match class_of(s.last(), style) {
            SlugClass::Keep(k) => if pending {
                (out.push('-').push(k), false)
            } else {
                (out.push(k), false)
            },
            SlugClass::Sep => (out, out.len() > 0),
            SlugClass::Drop => (out, pending),
        }
    }
}

/// The slug of an already lower-cased title.
pub open spec fn slug_of(lower: Seq<char>) -> Seq<char> {
    dash_run(lower, SlugStyle::Title).0
}

/// The anchor id of an already lower-cased heading.
pub open spec fn heading_id_of(lower: Seq<char>) -> Seq<char> {
    dash_run(lower, SlugStyle::Heading).0
}

fn classify(c: char, style: SlugStyle) -> (r: SlugClass)
    ensures
        r == class_of(c, style),
{
    match style {
        SlugStyle::File => if char_is_ascii_alnum(c) || c == '_' {
            SlugClass::Keep(c)
        } else {
            SlugClass::Sep
        },
        SlugStyle::Heading => if char_is_alnum(c) {
            SlugClass::Keep(c)
        } else if char_is_space(c) || c == '-' || c == '_' {
            SlugClass::Sep
        } else {
            SlugClass::Keep('_')
        },
        SlugStyle::Title => if char_is_ascii_alnum(c) {
            SlugClass::Keep(c)
        } else if char_is_space(c) || c == '-' || c == '_' {
            SlugClass::Sep
        } else {
            SlugClass::Drop
        },
    }
}

fn dash_join(chars: &Vec<char>, style: SlugStyle) -> (r: Vec<char>)
    ensures
        r@ == dash_run(chars@, style).0,
{
    let mut out: Vec<char> = Vec::new();
    let mut pending = false;
    let mut i: usize = 0;
    while i < chars.len()
        invariant
            i <= chars.len(),
            (out@, pending) == dash_run(chars@.take(i as int), style),
        decreases chars.len() - i,
    {
        let c = chars[i];
        assert(chars@.take(i + 1).drop_last() =~= chars@.take(i as int));
        match classify(c, style) {
            SlugClass::Keep(k) => {
                if pending {
                    out.push('-');
                }
                out.push(k);
                pending = false;
            },
            SlugClass::Sep => {
                pending = out.len() > 0;
            },
            SlugClass::Drop => {},
        }
        i += 1;
    }
    assert(chars@.take(chars.len() as int) =~= chars@);
    out
}

/// The slug of text that is already lower case.
pub fn slug_from_lowercase(lower: &str) -> (r: String)
    ensures
        r@ == slug_of(lower@),
{
    let cs = chars_of(lower);
    let out = dash_join(&cs, SlugStyle::Title);
    string_of(&out)
}

/// The heading id of text that is already lower case.
pub fn heading_id_from_lowercase(lower: &str) -> (r: String)
    ensures
        r@ == heading_id_of(lower@),
{
    let cs = chars_of(lower);
    let out = dash_join(&cs, SlugStyle::Heading);
    string_of(&out)
}

/// Slug for a documentation page: lower-cased, ASCII letters and digits kept,
/// runs of separators joined by single dashes. May be empty.
pub fn generate_doc_slug(title: &str) -> (r: String)
    ensures
        r@ == slug_of(lowercase_of(title@)),
{
    let lower = to_lowercase(title);
    slug_from_lowercase(lower.as_str())
}

/// URL-safe anchor id for a heading.
pub fn generate_heading_id(text: &str) -> (r: String)
    ensures
        r@ == heading_id_of(lowercase_of(text@)),
{
    let lower = to_lowercase(text);
    heading_id_from_lowercase(lower.as_str())
}

/// The file-name slug of a text (no case change; may be empty).
pub open spec fn file_slug_of(s: Seq<char>) -> Seq<char> {
    dash_run(s, SlugStyle::File).0
}

/// A slug made safe for file names: ASCII letters, digits and `_` kept, other
/// runs turned into single dashes. An empty result is replaced by
/// `post-<timestamp>`.
pub fn sanitize_slug_at(slug: &str, timestamp: i64) -> (r: String)
    ensures
        r@ == slug_with_fallback(file_slug_of(slug@), timestamp),
        r@.len() > 0,
{
    let cs = chars_of(slug);
    let out = dash_join(&cs, SlugStyle::File);
    slug_or_fallback(string_of(&out), timestamp)
}

/// [`sanitize_slug_at`] with the current time.
pub fn sanitize_slug(slug: &str) -> (r: String)
    ensures
        r@.len() > 0,
        file_slug_of(slug@).len() > 0 ==> r@ == file_slug_of(slug@),
        exists|t: i64| r@ == slug_with_fallback(file_slug_of(slug@), t),
{
    let now = now_micros();
    sanitize_slug_at(slug, now)
}

/// Lower case with each space replaced by a dash.
pub open spec fn tag_url_of(lower: Seq<char>) -> Seq<char> {
    lower.map_values(|c: char| if c == ' ' { '-' } else { c })
}

/// The URL form of a tag: lower-cased, spaces as dashes, other characters kept.
pub fn sanitize_tag_for_url(tag: &str) -> (r: String)
    ensures
        r@ == tag_url_of(lowercase_of(tag@)),
{
    let lower = to_lowercase(tag);
    tag_url_from_lowercase(lower.as_str())
}

/// [`sanitize_tag_for_url`] of a tag that is already lower case.
pub fn tag_url_from_lowercase(lower: &str) -> (r: String)
    ensures
        r@ == tag_url_of(lower@),
{
    let cs = chars_of(lower);
    let mut out: Vec<char> = Vec::new();
    let mut i: usize = 0;
    while i < cs.len()
        invariant
            i <= cs@.len(),
            out@ == tag_url_of(cs@.take(i as int)),
        decreases cs.len() - i,
    {
        let c = cs[i];
        out.push(if c == ' ' { '-' } else { c });
        i += 1;
        assert(out@ =~= tag_url_of(cs@.take(i as int)));
    }
    assert(cs@.take(cs.len() as int) =~= cs@);
    string_of(&out)
}

/// A character with ASCII capitals lowered, as `char::to_ascii_lowercase` does.
pub open spec fn ascii_lower(c: char) -> char {
    if 'A' <= c && c <= 'Z' { ((c as u8) + 32) as char } else { c }
}

/// The URL-safe form of a tag: ASCII letters lowered, then the slug rule.
pub open spec fn url_safe_of(tag: Seq<char>) -> Seq<char> {
    slug_of(tag.map_values(|c: char| ascii_lower(c)))
}

/// A tag made URL-safe: only lowered ASCII letters, digits and single dashes.
pub fn url_safe_tag(tag: &str) -> (r: String)
    ensures
        r@ == url_safe_of(tag@),
{
    let cs = chars_of(tag);
    let mut lowered: Vec<char> = Vec::new();
    let mut i: usize = 0;
    while i < cs.len()
        invariant
            i <= cs@.len(),
            lowered@ == cs@.take(i as int).map_values(|c: char| ascii_lower(c)),
        decreases cs.len() - i,
    {
        let c = cs[i];
        let l = if 'A' <= c && c <= 'Z' { ((c as u8) + 32) as char } else { c };
        lowered.push(l);
        i += 1;
        assert(lowered@ =~= cs@.take(i as int).map_values(|c: char| ascii_lower(c)));
    }
    assert(cs@.take(cs.len() as int) =~= cs@);
    let out = dash_join(&lowered, SlugStyle::Title);
    string_of(&out)
}

} // verus!
