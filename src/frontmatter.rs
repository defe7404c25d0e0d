//! Front matter: a YAML block between `---` lines at the top of a post.
//!
//! This module finds the block and the body; decoding the YAML itself is left
//! to the caller, who fills a [`FrontMatter`].
use vstd::prelude::*;
use crate::excerpt::{trim_start, trim_end, trim_chars};
use crate::text::{chars_of, string_of};

verus! {

/// The fields a post's front matter may set.
#[derive(Debug)]
pub struct FrontMatter {
    pub title: String,
    pub author: String,
    pub slug: Option<String>,
    pub date: Option<String>,
    pub tags: Vec<String>,
    pub category: Option<String>,
    pub excerpt: Option<String>,
    pub published: Option<bool>,
}

/// Why a front-matter block could not be read.
#[derive(PartialEq, Eq, Structural, Debug, Clone, Copy)]
pub enum FrontMatterError {
    /// The opening `---` has no closing `---` line.
    Unclosed,
}

pub open spec fn trim(s: Seq<char>) -> Seq<char> {
    trim_end(trim_start(s))
}

pub open spec fn strip_cr(l: Seq<char>) -> Seq<char> {
    if l.len() > 0 && l.last() == '\r' { l.drop_last() } else { l }
}

/// Finished lines and the line being read, after a run of characters.
pub open spec fn line_scan(s: Seq<char>) -> (Seq<Seq<char>>, Seq<char>)
    decreases s.len(),
{
    if s.len() == 0 {
        (Seq::empty(), Seq::empty())
    } else {
        let (done, cur) = line_scan(s.drop_last());
        if s.last() == '\n' { (done.push(strip_cr(cur)), Seq::empty()) } else { (done, cur.push(s.last())) }
    }
}

/// The lines of a text, as `str::lines` gives them: split at `\n`, a `\r`
/// before it dropped, no empty line after a final newline.
pub open spec fn lines_of(s: Seq<char>) -> Seq<Seq<char>> {
    let (done, cur) = line_scan(s);
    if cur.len() > 0 { done.push(cur) } else { done }
}

/// Lines joined with newlines.
pub open spec fn join_lines(ls: Seq<Seq<char>>) -> Seq<char>
    decreases ls.len(),
{
    if ls.len() == 0 {
        Seq::empty()
    } else if ls.len() == 1 {
        ls[0]
    } else {
        join_lines(ls.drop_last()) + seq!['\n'] + ls.last()
    }
}

pub open spec fn is_fence(l: Seq<char>) -> bool {
    trim(l) == seq!['-', '-', '-']
}

/// The front matter and body of a post: `None` and the text without leading
/// whitespace when it does not open with `---`; otherwise the lines up to the
/// first `---` line, and the trimmed rest.
pub open spec fn framed(content: Seq<char>) -> Result<(Option<Seq<char>>, Seq<char>), FrontMatterError> {
    let c = trim_start(content);
    if !(c.len() >= 3 && c.take(3) == seq!['-', '-', '-']) {
        Ok((None, c))
    } else {
        let rest = lines_of(c).drop_first();
        if exists|k: int| 0 <= k < rest.len() && is_fence(rest[k]) {
            let k = choose|k: int|
                0 <= k < rest.len() && is_fence(rest[k]) && forall|m: int| 0 <= m < k ==> !is_fence(rest[m]);
            Ok((Some(join_lines(rest.take(k))), trim(join_lines(rest.skip(k + 1)))))
        } else {
            Err(FrontMatterError::Unclosed)
        }
    }
}

pub open spec fn lines_view(v: Seq<Vec<char>>) -> Seq<Seq<char>> {
    v.map_values(|l: Vec<char>| l@)
}

pub(crate) fn split_lines(cs: &Vec<char>) -> (r: Vec<Vec<char>>)
    ensures
        lines_view(r@) == lines_of(cs@),
{
    let mut done: Vec<Vec<char>> = Vec::new();
    let mut cur: Vec<char> = Vec::new();
    let mut i: usize = 0;
    while i < cs.len()
        invariant
            i <= cs@.len(),
            (lines_view(done@), cur@) == line_scan(cs@.take(i as int)),
        decreases cs.len() - i,
    {
        assert(cs@.take(i + 1).drop_last() =~= cs@.take(i as int));
        let c = cs[i];
        if c == '\n' {
            let mut line = cur;
            cur = Vec::new();
            let ghost before = lines_view(done@);
            let ghost l0 = line@;
            if line.len() > 0 && line[line.len() - 1] == '\r' {
                line.pop();
            }
            assert(line@ =~= strip_cr(l0));
            done.push(line);
            assert(lines_view(done@) =~= before.push(strip_cr(l0)));
        } else {
            cur.push(c);
        }
        i += 1;
    }
    assert(cs@.take(cs.len() as int) =~= cs@);
    if cur.len() > 0 {
        let ghost before = lines_view(done@);
        let ghost l = cur@;
        done.push(cur);
        assert(lines_view(done@) =~= before.push(l));
    }
    done
}

fn join_range(ls: &Vec<Vec<char>>, from: usize, to: usize) -> (r: Vec<char>)
    requires
        from <= to <= ls@.len(),
    ensures
        r@ == join_lines(lines_view(ls@).subrange(from as int, to as int)),
{
    let ghost lv = lines_view(ls@);
    let mut out: Vec<char> = Vec::new();
    let mut i = from;
    assert(lv.subrange(from as int, from as int) =~= Seq::<Seq<char>>::empty());
    while i < to
        invariant
            from <= i <= to <= ls@.len(),
            lv == lines_view(ls@),
            out@ == join_lines(lv.subrange(from as int, i as int)),
        decreases to - i,
    {
        let ghost before = out@;
        let ghost sub = lv.subrange(from as int, i + 1);
        assert(sub.drop_last() =~= lv.subrange(from as int, i as int));
        assert(sub.last() == ls@[i as int]@);
        if i > from {
            out.push('\n');
        }
        let line = &ls[i];
        let mut k: usize = 0;
        let ghost mid = out@;
        while k < line.len()
            invariant
                k <= line@.len(),
                out@ == mid + line@.take(k as int),
            decreases line.len() - k,
        {
            out.push(line[k]);
            k += 1;
            assert(out@ =~= mid + line@.take(k as int));
        }
        assert(line@.take(line.len() as int) =~= line@);
        proof {
            if i == from {
                assert(sub.len() == 1);
                assert(out@ =~= sub[0]);
            } else {
                assert(out@ =~= before + seq!['\n'] + sub.last());
            }
        }
        i += 1;
    }
    out
}

fn is_fence_exec(l: &Vec<char>) -> (r: bool)
    ensures
        r == is_fence(l@),
{
    let t = trim_chars(l);
    let r = t.len() == 3 && t[0] == '-' && t[1] == '-' && t[2] == '-';
    proof {
        if t@.len() == 3 {
            if r {
                assert(t@ =~= seq!['-', '-', '-']);
            }
        }
    }
    r
}

/// Splits a post into its front-matter block and its body; see [`framed`].
pub fn split_frontmatter(content: &str) -> (r: Result<(Option<String>, String), FrontMatterError>)
    ensures
        match (r, framed(content@)) {
            (Ok((fm, body)), Ok((sfm, sbody))) => body@ == sbody && match (fm, sfm) {
                (Some(f), Some(g)) => f@ == g,
                (None, None) => true,
                _ => false,
            },
            (Err(e), Err(f)) => e == f,
            _ => false,
        },
{
    let all = chars_of(content);
    let n = all.len();
    let mut s: usize = 0;
    assert(all@.subrange(0, n as int) =~= all@);
    while s < n && crate::text::char_is_space(all[s])
        invariant
            s <= n,
            n == all@.len(),
            all@ == content@,
            trim_start(content@) == trim_start(all@.subrange(s as int, n as int)),
        decreases n - s,
    {
        assert(all@.subrange(s as int, n as int).drop_first() =~= all@.subrange(s + 1, n as int));
        s += 1;
    }
    let mut c: Vec<char> = Vec::new();
    let mut i = s;
    while i < n
        invariant
            s <= i <= n,
            n == all@.len(),
            c@ == all@.subrange(s as int, i as int),
        decreases n - i,
    {
        c.push(all[i]);
        i += 1;
        assert(c@ =~= all@.subrange(s as int, i as int));
    }
    assert(trim_start(c@) == c@);
    assert(c@ == trim_start(content@));
    if !(c.len() >= 3 && c[0] == '-' && c[1] == '-' && c[2] == '-') {
        proof {
            if c@.len() >= 3 && c@.take(3) == seq!['-', '-', '-'] {
                assert(c@.take(3)[0] == '-' && c@.take(3)[1] == '-' && c@.take(3)[2] == '-');
            }
        }
        return Ok((None, string_of(&c)));
    }
    assert(c@.take(3) =~= seq!['-', '-', '-']);
    let lines = split_lines(&c);
    let ghost rest = lines_of(c@).drop_first();
    proof {
        assert(lines_of(c@).len() > 0) by {
            lemma_lines_nonempty(c@);
        }
    }
    let mut k: usize = 1;
    while k < lines.len() && !is_fence_exec(&lines[k])
        invariant
            1 <= k <= lines@.len(),
            lines_view(lines@) == lines_of(c@),
            rest == lines_of(c@).drop_first(),
            forall|m: int| 0 <= m < k - 1 ==> !is_fence(rest[m]),
        decreases lines.len() - k,
    {
        assert(rest[k - 1] == lines@[k as int]@);
        k += 1;
    }
    if k == lines.len() {
        proof {
            assert forall|m: int| 0 <= m < rest.len() implies !is_fence(rest[m]) by {}
        }
        return Err(FrontMatterError::Unclosed);
    }
    let fm = join_range(&lines, 1, k);
    let body = join_range(&lines, k + 1, lines.len());
    let tb = trim_chars(&body);
    proof {
        let lv = lines_view(lines@);
        assert(rest[k - 1] == lines@[k as int]@);
        let j = choose|j: int|
            0 <= j < rest.len() && is_fence(rest[j]) && forall|m: int| 0 <= m < j ==> !is_fence(rest[m]);
        if j < k - 1 {
            assert(!is_fence(rest[j]));
        }
        if j > k - 1 {
            assert(!is_fence(rest[k - 1]));
        }
        assert(lv.subrange(1, k as int) =~= rest.take(k - 1));
        assert(lv.subrange(k + 1, lv.len() as int) =~= rest.skip(k as int));
    }
    Ok((Some(string_of(&fm)), string_of(&tb)))
}

proof fn lemma_lines_nonempty(c: Seq<char>)
    requires
        c.len() >= 3,
        c[0] == '-',
    ensures
        lines_of(c).len() > 0,
{
    lemma_scan_progress(c);
}

proof fn lemma_scan_progress(s: Seq<char>)
    requires
        s.len() > 0,
        s[0] != '\n',
    ensures
        line_scan(s).0.len() > 0 || line_scan(s).1.len() > 0,
    decreases s.len(),
{
    if s.len() > 1 {
        assert(s.drop_last()[0] == s[0]);
        lemma_scan_progress(s.drop_last());
    }
}

/// Pieces of a text between commas, the last piece included.
pub open spec fn comma_scan(s: Seq<char>) -> (Seq<Seq<char>>, Seq<char>)
    decreases s.len(),
{
    if s.len() == 0 {
        (Seq::empty(), Seq::empty())
    } else {
        let (done, cur) = comma_scan(s.drop_last());
        if s.last() == ',' { (done.push(cur), Seq::empty()) } else { (done, cur.push(s.last())) }
    }
}

/// Tags written as one comma-separated text: pieces trimmed, empty ones dropped.
pub open spec fn tags_from_text(s: Seq<char>) -> Seq<Seq<char>> {
    let (done, cur) = comma_scan(s);
    done.push(cur).map_values(|p: Seq<char>| trim(p)).filter(|p: Seq<char>| p.len() > 0)
}

/// Splits a comma-separated tag list.
pub fn split_tags(value: &str) -> (r: Vec<String>)
    ensures
        r@.map_values(|t: String| t@) == tags_from_text(value@),
{
    let cs = chars_of(value);
    let mut pieces: Vec<Vec<char>> = Vec::new();
    let mut cur: Vec<char> = Vec::new();
    let mut i: usize = 0;
    while i < cs.len()
        invariant
            i <= cs@.len(),
            cs@ == value@,
            (lines_view(pieces@), cur@) == comma_scan(cs@.take(i as int)),
        decreases cs.len() - i,
    {
        assert(cs@.take(i + 1).drop_last() =~= cs@.take(i as int));
        let c = cs[i];
        if c == ',' {
            let ghost before = lines_view(pieces@);
            let piece = cur;
            cur = Vec::new();
            let ghost p = piece@;
            pieces.push(piece);
            assert(lines_view(pieces@) =~= before.push(p));
        } else {
            cur.push(c);
        }
        i += 1;
    }
    assert(cs@.take(cs.len() as int) =~= cs@);
    let ghost before = lines_view(pieces@);
    let ghost last = cur@;
    pieces.push(cur);
    assert(lines_view(pieces@) =~= before.push(last));
    let ghost all = lines_view(pieces@).map_values(|p: Seq<char>| trim(p));
    let ghost keep = |p: Seq<char>| p.len() > 0;
    let mut out: Vec<String> = Vec::new();
    let mut j: usize = 0;
    while j < pieces.len()
        invariant
            j <= pieces@.len(),
            all == lines_view(pieces@).map_values(|p: Seq<char>| trim(p)),
            keep == (|p: Seq<char>| p.len() > 0),
            out@.map_values(|t: String| t@) == all.take(j as int).filter(keep),
        decreases pieces.len() - j,
    {
        proof {
            crate::seqs::lemma_filter_step_any(all, keep, j as int);
        }
        let t = trim_chars(&pieces[j]);
        assert(t@ == all[j as int]);
        if t.len() > 0 {
            let ghost before = out@.map_values(|t: String| t@);
            out.push(string_of(&t));
            assert(out@.map_values(|t: String| t@) =~= before.push(t@));
        }
        j += 1;
    }
    assert(all.take(pieces.len() as int) =~= all);
    out
}

} // verus!
