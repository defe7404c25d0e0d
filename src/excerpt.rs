//! Plain-text excerpts of markdown posts.
use vstd::prelude::*;
use crate::markdown::{MdEvent, MdItem, events_view, markdown_items, markdown_events};
use crate::text::{is_space, char_is_space, chars_of, string_of};

verus! {

/// Text with a separating space added unless it is empty or already ends in one.
pub open spec fn spaced(t: Seq<char>) -> Seq<char> {
    if t.len() > 0 && t.last() != ' ' { t.push(' ') } else { t }
}

/// Finished words and the word being read, after a run of characters.
pub open spec fn split_scan(t: Seq<char>) -> (Seq<Seq<char>>, Seq<char>)
    decreases t.len(),
{
    if t.len() == 0 {
        (Seq::empty(), Seq::empty())
    } else {
        let (done, cur) = split_scan(t.drop_last());
        if is_space(t.last()) {
            if cur.len() > 0 { (done.push(cur), Seq::empty()) } else { (done, cur) }
        } else {
            (done, cur.push(t.last()))
        }
    }
}

/// The whitespace-separated words of a text.
pub open spec fn words_of(t: Seq<char>) -> Seq<Seq<char>> {
    let (done, cur) = split_scan(t);
    if cur.len() > 0 { done.push(cur) } else { done }
}

/// Appends words `ws[k..]` one at a time; `Some` with the final text when the
/// word limit is reached first.
pub open spec fn add_words(ws: Seq<Seq<char>>, k: int, text: Seq<char>, words: nat, limit: nat) -> (Option<Seq<char>>, Seq<char>, nat)
    decreases ws.len() - k,
{
    if k < 0 || k >= ws.len() {
        (None, text, words)
    } else if words >= limit {
        (Some(text + seq!['.', '.', '.']), text, words)
    } else {
        add_words(ws, k + 1, spaced(text) + ws[k], words + 1, limit)
    }
}

/// A text without its leading whitespace.
pub open spec fn trim_start(s: Seq<char>) -> Seq<char>
    decreases s.len(),
{
    if s.len() > 0 && is_space(s[0]) { trim_start(s.drop_first()) } else { s }
}

/// A text without its trailing whitespace.
pub open spec fn trim_end(s: Seq<char>) -> Seq<char>
    decreases s.len(),
{
    if s.len() > 0 && is_space(s.last()) { trim_end(s.drop_last()) } else { s }
}

/// Runs of spaces shortened to one space.
pub open spec fn collapse_spaces(s: Seq<char>) -> Seq<char>
    decreases s.len(),
{
    if s.len() == 0 {
        Seq::empty()
    } else {
        let p = collapse_spaces(s.drop_last());
        if s.last() == ' ' && p.len() > 0 && p.last() == ' ' { p } else { p.push(s.last()) }
    }
}

/// The cleaned excerpt: trimmed, spaces collapsed, and `...` added unless it
/// is empty or ends in `.`, `!` or `?`.
pub open spec fn cleaned(t: Seq<char>) -> Seq<char> {
    let c = collapse_spaces(trim_end(trim_start(t)));
    if c.len() > 0 && !(c.last() == '.' || c.last() == '!' || c.last() == '?') {
        c + seq!['.', '.', '.']
    } else {
        c
    }
}

pub struct ExcerptScan {
    pub text: Seq<char>,
    pub words: nat,
    pub in_code: bool,
    pub in_heading: bool,
}

/// The excerpt from event `i` on: text outside code blocks and headings, word
/// by word up to the limit; it may stop at the end of a paragraph once half
/// the limit is reached.
pub open spec fn excerpt_from(ev: Seq<MdItem>, i: int, st: ExcerptScan, limit: nat) -> Seq<char>
    decreases ev.len() - i,
{
    if i < 0 || i >= ev.len() {
        cleaned(st.text)
    } else {
        match ev[i] {
            MdItem::CodeBlockStart => excerpt_from(ev, i + 1, ExcerptScan { in_code: true, ..st }, limit),
            MdItem::CodeBlockEnd => excerpt_from(ev, i + 1, ExcerptScan { in_code: false, ..st }, limit),
            MdItem::HeadingStart(_) => excerpt_from(ev, i + 1, ExcerptScan { in_heading: true, ..st }, limit),
            MdItem::HeadingEnd => excerpt_from(
                ev,
                i + 1,
                ExcerptScan { in_heading: false, text: spaced(st.text), ..st },
                limit,
            ),
            MdItem::ParagraphEnd => if st.words >= limit / 2 {
                cleaned(st.text)
            } else {
                excerpt_from(ev, i + 1, st, limit)
            },
            MdItem::Text(t) => if !st.in_code && !st.in_heading {
                let (stop, text, words) = add_words(words_of(t), 0, st.text, st.words, limit);
                match stop {
                    Some(done) => cleaned(done),
                    None => excerpt_from(ev, i + 1, ExcerptScan { text, words, ..st }, limit),
                }
            } else {
                excerpt_from(ev, i + 1, st, limit)
            },
            MdItem::LineBreak => if !st.in_code && !(st.text.len() > 0 && st.text.last() == ' ') {
                excerpt_from(ev, i + 1, ExcerptScan { text: st.text.push(' '), ..st }, limit)
            } else {
                excerpt_from(ev, i + 1, st, limit)
            },
            _ => excerpt_from(ev, i + 1, st, limit),
        }
    }
}

pub open spec fn excerpt_start() -> ExcerptScan {
    ExcerptScan { text: Seq::empty(), words: 0, in_code: false, in_heading: false }
}

pub open spec fn words_view(v: Seq<Vec<char>>) -> Seq<Seq<char>> {
    v.map_values(|w: Vec<char>| w@)
}

pub(crate) fn split_words(t: &str) -> (r: Vec<Vec<char>>)
    ensures
        words_view(r@) == words_of(t@),
{
    let cs = chars_of(t);
    let mut done: Vec<Vec<char>> = Vec::new();
    let mut cur: Vec<char> = Vec::new();
    let mut i: usize = 0;
    while i < cs.len()
        invariant
            i <= cs@.len(),
            cs@ == t@,
            (words_view(done@), cur@) == split_scan(cs@.take(i as int)),
        decreases cs.len() - i,
    {
        let c = cs[i];
        let ghost before = words_view(done@);
        assert(cs@.take(i + 1).drop_last() =~= cs@.take(i as int));
        if char_is_space(c) {
            if cur.len() > 0 {
                let w = cur;
                cur = Vec::new();
                done.push(w);
                assert(words_view(done@) =~= before.push(w@));
            }
        } else {
            cur.push(c);
        }
        i += 1;
    }
    assert(cs@.take(cs.len() as int) =~= cs@);
    if cur.len() > 0 {
        let ghost before = words_view(done@);
        done.push(cur);
        assert(words_view(done@) =~= before.push(split_scan(t@).1));
    }
    done
}

fn push_chars(out: &mut Vec<char>, w: &Vec<char>)
    ensures
        final(out)@ == old(out)@ + w@,
{
    let mut k: usize = 0;
    while k < w.len()
        invariant
            k <= w@.len(),
            out@ == old(out)@ + w@.take(k as int),
        decreases w.len() - k,
    {
        out.push(w[k]);
        k += 1;
        assert(out@ =~= old(out)@ + w@.take(k as int));
    }
    assert(w@.take(w.len() as int) =~= w@);
}

/// The characters of a text without leading and trailing whitespace.
pub fn trim_chars(cs: &Vec<char>) -> (r: Vec<char>)
    ensures
        r@ == trim_end(trim_start(cs@)),
{
    let n = cs.len();
    let mut start: usize = 0;
    assert(cs@.subrange(0, n as int) =~= cs@);
    while start < n && char_is_space(cs[start])
        invariant
            start <= n,
            n == cs@.len(),
            trim_start(cs@) == trim_start(cs@.subrange(start as int, n as int)),
        decreases n - start,
    {
        assert(cs@.subrange(start as int, n as int).drop_first() =~= cs@.subrange(start + 1, n as int));
        start += 1;
    }
    let ghost front = cs@.subrange(start as int, n as int);
    assert(trim_start(front) == front);
    let mut end: usize = n;
    assert(cs@.subrange(start as int, end as int) =~= front);
    while end > start && char_is_space(cs[end - 1])
        invariant
            start <= end <= n,
            n == cs@.len(),
            trim_end(front) == trim_end(cs@.subrange(start as int, end as int)),
        decreases end,
    {
        assert(cs@.subrange(start as int, end as int).drop_last() =~= cs@.subrange(start as int, end - 1));
        end -= 1;
    }
    let ghost trimmed = cs@.subrange(start as int, end as int);
    assert(trim_end(trimmed) == trimmed);
    let mut out: Vec<char> = Vec::new();
    let mut j: usize = start;
    while j < end
        invariant
            start <= j <= end <= n,
            n == cs@.len(),
            out@ == cs@.subrange(start as int, j as int),
        decreases end - j,
    {
        out.push(cs[j]);
        j += 1;
        assert(out@ =~= cs@.subrange(start as int, j as int));
    }
    out
}

/// The cleaned form of excerpt text: see [`cleaned`].
pub fn clean_excerpt(text: &str) -> (r: String)
    ensures
        r@ == cleaned(text@),
{
    let cs = chars_of(text);
    let t = trim_chars(&cs);
    let mut out: Vec<char> = Vec::new();
    let mut j: usize = 0;
    while j < t.len()
        invariant
            j <= t@.len(),
            out@ == collapse_spaces(t@.take(j as int)),
        decreases t.len() - j,
    {
        assert(t@.take(j + 1).drop_last() =~= t@.take(j as int));
        let c = t[j];
        if !(c == ' ' && out.len() > 0 && out[out.len() - 1] == ' ') {
            out.push(c);
        }
        j += 1;
    }
    assert(t@.take(t.len() as int) =~= t@);
    let len = out.len();
    if len > 0 && !(out[len - 1] == '.' || out[len - 1] == '!' || out[len - 1] == '?') {
        out.push('.');
        out.push('.');
        out.push('.');
    }
    proof {
        let c = collapse_spaces(t@);
        if c.len() > 0 && !(c.last() == '.' || c.last() == '!' || c.last() == '?') {
            assert(out@ =~= c + seq!['.', '.', '.']);
        }
    }
    string_of(&out)
}

/// The excerpt of a stream of markdown events, with a word limit.
pub fn excerpt_from_events(events: &Vec<MdEvent>, word_limit: usize) -> (r: String)
    ensures
        r@ == excerpt_from(events_view(events@), 0, excerpt_start(), word_limit as nat),
{
    let ghost ev = events_view(events@);
    let ghost limit = word_limit as nat;
    let mut text: Vec<char> = Vec::new();
    let mut words: usize = 0;
    let mut in_code = false;
    let mut in_heading = false;
    let mut i: usize = 0;
    while i < events.len()
        invariant
            i <= events@.len(),
            ev == events_view(events@),
            limit == word_limit as nat,
            words <= word_limit,
            excerpt_from(ev, i as int, ExcerptScan { text: text@, words: words as nat, in_code, in_heading }, limit)
                == excerpt_from(ev, 0, excerpt_start(), limit),
        decreases events.len() - i,
    {
        let ghost st = ExcerptScan { text: text@, words: words as nat, in_code, in_heading };
        assert(ev[i as int] == events@[i as int]@);
        match &events[i] {
            MdEvent::CodeBlockStart => {
                in_code = true;
            },
            MdEvent::CodeBlockEnd => {
                in_code = false;
            },
            MdEvent::HeadingStart(_) => {
                in_heading = true;
            },
            MdEvent::HeadingEnd => {
                in_heading = false;
                if text.len() > 0 && text[text.len() - 1] != ' ' {
                    text.push(' ');
                }
            },
            MdEvent::ParagraphEnd => {
                if words >= word_limit / 2 {
                    let s = string_of(&text);
                    return clean_excerpt(s.as_str());
                }
            },
            MdEvent::Text(t) => {
                if !in_code && !in_heading {
                    let ws = split_words(t.as_str());
                    let ghost wv = words_view(ws@);
                    let mut k: usize = 0;
                    while k < ws.len()
                        invariant
                            k <= ws@.len(),
                            wv == words_view(ws@),
                            wv == words_of(t@),
                            words <= word_limit,
                            add_words(wv, k as int, text@, words as nat, limit) == add_words(wv, 0, st.text, st.words, limit),
                            limit == word_limit as nat,
                            ev == events_view(events@),
                            i < events@.len(),
                            ev[i as int] == MdItem::Text(t@),
                            !in_code && !in_heading,
                            !st.in_code && !st.in_heading,
                            st.in_code == in_code && st.in_heading == in_heading,
                            excerpt_from(ev, i as int, st, limit) == excerpt_from(ev, 0, excerpt_start(), limit),
                        decreases ws.len() - k,
                    {
                        if words >= word_limit {
                            let ghost before = text@;
                            text.push('.');
                            text.push('.');
                            text.push('.');
                            let s = string_of(&text);
                            proof {
                                let res = add_words(wv, 0, st.text, st.words, limit);
                                assert(text@ =~= before + seq!['.', '.', '.']);
                                assert(res.0 == Some(text@));
                                assert(excerpt_from(ev, i as int, st, limit) == cleaned(res.0->0));
                            }
                            return clean_excerpt(s.as_str());
                        }
                        if text.len() > 0 && text[text.len() - 1] != ' ' {
                            text.push(' ');
                        }
                        push_chars(&mut text, &ws[k]);
                        words += 1;
                        k += 1;
                    }
                }
            },
            MdEvent::LineBreak => {
                if !in_code && !(text.len() > 0 && text[text.len() - 1] == ' ') {
                    text.push(' ');
                }
            },
            _ => {},
        }
        i += 1;
    }
    let s = string_of(&text);
    clean_excerpt(s.as_str())
}

/// A plain-text excerpt of markdown: see [`excerpt_from`].
pub fn generate_excerpt(markdown: &str, word_limit: usize) -> (r: String)
    ensures
        r@ == excerpt_from(markdown_items(markdown@), 0, excerpt_start(), word_limit as nat),
{
    let events = markdown_events(markdown);
    excerpt_from_events(&events, word_limit)
}

} // verus!
