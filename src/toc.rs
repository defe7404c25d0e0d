//! Tables of contents: heading entries nested by level, and their HTML.
use vstd::prelude::*;
use crate::text::{chars_of, string_of, decimal_of, usize_to_decimal, lowercase_of};
use crate::markdown::{MdEvent, MdItem, events_view, markdown_items, markdown_events};
use crate::slug::{generate_heading_id, heading_id_of};
use crate::seqs::{lemma_filter_step_any, lemma_filter_members_any};

verus! {

/// One heading and the headings nested under it.
#[derive(Debug)]
pub struct TocEntry {
    pub level: u8,
    pub text: String,
    pub id: String,
    pub children: Vec<TocEntry>,
}

/// The HTML escape of one character.
pub open spec fn escape_char(c: char) -> Seq<char> {
    if c == '&' {
        "&amp;"@
    } else if c == '<' {
        "&lt;"@
    } else if c == '>' {
        "&gt;"@
    } else if c == '"' {
        "&quot;"@
    } else if c == '\'' {
        "&#x27;"@
    } else {
        seq![c]
    }
}

/// A text with `& < > " '` written as entities.
pub open spec fn escaped(s: Seq<char>) -> Seq<char>
    decreases s.len(),
{
    if s.len() == 0 {
        Seq::empty()
    } else {
        escaped(s.drop_last()) + escape_char(s.last())
    }
}

/// The opening of an entry's list item, up to its link.
pub open spec fn entry_head(e: TocEntry) -> Seq<char> {
    "<li class=\"toc-item toc-level-"@ + decimal_of(e.level as int)
        + "\">\n                <a href=\"#"@ + e.id@ + "\" class=\"toc-link\">"@ + escaped(e.text@)
        + "</a>"@
}

/// The list items of entries, nested lists for their children.
pub open spec fn list_html(es: Seq<TocEntry>) -> Seq<char>
    decreases es,
{
    if es.len() == 0 {
        Seq::empty()
    } else {
        let e = es[es.len() - 1];
        let sub = if e.children@.len() > 0 {
            "<ul class=\"toc-sublist\">"@ + list_html(e.children@) + "</ul>"@
        } else {
            Seq::empty()
        };
        list_html(es.subrange(0, es.len() - 1)) + entry_head(e) + sub + "</li>"@
    }
}

pub open spec fn toc_html(es: Seq<TocEntry>) -> Seq<char> {
    if es.len() == 0 {
        Seq::empty()
    } else {
        "<nav class=\"toc\" id=\"toc\">\n    <h2 class=\"toc-title\">Table of Contents</h2>\n    <ul class=\"toc-list\">"@
            + list_html(es) + "</ul></nav>"@
    }
}

/// Escapes the HTML special characters of a text.
pub fn escape_html(text: &str) -> (r: String)
    ensures
        r@ == escaped(text@),
{
    let cs = chars_of(text);
    let mut out = String::new();
    let mut i: usize = 0;
    while i < cs.len()
        invariant
            i <= cs@.len(),
            cs@ == text@,
            out@ == escaped(cs@.take(i as int)),
        decreases cs.len() - i,
    {
        let c = cs[i];
        assert(cs@.take(i + 1).drop_last() =~= cs@.take(i as int));
        if c == '&' {
            out.append("&amp;");
        } else if c == '<' {
            out.append("&lt;");
        } else if c == '>' {
            out.append("&gt;");
        } else if c == '"' {
            out.append("&quot;");
        } else if c == '\'' {
            out.append("&#x27;");
        } else {
            let one = vec![c];
            out.append(string_of(&one).as_str());
            assert(one@ =~= seq![c]);
        }
        i += 1;
    }
    assert(cs@.take(cs.len() as int) =~= cs@);
    out
}

fn push_entry_head(e: &TocEntry, html: &mut String)
    ensures
        final(html)@ == old(html)@ + entry_head(*e),
{
    html.append("<li class=\"toc-item toc-level-");
    html.append(usize_to_decimal(e.level as usize).as_str());
    html.append("\">\n                <a href=\"#");
    html.append(e.id.as_str());
    html.append("\" class=\"toc-link\">");
    html.append(escape_html(e.text.as_str()).as_str());
    html.append("</a>");
    assert(html@ =~= old(html)@ + entry_head(*e));
}

fn push_list_html(entries: &[TocEntry], html: &mut String)
    ensures
        final(html)@ == old(html)@ + list_html(entries@),
    decreases entries@,
{
    let mut i: usize = 0;
    while i < entries.len()
        invariant
            i <= entries@.len(),
            html@ == old(html)@ + list_html(entries@.take(i as int)),
        decreases entries.len() - i,
    {
        let e = &entries[i];
        proof {
            let t = entries@.take(i + 1);
            assert(t.subrange(0, t.len() - 1) =~= entries@.take(i as int));
            assert(t[t.len() - 1] == entries@[i as int]);
        }
        let ghost start = html@;
        push_entry_head(e, html);
        let ghost mid = html@;
        if e.children.len() > 0 {
            html.append("<ul class=\"toc-sublist\">");
            proof {
                assert(decreases_to!(entries@ => entries@[i as int]));
                assert(decreases_to!(entries@[i as int] => entries@[i as int].children));
                assert(decreases_to!(entries@[i as int].children => entries@[i as int].children@));
            }
            push_list_html(e.children.as_slice(), html);
            html.append("</ul>");
        }
        html.append("</li>");
        proof {
            let t = entries@.take(i + 1);
            let sub = if e.children@.len() > 0 {
                "<ul class=\"toc-sublist\">"@ + list_html(e.children@) + "</ul>"@
            } else {
                Seq::empty()
            };
            assert(html@ =~= mid + sub + "</li>"@);
            assert(list_html(t) == list_html(t.subrange(0, t.len() - 1)) + entry_head(t[t.len() - 1]) + sub + "</li>"@);
            assert(html@ =~= old(html)@ + list_html(t));
        }
        i += 1;
    }
    assert(entries@.take(entries.len() as int) =~= entries@);
}

/// The HTML of a table of contents; empty when there are no entries.
pub fn generate_toc_html(toc: &[TocEntry]) -> (r: String)
    ensures
        r@ == toc_html(toc@),
{
    if toc.len() == 0 {
        return String::new();
    }
    let mut html = String::from_str(
        "<nav class=\"toc\" id=\"toc\">\n    <h2 class=\"toc-title\">Table of Contents</h2>\n    <ul class=\"toc-list\">",
    );
    push_list_html(toc, &mut html);
    html.append("</ul></nav>");
    html
}

/// A heading as the table of contents lists it: level, text and anchor id.
pub type Flat = (u8, Seq<char>, Seq<char>);

/// The entries of a forest in document order: each entry, then its children.
pub open spec fn flatten(es: Seq<TocEntry>) -> Seq<Flat>
    decreases es,
{
    if es.len() == 0 {
        Seq::empty()
    } else {
        let e = es[es.len() - 1];
        flatten(es.subrange(0, es.len() - 1)) + seq![(e.level, e.text@, e.id@)] + flatten(e.children@)
    }
}

/// Every entry is deeper than `bound`, children are deeper than their parent,
/// and no entry is deeper than the sibling before it.
pub open spec fn nested(es: Seq<TocEntry>, bound: int) -> bool
    decreases es,
{
    if es.len() == 0 {
        true
    } else {
        let e = es[es.len() - 1];
        &&& nested(es.subrange(0, es.len() - 1), bound)
        &&& e.level > bound
        &&& nested(e.children@, e.level as int)
        &&& es.len() >= 2 ==> e.level <= es[es.len() - 2].level
    }
}

/// Headings found so far, whether inside a heading, its level and its text.
pub open spec fn heading_scan(ev: Seq<MdItem>) -> (Seq<(u8, Seq<char>)>, bool, u8, Seq<char>)
    decreases ev.len(),
{
    if ev.len() == 0 {
        (Seq::empty(), false, 1, Seq::empty())
    } else {
        let (hs, inside, level, cur) = heading_scan(ev.drop_last());
        match ev.last() {
            MdItem::HeadingStart(l) => (hs, true, l, Seq::empty()),
            MdItem::HeadingEnd => (
                if inside && cur.len() > 0 { hs.push((level, cur)) } else { hs },
                false,
                level,
                cur,
            ),
            MdItem::Text(t) => if inside { (hs, inside, level, cur + t) } else { (hs, inside, level, cur) },
            MdItem::Code(c) => if inside {
                (hs, inside, level, cur + seq!['`'] + c + seq!['`'])
            } else {
                (hs, inside, level, cur)
            },
            _ => (hs, inside, level, cur),
        }
    }
}

pub open spec fn headings_view(v: Seq<(u8, String)>) -> Seq<(u8, Seq<char>)> {
    v.map_values(|h: (u8, String)| (h.0, h.1@))
}

pub open spec fn flat_of(h: (u8, Seq<char>)) -> Flat {
    (h.0, h.1, heading_id_of(lowercase_of(h.1)))
}

/// The headings of a page below the title level, as listed entries.
pub open spec fn toc_flat(items: Seq<MdItem>) -> Seq<Flat> {
    heading_scan(items).0.filter(|h: (u8, Seq<char>)| h.0 > 1).map_values(|h: (u8, Seq<char>)| flat_of(h))
}

pub open spec fn flats_view(v: Seq<(u8, String, String)>) -> Seq<Flat> {
    v.map_values(|f: (u8, String, String)| (f.0, f.1@, f.2@))
}

/// Nests `flat[start..]` under a parent of level `bound`, stopping at the
/// first entry that is not deeper than `bound`.
fn nest(flat: &Vec<(u8, String, String)>, start: usize, bound: u8) -> (r: (Vec<TocEntry>, usize))
    requires
        start <= flat@.len(),
    ensures
        start <= r.1 <= flat@.len(),
        flatten(r.0@) == flats_view(flat@).subrange(start as int, r.1 as int),
        nested(r.0@, bound as int),
        r.1 < flat@.len() ==> flat@[r.1 as int].0 <= bound,
        r.0@.len() > 0 ==> r.0@[0].level == flat@[start as int].0,
    decreases flat@.len() - start,
{
    let ghost fv = flats_view(flat@);
    let mut out: Vec<TocEntry> = Vec::new();
    let mut i = start;
    while i < flat.len() && flat[i].0 > bound
        invariant
            start <= i <= flat@.len(),
            fv == flats_view(flat@),
            flatten(out@) == fv.subrange(start as int, i as int),
            nested(out@, bound as int),
            out@.len() > 0 ==> out@[0].level == flat@[start as int].0,
            out@.len() > 0 ==> i < flat@.len() ==> flat@[i as int].0 <= out@[out@.len() - 1].level,
            out@.len() == 0 ==> i == start,
        decreases flat@.len() - i,
    {
        let level = flat[i].0;
        let (children, j) = nest(flat, i + 1, level);
        let e = TocEntry {
            level,
            text: flat[i].1.clone(),
            id: flat[i].2.clone(),
            children,
        };
        let ghost before = out@;
        out.push(e);
        proof {
            let o = out@;
            assert(o.subrange(0, o.len() - 1) =~= before);
            assert(fv[i as int] == (e.level, e.text@, e.id@));
            assert(fv.subrange(start as int, j as int) =~= fv.subrange(start as int, i as int) + seq![fv[i as int]] + fv.subrange(i + 1, j as int));
            if o.len() >= 2 {
                assert(o[o.len() - 2] == before[before.len() - 1]);
            }
            if before.len() > 0 {
                assert(o[0] == before[0]);
            }
        }
        i = j;
    }
    (out, i)
}

/// The heading events of a text, gathered into (level, text) pairs.
fn collect_headings(events: &Vec<MdEvent>) -> (r: Vec<(u8, String)>)
    ensures
        headings_view(r@) == heading_scan(events_view(events@)).0,
{
    let ghost ev = events_view(events@);
    let mut hs: Vec<(u8, String)> = Vec::new();
    let mut inside = false;
    let mut level: u8 = 1;
    let mut cur = String::new();
    let mut i: usize = 0;
    while i < events.len()
        invariant
            i <= events@.len(),
            ev == events_view(events@),
            (headings_view(hs@), inside, level, cur@) == heading_scan(ev.take(i as int)),
        decreases events.len() - i,
    {
        proof {
            assert(ev.take(i + 1).drop_last() =~= ev.take(i as int));
            assert(ev.take(i + 1).last() == events@[i as int]@);
        }
        let ghost hv = headings_view(hs@);
        let ghost st = heading_scan(ev.take(i as int));
        match &events[i] {
            MdEvent::HeadingStart(l) => {
                inside = true;
                level = *l;
                cur = String::new();
            },
            MdEvent::HeadingEnd => {
                if inside && !cur.as_str().is_empty() {
                    hs.push((level, cur.clone()));
                    assert(headings_view(hs@) =~= hv.push((level, cur@)));
                }
                inside = false;
            },
            MdEvent::Text(t) => {
                if inside {
                    cur.append(t.as_str());
                }
            },
            MdEvent::Code(c) => {
                if inside {
                    let ghost c0 = cur@;
                    cur.append("`");
                    cur.append(c.as_str());
                    cur.append("`");
                    proof {
                        reveal_strlit("`");
                        assert(cur@ =~= c0 + seq!['`'] + c@ + seq!['`']);
                    }
                }
            },
            _ => {},
        }
        i += 1;
    }
    assert(ev.take(events.len() as int) =~= ev);
    hs
}

/// The table of contents of a markdown text: its headings below the title
/// level, nested by level.
pub fn generate_toc(markdown: &str) -> (r: Vec<TocEntry>)
    ensures
        flatten(r@) == toc_flat(markdown_items(markdown@)),
        nested(r@, 1),
{
    let events = markdown_events(markdown);
    toc_from_events(&events)
}

/// The table of contents of a stream of markdown events.
pub fn toc_from_events(events: &Vec<MdEvent>) -> (r: Vec<TocEntry>)
    ensures
        flatten(r@) == toc_flat(events_view(events@)),
        nested(r@, 1),
{
    let hs = collect_headings(events);
    let ghost hv = headings_view(hs@);
    let ghost keep = |h: (u8, Seq<char>)| h.0 > 1;
    let mut flat: Vec<(u8, String, String)> = Vec::new();
    let mut i: usize = 0;
    while i < hs.len()
        invariant
            i <= hs@.len(),
            hv == headings_view(hs@),
            keep == (|h: (u8, Seq<char>)| h.0 > 1),
            flats_view(flat@) == hv.take(i as int).filter(keep).map_values(|h: (u8, Seq<char>)| flat_of(h)),
        decreases hs.len() - i,
    {
        proof {
            lemma_filter_step_any(hv, keep, i as int);
        }
        if hs[i].0 > 1 {
            let id = generate_heading_id(hs[i].1.as_str());
            let ghost before = flats_view(flat@);
            flat.push((hs[i].0, hs[i].1.clone(), id));
            assert(flats_view(flat@) =~= before.push(flat_of(hv[i as int])));
            assert(hv.take(i as int).filter(keep).push(hv[i as int]).map_values(|h: (u8, Seq<char>)| flat_of(h)) =~= before.push(flat_of(hv[i as int])));
        }
        i += 1;
    }
    assert(hv.take(hs.len() as int) =~= hv);
    let (toc, end) = nest(&flat, 0, 1);
    proof {
        let fv = flats_view(flat@);
        assert(fv.subrange(0, end as int) =~= fv) by {
            if end < flat@.len() {
                assert(fv[end as int].0 == flat@[end as int].0);
                let f = hv.filter(keep);
                assert(fv.len() == f.len());
                assert(fv[end as int] == flat_of(f[end as int]));
                lemma_filter_members_any(hv, keep);
                assert(keep(f[end as int]));
            }
        }
    }
    toc
}

} // verus!
