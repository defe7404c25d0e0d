//! Estimated reading time of a markdown text: words, Chinese characters and
//! code blocks, each read at its own pace.
use vstd::prelude::*;
use crate::markdown::{MdEvent, MdItem, events_view, markdown_items, markdown_events};
use crate::text::{is_space, is_ascii_alpha, char_is_space, char_is_ascii_alpha, chars_of, decimal_of, usize_to_decimal};

verus! {

/// Average adult reading speed, in words per minute.
pub const WORDS_PER_MINUTE: usize = 200;

/// Reading speed for technical content, in words per minute.
pub const WORDS_PER_MINUTE_TECHNICAL: usize = 150;

/// Reading speed for Chinese text, in characters per minute.
pub const CHINESE_CHARS_PER_MINUTE: usize = 300;

/// A reading-time estimate with the counts it was made from.
#[derive(Debug, Clone)]
pub struct ReadingTime {
    pub minutes: usize,
    pub words: usize,
    pub chinese_chars: usize,
    pub code_blocks: usize,
}

/// CJK Unified Ideographs, Extension A and Compatibility Ideographs.
pub open spec fn is_chinese(c: char) -> bool {
    ||| ('\u{4e00}' <= c && c <= '\u{9fff}')
    ||| ('\u{3400}' <= c && c <= '\u{4dbf}')
    ||| ('\u{f900}' <= c && c <= '\u{faff}')
}

/// Text outside code blocks, whether inside a code block, and how many code
/// blocks have started, after a run of events.
pub open spec fn scan(ev: Seq<MdItem>) -> (Seq<char>, bool, nat)
    decreases ev.len(),
{
    if ev.len() == 0 {
        (Seq::empty(), false, 0)
    } else {
        let (t, inside, n) = scan(ev.drop_last());
        match ev.last() {
            MdItem::CodeBlockStart => (t, true, n + 1),
            MdItem::CodeBlockEnd => (t, false, n),
            MdItem::Text(x) => if inside { (t, inside, n) } else { (t + x, inside, n) },
            MdItem::Code(x) => if inside { (t, inside, n) } else { (t + x, inside, n) },
            _ => (t, inside, n),
        }
    }
}

pub open spec fn chinese_count(t: Seq<char>) -> nat
    decreases t.len(),
{
    if t.len() == 0 {
        0
    } else {
        chinese_count(t.drop_last()) + if is_chinese(t.last()) { 1nat } else { 0nat }
    }
}

/// Finished words that hold an ASCII letter, whether a word is open, and
/// whether the open word holds an ASCII letter.
pub open spec fn word_scan(t: Seq<char>) -> (nat, bool, bool)
    decreases t.len(),
{
    if t.len() == 0 {
        (0, false, false)
    } else {
        let (n, open, alpha) = word_scan(t.drop_last());
        let c = t.last();
        if is_space(c) {
            (n + if open && alpha { 1nat } else { 0nat }, false, false)
        } else {
            (n, true, alpha || is_ascii_alpha(c))
        }
    }
}

/// Whitespace-separated words that hold at least one ASCII letter.
pub open spec fn word_count(t: Seq<char>) -> nat {
    let (n, open, alpha) = word_scan(t);
    n + if open && alpha { 1nat } else { 0nat }
}

/// Minutes, rounded up and at least one: a word takes 1/200 minute (1/150
/// when technical), a Chinese character 1/300, a code block half a minute.
/// Counted in units of 1/600 minute: 3 or 4 per word ([`WORDS_PER_MINUTE`],
/// [`WORDS_PER_MINUTE_TECHNICAL`]), 2 per Chinese character
/// ([`CHINESE_CHARS_PER_MINUTE`]), 300 per code block.
pub open spec fn minutes_for(words: nat, chinese: nat, code: nat, technical: bool) -> nat {
    let per_word: nat = if technical { 4 } else { 3 };
    let units = per_word * words + 2 * chinese + 300 * code;
    if units <= 600 { 1 } else { ((units + 599) / 600) as nat }
}

pub open spec fn estimate(items: Seq<MdItem>, technical: bool) -> (nat, nat, nat, nat) {
    let (t, _, code) = scan(items);
    let words = word_count(t);
    let chinese = chinese_count(t);
    (minutes_for(words, chinese, code, technical), words, chinese, code)
}

fn is_chinese_char(c: char) -> (r: bool)
    ensures
        r == is_chinese(c),
{
    ('\u{4e00}' <= c && c <= '\u{9fff}') || ('\u{3400}' <= c && c <= '\u{4dbf}') || ('\u{f900}' <= c
        && c <= '\u{faff}')
}

fn append_chars(out: &mut Vec<char>, s: &str)
    ensures
        final(out)@ == old(out)@ + s@,
{
    let cs = chars_of(s);
    let mut i: usize = 0;
    while i < cs.len()
        invariant
            i <= cs.len(),
            cs@ == s@,
            out@ == old(out)@ + cs@.take(i as int),
        decreases cs.len() - i,
    {
        out.push(cs[i]);
        i += 1;
        assert(out@ =~= old(out)@ + cs@.take(i as int));
    }
    assert(cs@.take(cs.len() as int) =~= cs@);
}

/// The reading time for a stream of markdown events.
pub fn reading_time_from_events(events: &Vec<MdEvent>, is_technical: bool) -> (r: ReadingTime)
    ensures
        (r.minutes as nat, r.words as nat, r.chinese_chars as nat, r.code_blocks as nat) == estimate(
            events_view(events@),
            is_technical,
        ),
{
    let ghost ev = events_view(events@);
    let mut text: Vec<char> = Vec::new();
    let mut inside = false;
    let mut code: usize = 0;
    let mut i: usize = 0;
    while i < events.len()
        invariant
            i <= events.len(),
            ev == events_view(events@),
            code <= i,
            (text@, inside, code as nat) == scan(ev.take(i as int)),
        decreases events.len() - i,
    {
        proof {
            assert(ev.take(i + 1).drop_last() =~= ev.take(i as int));
            assert(ev.take(i + 1).last() == events@[i as int]@);
        }
        match &events[i] {
            MdEvent::CodeBlockStart => {
                inside = true;
                code += 1;
            },
            MdEvent::CodeBlockEnd => {
                inside = false;
            },
            MdEvent::Text(x) => {
                if !inside {
                    append_chars(&mut text, x.as_str());
                }
            },
            MdEvent::Code(x) => {
                if !inside {
                    append_chars(&mut text, x.as_str());
                }
            },
            _ => {},
        }
        i += 1;
    }
    assert(ev.take(events.len() as int) =~= ev);
    let mut chinese: usize = 0;
    let mut words: usize = 0;
    let mut open = false;
    let mut alpha = false;
    let mut j: usize = 0;
    while j < text.len()
        invariant
            j <= text.len(),
            chinese <= j,
            words <= j,
            chinese as nat == chinese_count(text@.take(j as int)),
            (words as nat, open, alpha) == word_scan(text@.take(j as int)),
            open ==> words < j,
        decreases text.len() - j,
    {
        let c = text[j];
        proof {
            assert(text@.take(j + 1).drop_last() =~= text@.take(j as int));
        }
        if is_chinese_char(c) {
            chinese += 1;
        }
        if char_is_space(c) {
            if open && alpha {
                words += 1;
            }
            open = false;
            alpha = false;
        } else {
            open = true;
            alpha = alpha || char_is_ascii_alpha(c);
        }
        j += 1;
    }
    assert(text@.take(text.len() as int) =~= text@);
    if open && alpha {
        words += 1;
    }
    let per_word: u128 = if is_technical { 4 } else { 3 };
    let units: u128 = per_word * (words as u128) + 2 * (chinese as u128) + 300 * (code as u128);
    let minutes: usize = if units <= 600 {
        1
    } else {
        assert((units + 599) / 600 <= usize::MAX) by (nonlinear_arith)
            requires
                units <= 4 * (usize::MAX as u128) + 2 * (usize::MAX as u128) + 300 * (usize::MAX as u128),
        ;
        ((units + 599) / 600) as usize
    };
    ReadingTime { minutes, words, chinese_chars: chinese, code_blocks: code }
}

/// Estimated reading time of a markdown text.
pub fn calculate_reading_time(content: &str, is_technical: bool) -> (r: ReadingTime)
    ensures
        (r.minutes as nat, r.words as nat, r.chinese_chars as nat, r.code_blocks as nat) == estimate(
            markdown_items(content@),
            is_technical,
        ),
{
    let events = markdown_events(content);
    reading_time_from_events(&events, is_technical)
}

/// Items joined with `", "` between them.
pub open spec fn join_comma(parts: Seq<Seq<char>>) -> Seq<char>
    decreases parts.len(),
{
    if parts.len() == 0 {
        Seq::empty()
    } else if parts.len() == 1 {
        parts[0]
    } else {
        join_comma(parts.drop_last()) + ", "@ + parts.last()
    }
}

pub open spec fn count_part(n: usize, unit: Seq<char>) -> Seq<Seq<char>> {
    if n > 0 { seq![decimal_of(n as int) + unit] } else { Seq::empty() }
}

impl ReadingTime {
    /// `"<minutes> min read"`.
    pub open spec fn label(&self) -> Seq<char> {
        decimal_of(self.minutes as int) + " min read"@
    }

    /// The non-zero counts, as `"<n> words"`, `"<n> Chinese chars"`, `"<n> code blocks"`.
    pub open spec fn detail_parts(&self) -> Seq<Seq<char>> {
        count_part(self.words, " words"@) + count_part(self.chinese_chars, " Chinese chars"@)
            + count_part(self.code_blocks, " code blocks"@)
    }

    /// A human-readable estimate such as `"3 min read"`.
    pub fn to_string(&self) -> (r: String)
        ensures
            r@ == self.label(),
    {
        let mut r = usize_to_decimal(self.minutes);
        r.append(" min read");
        r
    }

    /// The estimate followed by its counts, such as `"3 min read (512 words, 1 code blocks)"`.
    pub fn details(&self) -> (r: String)
        ensures
            r@ == self.label() + " ("@ + join_comma(self.detail_parts()) + ")"@,
    {
        let mut parts: Vec<String> = Vec::new();
        if self.words > 0 {
            let mut p = usize_to_decimal(self.words);
            p.append(" words");
            parts.push(p);
        }
        if self.chinese_chars > 0 {
            let mut p = usize_to_decimal(self.chinese_chars);
            p.append(" Chinese chars");
            parts.push(p);
        }
        if self.code_blocks > 0 {
            let mut p = usize_to_decimal(self.code_blocks);
            p.append(" code blocks");
            parts.push(p);
        }
        proof {
            assert(parts@.map_values(|p: String| p@) =~= self.detail_parts());
        }
        let mut r = self.to_string();
        r.append(" (");
        let mut i: usize = 0;
        let ghost head = r@;
        let ghost pv = parts@.map_values(|p: String| p@);
        while i < parts.len()
            invariant
                i <= parts.len(),
                pv == parts@.map_values(|p: String| p@),
                r@ == head + join_comma(pv.take(i as int)),
            decreases parts.len() - i,
        {
            proof {
                assert(pv.take(i + 1).drop_last() =~= pv.take(i as int));
            }
            if i > 0 {
                r.append(", ");
            }
            r.append(parts[i].as_str());
            proof {
                if i == 0 {
                    assert(pv.take(1) =~= seq![pv[0]]);
                }
            }
            i += 1;
        }
        assert(pv.take(parts.len() as int) =~= pv);
        r.append(")");
        r
    }
}

} // verus!
