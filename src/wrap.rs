//! Wrapping text to a width for terminal display.
use vstd::prelude::*;
use vstd::utf8::encode_utf8;
use crate::excerpt::{words_of, words_view, split_words};
use crate::frontmatter::{lines_of, lines_view, split_lines};
use crate::text::{chars_of, string_of};

verus! {

/// The length of a text in UTF-8 bytes.
pub open spec fn byte_len(s: Seq<char>) -> nat {
    encode_utf8(s).len()
}

pub open spec fn starts_with(s: Seq<char>, p: Seq<char>) -> bool {
    p.len() <= s.len() && s.take(p.len() as int) == p
}

/// Lines kept as they are: code fences, indented code, and short lines.
pub open spec fn kept_line(line: Seq<char>, width: nat) -> bool {
    starts_with(line, seq!['`', '`', '`']) || starts_with(line, seq![' ', ' ', ' ', ' '])
        || byte_len(line) <= width
}

/// Greedy filling of words: finished output and the line being filled.
pub open spec fn fill(ws: Seq<Seq<char>>, width: nat) -> (Seq<char>, Seq<char>)
    decreases ws.len(),
{
    if ws.len() == 0 {
        (Seq::empty(), Seq::empty())
    } else {
        let (out, cur) = fill(ws.drop_last(), width);
        let w = ws.last();
        let (out2, cur2) = if byte_len(cur) + byte_len(w) + 1 > width && cur.len() > 0 {
            (out + cur + seq!['\n'], Seq::empty())
        } else {
            (out, cur)
        };
        (out2, if cur2.len() > 0 { cur2 + seq![' '] + w } else { cur2 + w })
    }
}

/// One line wrapped: kept lines as they are, long ones filled word by word.
pub open spec fn wrap_line(line: Seq<char>, width: nat) -> Seq<char> {
    if kept_line(line, width) {
        line + seq!['\n']
    } else {
        let (out, cur) = fill(words_of(line), width);
        if cur.len() > 0 { out + cur + seq!['\n'] } else { out }
    }
}

pub open spec fn wrap_lines(ls: Seq<Seq<char>>, width: nat) -> Seq<char>
    decreases ls.len(),
{
    if ls.len() == 0 {
        Seq::empty()
    } else {
        wrap_lines(ls.drop_last(), width) + wrap_line(ls.last(), width)
    }
}

fn starts_with_exec(line: &Vec<char>, p: &Vec<char>) -> (r: bool)
    ensures
        r == starts_with(line@, p@),
{
    if p.len() > line.len() {
        return false;
    }
    let mut k: usize = 0;
    while k < p.len()
        invariant
            k <= p@.len() <= line@.len(),
            forall|m: int| 0 <= m < k ==> line@[m] == p@[m],
        decreases p.len() - k,
    {
        if line[k] != p[k] {
            assert(line@.take(p@.len() as int)[k as int] != p@[k as int]);
            return false;
        }
        k += 1;
    }
    assert(line@.take(p@.len() as int) =~= p@);
    true
}

fn push_all(out: &mut Vec<char>, s: &Vec<char>)
    ensures
        final(out)@ == old(out)@ + s@,
{
    let mut k: usize = 0;
    while k < s.len()
        invariant
            k <= s@.len(),
            out@ == old(out)@ + s@.take(k as int),
        decreases s.len() - k,
    {
        out.push(s[k]);
        k += 1;
        assert(out@ =~= old(out)@ + s@.take(k as int));
    }
    assert(s@.take(s.len() as int) =~= s@);
}

fn wrap_one(line: &Vec<char>, width: usize, out: &mut Vec<char>)
    ensures
        final(out)@ == old(out)@ + wrap_line(line@, width as nat),
{
    let fence = vec!['`', '`', '`'];
    let indent = vec![' ', ' ', ' ', ' '];
    assert(fence@ =~= seq!['`', '`', '`']);
    assert(indent@ =~= seq![' ', ' ', ' ', ' ']);
    let as_text = string_of(line);
    if starts_with_exec(line, &fence) || starts_with_exec(line, &indent) || as_text.as_str().as_bytes().len() <= width {
        push_all(out, line);
        out.push('\n');
        assert(out@ =~= old(out)@ + (line@ + seq!['\n']));
        return;
    }
    let ws = split_words(as_text.as_str());
    let ghost wv = words_view(ws@);
    let ghost start = out@;
    let mut cur: Vec<char> = Vec::new();
    let mut i: usize = 0;
    while i < ws.len()
        invariant
            i <= ws@.len(),
            wv == words_view(ws@),
            wv == words_of(line@),
            (out@.subrange(start.len() as int, out@.len() as int), cur@) == fill(wv.take(i as int), width as nat),
            start.len() <= out@.len(),
            out@.take(start.len() as int) == start,
        decreases ws.len() - i,
    {
        proof {
            assert(wv.take(i + 1).drop_last() =~= wv.take(i as int));
            assert(wv.take(i + 1).last() == ws@[i as int]@);
        }
        let ghost out0 = out@;
        let cur_text = string_of(&cur);
        let word_text = string_of(&ws[i]);
        if (cur_text.as_str().as_bytes().len() as u128) + (word_text.as_str().as_bytes().len() as u128) + 1 > (width as u128)
            && cur.len() > 0 {
            push_all(out, &cur);
            out.push('\n');
            cur = Vec::new();
            assert(out@.subrange(start.len() as int, out@.len() as int) =~= out0.subrange(start.len() as int, out0.len() as int) + (cur_text@ + seq!['\n']));
            assert(out@.take(start.len() as int) =~= start);
        }
        if cur.len() > 0 {
            cur.push(' ');
        }
        push_all(&mut cur, &ws[i]);
        i += 1;
    }
    assert(wv.take(ws.len() as int) =~= wv);
    let ghost filled = out@.subrange(start.len() as int, out@.len() as int);
    assert(out@ =~= start + filled);
    if cur.len() > 0 {
        push_all(out, &cur);
        out.push('\n');
        assert(out@ =~= start + (filled + cur@ + seq!['\n']));
    }
}

/// Text wrapped to `width` bytes per line where it can be: code fences,
/// indented lines and short lines stay; long lines are filled word by word.
/// Every line ends with a newline.
pub fn wrap_text(text: &str, width: usize) -> (r: String)
    ensures
        r@ == wrap_lines(lines_of(text@), width as nat),
{
    let cs = chars_of(text);
    let lines = split_lines(&cs);
    let ghost lv = lines_view(lines@);
    let mut out: Vec<char> = Vec::new();
    let mut i: usize = 0;
    while i < lines.len()
        invariant
            i <= lines@.len(),
            lv == lines_view(lines@),
            lv == lines_of(text@),
            out@ == wrap_lines(lv.take(i as int), width as nat),
        decreases lines.len() - i,
    {
        proof {
            assert(lv.take(i + 1).drop_last() =~= lv.take(i as int));
            assert(lv.take(i + 1).last() == lines@[i as int]@);
        }
        wrap_one(&lines[i], width, &mut out);
        i += 1;
    }
    assert(lv.take(lines.len() as int) =~= lv);
    string_of(&out)
}

} // verus!
