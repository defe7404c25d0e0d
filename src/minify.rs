//! Whitespace-collapsing minifiers for HTML, CSS and JavaScript.
//!
//! Each pass reads the text once, left to right, and is specified as a scan
//! from a position and a state: the output of one character followed by the
//! output of the rest.
use vstd::prelude::*;
use crate::text::{
    is_space, char_is_space, chars_of, string_of, decimal_of, mib_text, usize_to_decimal,
    i64_to_decimal, mib_string,
};

verus! {

/// Which kinds of files to minify, and whether comments stay.
#[derive(Debug, Clone)]
pub struct MinifyConfig {
    pub minify_html: bool,
    pub minify_css: bool,
    pub minify_js: bool,
    pub preserve_comments: bool,
}

impl Default for MinifyConfig {
    fn default() -> (r: Self)
        ensures
            r.minify_html && r.minify_css && r.minify_js && !r.preserve_comments,
    {
        MinifyConfig { minify_html: true, minify_css: true, minify_js: true, preserve_comments: false }
    }
}

/// What a minification run did.
#[derive(Debug, Default)]
pub struct MinifyStats {
    pub files_processed: usize,
    pub bytes_saved: i64,
    pub errors: usize,
}

impl MinifyStats {
    pub open spec fn summary_text(&self) -> Seq<char> {
        "Minified "@ + decimal_of(self.files_processed as int) + " files, saved "@ + decimal_of(
            self.bytes_saved as int,
        ) + " bytes ("@ + mib_text(self.bytes_saved as int) + " MB), "@ + decimal_of(
            self.errors as int,
        ) + " errors"@
    }

    /// One line such as `"Minified 3 files, saved 2048 bytes (0.00 MB), 0 errors"`.
    pub fn summary(&self) -> (r: String)
        ensures
            r@ == self.summary_text(),
    {
        let mut r = String::from_str("Minified ");
        r.append(usize_to_decimal(self.files_processed).as_str());
        r.append(" files, saved ");
        r.append(i64_to_decimal(self.bytes_saved).as_str());
        r.append(" bytes (");
        r.append(mib_string(self.bytes_saved).as_str());
        r.append(" MB), ");
        r.append(usize_to_decimal(self.errors).as_str());
        r.append(" errors");
        r
    }
}

/// Why a minifier gave up.
#[derive(PartialEq, Eq, Structural, Debug, Clone, Copy)]
pub enum MinifyError {
    /// The comment pattern was refused by the pattern engine.
    CommentPattern,
}

/// What `regex::Regex::replace_all` with an empty replacement leaves of a text.
pub uninterp spec fn regex_erased(pattern: Seq<char>, text: Seq<char>) -> Seq<char>;

/// Relies on `regex::Regex::new` and `Regex::replace_all` with an empty
/// replacement: every match of the pattern removed; `None` when the pattern
/// does not compile.
#[verifier::external_body]
fn erase_matches(pattern: &str, text: &str) -> (r: Option<String>)
    ensures
        r matches Some(s) ==> s@ == regex_erased(pattern@, text@),
{
    match regex::Regex::new(pattern) {
        Ok(re) => Some(re.replace_all(text, "").to_string()),
        Err(_) => None,
    }
}

pub open spec fn is_blank(c: char) -> bool {
    c == ' ' || c == '\n' || c == '\r' || c == '\t'
}

// ---------------------------------------------------------------- HTML

pub struct HtmlScan {
    pub in_tag: bool,
    pub in_script: bool,
    pub in_style: bool,
    pub last: char,
}

pub open spec fn html_start() -> HtmlScan {
    HtmlScan { in_tag: false, in_script: false, in_style: false, last: ' ' }
}

/// The (at most six) characters after position `i` begin with `w`.
pub open spec fn preview_starts(s: Seq<char>, i: int, w: Seq<char>) -> bool {
    let end = if s.len() < i + 7 { s.len() as int } else { i + 7 };
    &&& w.len() <= end - (i + 1)
    &&& s.subrange(i + 1, i + 1 + w.len()) == w
}

pub open spec fn word_script() -> Seq<char> {
    seq!['s', 'c', 'r', 'i', 'p', 't']
}

pub open spec fn word_style() -> Seq<char> {
    seq!['s', 't', 'y', 'l', 'e']
}

pub open spec fn word_end_script() -> Seq<char> {
    seq!['/', 's', 'c', 'r', 'i', 'p', 't']
}

pub open spec fn word_end_style() -> Seq<char> {
    seq!['/', 's', 't', 'y', 'l', 'e']
}

/// The state after an opening `<` at position `i`.
pub open spec fn html_open(s: Seq<char>, i: int, st: HtmlScan) -> HtmlScan {
    let t = HtmlScan { in_tag: true, ..st };
    if preview_starts(s, i, word_script()) {
        HtmlScan { in_script: true, ..t }
    } else if preview_starts(s, i, word_style()) {
        HtmlScan { in_style: true, ..t }
    } else if preview_starts(s, i, word_end_script()) {
        HtmlScan { in_script: false, ..t }
    } else if preview_starts(s, i, word_end_style()) {
        HtmlScan { in_style: false, ..t }
    } else {
        t
    }
}

/// What the HTML pass emits for the character at position `i`.
pub open spec fn html_emit(s: Seq<char>, i: int, st: HtmlScan) -> Seq<char> {
    let ch = s[i];
    if is_blank(ch) {
        if st.in_tag || st.in_script || st.in_style {
            seq![ch]
        } else if !is_space(st.last) {
            seq![' ']
        } else {
            Seq::empty()
        }
    } else {
        seq![ch]
    }
}

/// The state after the character at position `i`.
pub open spec fn html_next(s: Seq<char>, i: int, st: HtmlScan) -> HtmlScan {
    let ch = s[i];
    let t = if ch == '<' {
        html_open(s, i, st)
    } else if ch == '>' {
        HtmlScan { in_tag: false, ..st }
    } else {
        st
    };
    HtmlScan { last: ch, ..t }
}

/// What the HTML pass emits from position `i` on: whitespace outside tags,
/// scripts and styles collapses to one space.
pub open spec fn html_from(s: Seq<char>, i: int, st: HtmlScan) -> Seq<char>
    decreases s.len() - i,
{
    if i < 0 || i >= s.len() {
        Seq::empty()
    } else {
        html_emit(s, i, st) + html_from(s, i + 1, html_next(s, i, st))
    }
}

/// The HTML whitespace pass over a whole text.
pub open spec fn html_collapsed(s: Seq<char>) -> Seq<char> {
    html_from(s, 0, html_start())
}

fn preview_starts_exec(cs: &Vec<char>, i: usize, w: &Vec<char>) -> (r: bool)
    requires
        i < cs@.len(),
    ensures
        r == preview_starts(cs@, i as int, w@),
{
    let end: usize = if cs.len() - i < 7 { cs.len() } else { i + 7 };
    if w.len() > end - (i + 1) {
        return false;
    }
    let mut k: usize = 0;
    while k < w.len()
        invariant
            k <= w.len(),
            i + 1 + w.len() <= cs.len(),
            forall|m: int| 0 <= m < k ==> cs@[i + 1 + m] == w@[m],
        decreases w.len() - k,
    {
        if cs[i + 1 + k] != w[k] {
            assert(cs@.subrange(i + 1, i + 1 + w.len())[k as int] != w@[k as int]);
            return false;
        }
        k += 1;
    }
    assert(cs@.subrange(i + 1, i + 1 + w.len()) =~= w@);
    true
}

/// The whitespace pass of [`minify_html`], without comment removal.
pub fn collapse_html(html: &str) -> (r: String)
    ensures
        r@ == html_collapsed(html@),
{
    let cs = chars_of(html);
    let w_script = vec!['s', 'c', 'r', 'i', 'p', 't'];
    let w_style = vec!['s', 't', 'y', 'l', 'e'];
    let w_end_script = vec!['/', 's', 'c', 'r', 'i', 'p', 't'];
    let w_end_style = vec!['/', 's', 't', 'y', 'l', 'e'];
    assert(w_script@ =~= word_script());
    assert(w_style@ =~= word_style());
    assert(w_end_script@ =~= word_end_script());
    assert(w_end_style@ =~= word_end_style());
    let mut out: Vec<char> = Vec::new();
    let mut in_tag = false;
    let mut in_script = false;
    let mut in_style = false;
    let mut last = ' ';
    let mut i: usize = 0;
    while i < cs.len()
        invariant
            i <= cs.len(),
            cs@ == html@,
            w_script@ == word_script(),
            w_style@ == word_style(),
            w_end_script@ == word_end_script(),
            w_end_style@ == word_end_style(),
            out@ + html_from(cs@, i as int, HtmlScan { in_tag, in_script, in_style, last })
                == html_collapsed(html@),
        decreases cs.len() - i,
    {
        let ch = cs[i];
        let ghost before = out@;
        let ghost st = HtmlScan { in_tag, in_script, in_style, last };
        if ch == '<' {
            in_tag = true;
            out.push(ch);
            if preview_starts_exec(&cs, i, &w_script) {
                in_script = true;
            } else if preview_starts_exec(&cs, i, &w_style) {
                in_style = true;
            } else if preview_starts_exec(&cs, i, &w_end_script) {
                in_script = false;
            } else if preview_starts_exec(&cs, i, &w_end_style) {
                in_style = false;
            }
            assert(HtmlScan { in_tag, in_script, in_style, last } == html_open(cs@, i as int, st));
        } else if ch == '>' {
            in_tag = false;
            out.push(ch);
        } else if ch == ' ' || ch == '\n' || ch == '\r' || ch == '\t' {
            if in_tag || in_script || in_style {
                out.push(ch);
            } else if !char_is_space(last) {
                out.push(' ');
            }
        } else {
            out.push(ch);
        }
        last = ch;
        i += 1;
        assert(out@ =~= before + html_emit(cs@, i - 1, st));
        assert(HtmlScan { in_tag, in_script, in_style, last } == html_next(cs@, i - 1, st));
    }
    string_of(&out)
}

/// Minified HTML: whitespace collapsed, then comments removed unless kept.
pub fn minify_html(html: &str, config: &MinifyConfig) -> (r: Result<String, MinifyError>)
    ensures
        config.preserve_comments ==> (r matches Ok(s) && s@ == html_collapsed(html@)),
        !config.preserve_comments ==> match r {
            Ok(s) => s@ == regex_erased("<!--.*?-->"@, html_collapsed(html@)),
            Err(e) => e == MinifyError::CommentPattern,
        },
{
    let collapsed = collapse_html(html);
    if config.preserve_comments {
        Ok(collapsed)
    } else {
        match erase_matches("<!--.*?-->", collapsed.as_str()) {
            Some(s) => Ok(s),
            None => Err(MinifyError::CommentPattern),
        }
    }
}

// ---------------------------------------------------------------- CSS

pub struct CssScan {
    pub in_string: bool,
    pub quote: char,
    pub last: char,
}

pub open spec fn css_start() -> CssScan {
    CssScan { in_string: false, quote: '"', last: ' ' }
}

/// Punctuation around which CSS needs no space.
pub open spec fn is_css_punct(c: char) -> bool {
    c == '{' || c == '}' || c == ';' || c == ':' || c == ','
}

pub open spec fn css_emit(s: Seq<char>, i: int, st: CssScan) -> Seq<char> {
    let ch = s[i];
    if is_blank(ch) {
        if st.in_string {
            seq![ch]
        } else if !is_space(st.last) && !is_css_punct(st.last) && !(i + 1 < s.len()
            && is_css_punct(s[i + 1])) {
            seq![' ']
        } else {
            Seq::empty()
        }
    } else {
        seq![ch]
    }
}

pub open spec fn css_next(s: Seq<char>, i: int, st: CssScan) -> CssScan {
    let ch = s[i];
    let t = if ch == '"' || ch == '\'' {
        if !st.in_string {
            CssScan { in_string: true, quote: ch, ..st }
        } else if ch == st.quote && st.last != '\\' {
            CssScan { in_string: false, ..st }
        } else {
            st
        }
    } else {
        st
    };
    CssScan { last: ch, ..t }
}

/// What the CSS pass emits from position `i` on: whitespace outside strings
/// collapses to one space, and disappears next to punctuation.
pub open spec fn css_from(s: Seq<char>, i: int, st: CssScan) -> Seq<char>
    decreases s.len() - i,
{
    if i < 0 || i >= s.len() {
        Seq::empty()
    } else {
        css_emit(s, i, st) + css_from(s, i + 1, css_next(s, i, st))
    }
}

pub open spec fn css_collapsed(s: Seq<char>) -> Seq<char> {
    css_from(s, 0, css_start())
}

fn is_css_punct_exec(c: char) -> (r: bool)
    ensures
        r == is_css_punct(c),
{
    c == '{' || c == '}' || c == ';' || c == ':' || c == ','
}

/// The whitespace pass of [`minify_css`], without comment removal.
pub fn collapse_css(css: &str) -> (r: String)
    ensures
        r@ == css_collapsed(css@),
{
    let cs = chars_of(css);
    let mut out: Vec<char> = Vec::new();
    let mut in_string = false;
    let mut quote = '"';
    let mut last = ' ';
    let mut i: usize = 0;
    while i < cs.len()
        invariant
            i <= cs.len(),
            cs@ == css@,
            out@ + css_from(cs@, i as int, CssScan { in_string, quote, last }) == css_collapsed(css@),
        decreases cs.len() - i,
    {
        let ch = cs[i];
        let ghost before = out@;
        let ghost st = CssScan { in_string, quote, last };
        if ch == '"' || ch == '\'' {
            if !in_string {
                in_string = true;
                quote = ch;
            } else if ch == quote && last != '\\' {
                in_string = false;
            }
            out.push(ch);
        } else if ch == ' ' || ch == '\n' || ch == '\r' || ch == '\t' {
            if in_string {
                out.push(ch);
            } else if !char_is_space(last) && !is_css_punct_exec(last) && !(i + 1 < cs.len()
                && is_css_punct_exec(cs[i + 1])) {
                out.push(' ');
            }
        } else {
            out.push(ch);
        }
        last = ch;
        i += 1;
        assert(out@ =~= before + css_emit(cs@, i - 1, st));
        assert(CssScan { in_string, quote, last } == css_next(cs@, i - 1, st));
    }
    string_of(&out)
}

/// Minified CSS: whitespace collapsed, then comments removed unless kept.
pub fn minify_css(css: &str, config: &MinifyConfig) -> (r: Result<String, MinifyError>)
    ensures
        config.preserve_comments ==> (r matches Ok(s) && s@ == css_collapsed(css@)),
        !config.preserve_comments ==> match r {
            Ok(s) => s@ == regex_erased("/\\*.*?\\*/"@, css_collapsed(css@)),
            Err(e) => e == MinifyError::CommentPattern,
        },
{
    let collapsed = collapse_css(css);
    if config.preserve_comments {
        Ok(collapsed)
    } else {
        match erase_matches("/\\*.*?\\*/", collapsed.as_str()) {
            Some(s) => Ok(s),
            None => Err(MinifyError::CommentPattern),
        }
    }
}

// ---------------------------------------------------------------- JavaScript

pub struct JsScan {
    pub in_string: bool,
    pub in_regex: bool,
    pub quote: char,
    pub last: char,
}

pub open spec fn js_start() -> JsScan {
    JsScan { in_string: false, in_regex: false, quote: '"', last: ' ' }
}

/// JavaScript operators and punctuation.
pub open spec fn is_js_op(c: char) -> bool {
    ||| c == '{' || c == '}' || c == '(' || c == ')' || c == '[' || c == ']'
    ||| c == ';' || c == ',' || c == '.' || c == ':' || c == '=' || c == '+'
    ||| c == '-' || c == '*' || c == '/' || c == '%' || c == '!' || c == '?'
    ||| c == '<' || c == '>' || c == '&' || c == '|' || c == '^' || c == '~'
}

/// Characters after which a `/` starts a regular-expression literal.
pub open spec fn leads_regex(c: char) -> bool {
    ||| c == '=' || c == '(' || c == '[' || c == ',' || c == ':' || c == ';'
    ||| c == '!' || c == '&' || c == '|' || c == '?' || c == '+' || c == '-'
    ||| c == '*' || c == '/' || c == '%' || c == '^' || c == '~'
}

/// How many characters from `j` on come before the next newline (or the end).
pub open spec fn line_len(s: Seq<char>, j: int) -> nat
    decreases s.len() - j,
{
    if j < 0 || j >= s.len() || s[j] == '\n' {
        0
    } else {
        1 + line_len(s, j + 1)
    }
}

/// How many characters from `j` on come before the `/` that closes a block
/// comment, `prev` being the character before `j`.
pub open spec fn block_len(s: Seq<char>, j: int, prev: char) -> nat
    decreases s.len() - j,
{
    if j < 0 || j >= s.len() || (prev == '*' && s[j] == '/') {
        0
    } else {
        1 + block_len(s, j + 1, s[j])
    }
}

pub open spec fn opens_comment(s: Seq<char>, i: int, st: JsScan, second: char) -> bool {
    s[i] == '/' && !st.in_string && i + 1 < s.len() && s[i + 1] == second
}

pub open spec fn clip(n: int, len: int) -> int {
    if n < len { n } else { len }
}

pub open spec fn js_emit(s: Seq<char>, i: int, st: JsScan) -> Seq<char> {
    let ch = s[i];
    if is_blank(ch) {
        if st.in_string || st.in_regex {
            seq![ch]
        } else if !is_space(st.last) && !is_js_op(st.last) && (i + 1 < s.len() && !is_js_op(
            s[i + 1],
        )) {
            seq![' ']
        } else {
            Seq::empty()
        }
    } else {
        seq![ch]
    }
}

pub open spec fn js_next(s: Seq<char>, i: int, st: JsScan) -> JsScan {
    let ch = s[i];
    let t = if ch == '"' || ch == '\'' || ch == '`' {
        if !st.in_string && !st.in_regex {
            JsScan { in_string: true, quote: ch, ..st }
        } else if ch == st.quote && st.last != '\\' {
            JsScan { in_string: false, ..st }
        } else {
            st
        }
    } else if ch == '/' && !st.in_string && leads_regex(st.last) {
        JsScan { in_regex: true, ..st }
    } else {
        st
    };
    JsScan { last: ch, ..t }
}

/// What the JavaScript pass emits from position `i` on. A line comment runs
/// to its newline, which stays; a block comment runs to its `*/`. Comments
/// are copied when `keep`, dropped otherwise, and leave the state as it was.
/// Whitespace outside strings and regular expressions collapses, and goes
/// entirely next to operators.
pub open spec fn js_from(s: Seq<char>, i: int, st: JsScan, keep: bool) -> Seq<char>
    decreases s.len() - i,
{
    if i < 0 || i >= s.len() {
        Seq::empty()
    } else if opens_comment(s, i, st, '/') {
        let e = i + 1 + line_len(s, i + 1);
        let next = clip(e + 1, s.len() as int);
        let emit = if keep {
            s.subrange(i, next)
        } else if e < s.len() {
            seq!['\n']
        } else {
            Seq::empty()
        };
        emit + js_from(s, next, st, keep)
    } else if opens_comment(s, i, st, '*') {
        let e = i + 2 + block_len(s, i + 2, ' ');
        let next = clip(e + 1, s.len() as int);
        let emit = if keep { s.subrange(i, next) } else { Seq::empty() };
        emit + js_from(s, next, st, keep)
    } else {
        js_emit(s, i, st) + js_from(s, i + 1, js_next(s, i, st), keep)
    }
}

pub open spec fn js_minified(s: Seq<char>, keep: bool) -> Seq<char> {
    js_from(s, 0, js_start(), keep)
}

/// Whether a character is a JavaScript operator or punctuation.
pub fn is_js_operator(c: char) -> (r: bool)
    ensures
        r == is_js_op(c),
{
    c == '{' || c == '}' || c == '(' || c == ')' || c == '[' || c == ']' || c == ';' || c == ','
        || c == '.' || c == ':' || c == '=' || c == '+' || c == '-' || c == '*' || c == '/' || c
        == '%' || c == '!' || c == '?' || c == '<' || c == '>' || c == '&' || c == '|' || c == '^'
        || c == '~'
}

fn leads_regex_exec(c: char) -> (r: bool)
    ensures
        r == leads_regex(c),
{
    c == '=' || c == '(' || c == '[' || c == ',' || c == ':' || c == ';' || c == '!' || c == '&'
        || c == '|' || c == '?' || c == '+' || c == '-' || c == '*' || c == '/' || c == '%' || c
        == '^' || c == '~'
}

fn push_range(out: &mut Vec<char>, cs: &Vec<char>, from: usize, to: usize)
    requires
        from <= to <= cs@.len(),
    ensures
        final(out)@ == old(out)@ + cs@.subrange(from as int, to as int),
{
    let mut k = from;
    while k < to
        invariant
            from <= k <= to,
            to <= cs@.len(),
            out@ == old(out)@ + cs@.subrange(from as int, k as int),
        decreases to - k,
    {
        out.push(cs[k]);
        k += 1;
        assert(out@ =~= old(out)@ + cs@.subrange(from as int, k as int));
    }
}

/// Minified JavaScript: comments dropped unless kept, whitespace collapsed.
pub fn minify_js(js: &str, config: &MinifyConfig) -> (r: Result<String, MinifyError>)
    ensures
        r matches Ok(s) && s@ == js_minified(js@, config.preserve_comments),
{
    let keep = config.preserve_comments;
    let cs = chars_of(js);
    let n = cs.len();
    let mut out: Vec<char> = Vec::new();
    let mut in_string = false;
    let mut in_regex = false;
    let mut quote = '"';
    let mut last = ' ';
    let mut i: usize = 0;
    while i < n
        invariant
            i <= n,
            n == cs@.len(),
            cs@ == js@,
            out@ + js_from(cs@, i as int, JsScan { in_string, in_regex, quote, last }, keep)
                == js_minified(js@, keep),
        decreases n - i,
    {
        let ch = cs[i];
        let ghost before = out@;
        let ghost st = JsScan { in_string, in_regex, quote, last };
        let ghost at = i as int;
        if ch == '/' && !in_string && i + 1 < n && cs[i + 1] == '/' {
            let mut j = i + 1;
            while j < n && cs[j] != '\n'
                invariant
                    i + 1 <= j <= n,
                    n == cs@.len(),
                    line_len(cs@, i + 1) == (j - (i + 1)) + line_len(cs@, j as int),
                decreases n - j,
            {
                j += 1;
            }
            let next = if j < n { j + 1 } else { n };
            if keep {
                push_range(&mut out, &cs, i, next);
            } else if j < n {
                out.push('\n');
            }
            i = next;
            assert(out@ + js_from(cs@, i as int, st, keep) =~= before + js_from(cs@, at, st, keep));
        } else if ch == '/' && !in_string && i + 1 < n && cs[i + 1] == '*' {
            let mut j = i + 2;
            let mut prev = ' ';
            while j < n && !(prev == '*' && cs[j] == '/')
                invariant
                    i + 2 <= j <= n,
                    n == cs@.len(),
                    block_len(cs@, i + 2, ' ') == (j - (i + 2)) + block_len(cs@, j as int, prev),
                decreases n - j,
            {
                prev = cs[j];
                j += 1;
            }
            let next = if j < n { j + 1 } else { n };
            if keep {
                push_range(&mut out, &cs, i, next);
            }
            i = next;
            assert(out@ + js_from(cs@, i as int, st, keep) =~= before + js_from(cs@, at, st, keep));
        } else {
            if ch == '"' || ch == '\'' || ch == '`' {
                if !in_string && !in_regex {
                    in_string = true;
                    quote = ch;
                } else if ch == quote && last != '\\' {
                    in_string = false;
                }
                out.push(ch);
            } else if ch == '/' {
                if !in_string && leads_regex_exec(last) {
                    in_regex = true;
                }
                out.push(ch);
            } else if ch == ' ' || ch == '\n' || ch == '\r' || ch == '\t' {
                if in_string || in_regex {
                    out.push(ch);
                } else if !char_is_space(last) && !is_js_operator(last) && (i + 1 < n
                    && !is_js_operator(cs[i + 1])) {
                    out.push(' ');
                }
            } else {
                out.push(ch);
            }
            last = ch;
            i += 1;
            assert(out@ =~= before + js_emit(cs@, at, st));
            assert(JsScan { in_string, in_regex, quote, last } == js_next(cs@, at, st));
        }
    }
    Ok(string_of(&out))
}

// ---------------------------------------------------------------- Files

/// Which minifier a file extension selects, if the configuration enables it.
pub enum MinifyKind {
    Html,
    Css,
    Js,
}

pub open spec fn kind_for(ext: Seq<char>, config: MinifyConfig) -> Option<MinifyKind> {
    if ext == "html"@ && config.minify_html {
        Some(MinifyKind::Html)
    } else if ext == "css"@ && config.minify_css {
        Some(MinifyKind::Css)
    } else if ext == "js"@ && config.minify_js {
        Some(MinifyKind::Js)
    } else {
        None
    }
}

/// The minifier for a file extension (`html`, `css` or `js`), when enabled.
pub fn minify_kind(ext: &str, config: &MinifyConfig) -> (r: Option<MinifyKind>)
    ensures
        r == kind_for(ext@, *config),
{
    if crate::text::str_eq(ext, "html") && config.minify_html {
        Some(MinifyKind::Html)
    } else if crate::text::str_eq(ext, "css") && config.minify_css {
        Some(MinifyKind::Css)
    } else if crate::text::str_eq(ext, "js") && config.minify_js {
        Some(MinifyKind::Js)
    } else {
        None
    }
}

/// Minifies file content of the given kind.
pub fn minify_content(kind: &MinifyKind, content: &str, config: &MinifyConfig) -> (r: Result<String, MinifyError>)
    ensures
        *kind is Js ==> (r matches Ok(s) && s@ == js_minified(content@, config.preserve_comments)),
        *kind is Html && config.preserve_comments ==> (r matches Ok(s) && s@ == html_collapsed(content@)),
        *kind is Css && config.preserve_comments ==> (r matches Ok(s) && s@ == css_collapsed(content@)),
        *kind is Html && !config.preserve_comments ==> match r {
            Ok(s) => s@ == regex_erased("<!--.*?-->"@, html_collapsed(content@)),
            Err(e) => e == MinifyError::CommentPattern,
        },
        *kind is Css && !config.preserve_comments ==> match r {
            Ok(s) => s@ == regex_erased("/\\*.*?\\*/"@, css_collapsed(content@)),
            Err(e) => e == MinifyError::CommentPattern,
        },
{
    match kind {
        MinifyKind::Html => minify_html(content, config),
        MinifyKind::Css => minify_css(content, config),
        MinifyKind::Js => minify_js(content, config),
    }
}

impl MinifyStats {
    /// Counts one file: a success with the bytes it saved (possibly negative),
    /// or a failure.
    pub fn record(&mut self, saved: Option<i64>)
        requires
            old(self).files_processed < usize::MAX,
            old(self).errors < usize::MAX,
            saved matches Some(n) ==> i64::MIN <= old(self).bytes_saved + n <= i64::MAX,
        ensures
            match saved {
                Some(n) => final(self).files_processed == old(self).files_processed + 1
                    && final(self).bytes_saved == old(self).bytes_saved + n
                    && final(self).errors == old(self).errors,
                None => final(self).files_processed == old(self).files_processed
                    && final(self).bytes_saved == old(self).bytes_saved
                    && final(self).errors == old(self).errors + 1,
            },
    {
        match saved {
            Some(n) => {
                self.files_processed = self.files_processed + 1;
                self.bytes_saved = self.bytes_saved + n;
            },
            None => {
                self.errors = self.errors + 1;
            },
        }
    }
}

} // verus!
