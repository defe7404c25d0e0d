//! Character classes, decimal forms, and the string operations of std that
//! the rest of the library is built on.
use vstd::prelude::*;

verus! {

/// Unicode `White_Space`, the set that `char::is_whitespace` tests.
pub open spec fn is_space(c: char) -> bool {
    ||| ('\u{9}' <= c && c <= '\u{d}')
    ||| c == ' '
    ||| c == '\u{85}'
    ||| c == '\u{a0}'
    ||| c == '\u{1680}'
    ||| ('\u{2000}' <= c && c <= '\u{200a}')
    ||| c == '\u{2028}'
    ||| c == '\u{2029}'
    ||| c == '\u{202f}'
    ||| c == '\u{205f}'
    ||| c == '\u{3000}'
}

pub open spec fn is_ascii_alnum(c: char) -> bool {
    ||| ('0' <= c && c <= '9')
    ||| ('a' <= c && c <= 'z')
    ||| ('A' <= c && c <= 'Z')
}

pub open spec fn is_ascii_alpha(c: char) -> bool {
    ||| ('a' <= c && c <= 'z')
    ||| ('A' <= c && c <= 'Z')
}

/// What `str::to_lowercase` returns for a string: it depends on the characters alone.
pub uninterp spec fn lowercase_of(s: Seq<char>) -> Seq<char>;

/// What `char::is_alphanumeric` returns: Unicode `Alphabetic` or `Numeric`.
pub uninterp spec fn unicode_alnum(c: char) -> bool;

/// The decimal form of an integer, with a leading `-` when negative.
pub open spec fn decimal_of(n: int) -> Seq<char> {
    if n < 0 {
        seq!['-'] + digits_of((-n) as nat)
    } else {
        digits_of(n as nat)
    }
}

pub open spec fn digits_of(n: nat) -> Seq<char>
    decreases n,
{
    if n < 10 {
        seq![((n + 48) as u8) as char]
    } else {
        digits_of(n / 10).push((((n % 10) + 48) as u8) as char)
    }
}

/// Relies on `i64`'s `ToString`: its decimal form.
#[verifier::external_body]
pub(crate) fn i64_to_decimal(n: i64) -> (r: String)
    ensures
        r@ == decimal_of(n as int),
{
    n.to_string()
}

/// Relies on `usize`'s `ToString`: its decimal form.
#[verifier::external_body]
pub(crate) fn usize_to_decimal(n: usize) -> (r: String)
    ensures
        r@ == decimal_of(n as int),
{
    n.to_string()
}

/// Relies on `char::is_whitespace`, which tests Unicode `White_Space`.
#[verifier::external_body]
pub(crate) fn char_is_space(c: char) -> (r: bool)
    ensures
        r == is_space(c),
{
    c.is_whitespace()
}

/// Relies on `char::is_alphanumeric`; ASCII letters and digits are among them.
#[verifier::external_body]
pub(crate) fn char_is_alnum(c: char) -> (r: bool)
    ensures
        r == unicode_alnum(c),
        is_ascii_alnum(c) ==> r,
{
    c.is_alphanumeric()
}

pub fn char_is_ascii_alnum(c: char) -> (r: bool)
    ensures
        r == is_ascii_alnum(c),
{
    ('0' <= c && c <= '9') || ('a' <= c && c <= 'z') || ('A' <= c && c <= 'Z')
}

pub fn char_is_ascii_alpha(c: char) -> (r: bool)
    ensures
        r == is_ascii_alpha(c),
{
    ('a' <= c && c <= 'z') || ('A' <= c && c <= 'Z')
}

/// Relies on `str`'s `PartialEq`: equal exactly when the characters are.
#[verifier::external_body]
pub(crate) fn str_eq(a: &str, b: &str) -> (r: bool)
    ensures
        r == (a@ == b@),
{
    a == b
}

/// Relies on `str::to_lowercase`.
#[verifier::external_body]
pub(crate) fn to_lowercase(s: &str) -> (r: String)
    ensures
        r@ == lowercase_of(s@),
        s@.len() == 0 ==> r@.len() == 0,
{
    s.to_lowercase()
}

/// Relies on `str::chars` collected into a `Vec`: the characters in order.
#[verifier::external_body]
pub(crate) fn chars_of(s: &str) -> (r: Vec<char>)
    ensures
        r@ == s@,
{
    s.chars().collect()
}

/// Relies on `String: FromIterator<&char>`: the characters in order.
#[verifier::external_body]
pub(crate) fn string_of(v: &Vec<char>) -> (r: String)
    ensures
        r@ == v@,
{
    v.iter().collect()
}

/// `|b| / 2^20` in hundredths, rounded to nearest with ties to even.
pub open spec fn mib_hundredths(b: int) -> int {
    let m = if b < 0 { -b } else { b };
    let q = (m * 100) / 1048576;
    let r = (m * 100) % 1048576;
    if 2 * r > 1048576 || (2 * r == 1048576 && q % 2 == 1) { q + 1 } else { q }
}

pub open spec fn digit_char(n: int) -> char {
    ((n + 48) as u8) as char
}

/// A byte count in mebibytes with two decimals, such as `1.50` or `-0.00`.
pub open spec fn mib_text(b: int) -> Seq<char> {
    let h = mib_hundredths(b);
    let sign = if b < 0 { seq!['-'] } else { Seq::empty() };
    sign + decimal_of(h / 100) + seq!['.', digit_char((h % 100) / 10), digit_char(h % 10)]
}

/// A byte count in mebibytes with two decimals.
pub fn mib_string(b: i64) -> (r: String)
    ensures
        r@ == mib_text(b as int),
{
    let m: i128 = if b < 0 { -(b as i128) } else { b as i128 };
    let q: i128 = (m * 100) / 1048576;
    let rem: i128 = (m * 100) % 1048576;
    let h: i128 = if 2 * rem > 1048576 || (2 * rem == 1048576 && q % 2 == 1) { q + 1 } else { q };
    assert(h / 100 <= 0x7fff_ffff_ffff_ffff) by (nonlinear_arith)
        requires
            m <= 0x8000_0000_0000_0000,
            q == (m * 100) / 1048576,
            h <= q + 1,
    ;
    let whole = i64_to_decimal((h / 100) as i64);
    let mut out: Vec<char> = Vec::new();
    if b < 0 {
        out.push('-');
    }
    let wc = chars_of(whole.as_str());
    let mut i: usize = 0;
    let ghost head = out@;
    while i < wc.len()
        invariant
            i <= wc@.len(),
            out@ == head + wc@.take(i as int),
        decreases wc.len() - i,
    {
        out.push(wc[i]);
        i += 1;
        assert(out@ =~= head + wc@.take(i as int));
    }
    assert(wc@.take(wc.len() as int) =~= wc@);
    out.push('.');
    out.push((((h % 100) / 10) as u8 + 48) as char);
    out.push(((h % 10) as u8 + 48) as char);
    let ghost sign = if b < 0 { seq!['-'] } else { Seq::<char>::empty() };
    assert(out@ =~= mib_text(b as int));
    string_of(&out)
}

} // verus!
