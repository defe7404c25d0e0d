//! Content digests: SHA-256 of the UTF-8 bytes, written as lowercase hex.
use vstd::prelude::*;
use vstd::utf8::encode_utf8;

verus! {

/// What `sha2::Sha256::digest` returns for a byte string.
pub uninterp spec fn sha256_of(data: Seq<u8>) -> Seq<u8>;

/// The lowercase hex digit for a value below 16.
pub open spec fn hex_digit(n: u8) -> char {
    if n < 10 {
        ((n + 48) as u8) as char
    } else {
        ((n + 87) as u8) as char
    }
}

/// Two lowercase hex digits per byte, high nibble first.
pub open spec fn hex_of(b: Seq<u8>) -> Seq<char>
    decreases b.len(),
{
    if b.len() == 0 {
        Seq::empty()
    } else {
        hex_of(b.drop_last()).push(hex_digit(b.last() / 16)).push(hex_digit(b.last() % 16))
    }
}

/// The content hash of a text: hex of the SHA-256 of its UTF-8 encoding.
pub open spec fn content_hash_of(content: Seq<char>) -> Seq<char> {
    hex_of(sha256_of(encode_utf8(content)))
}

/// Relies on `sha2::Sha256::digest`: a 32-byte digest that depends on the input alone.
#[verifier::external_body]
fn sha256(data: &[u8]) -> (r: Vec<u8>)
    ensures
        r@ == sha256_of(data@),
        r@.len() == 32,
{
    <sha2::Sha256 as sha2::Digest>::digest(data).to_vec()
}

/// Relies on `hex::encode`: two lowercase digits per byte, in order.
#[verifier::external_body]
fn hex_encode(data: &Vec<u8>) -> (r: String)
    ensures
        r@ == hex_of(data@),
{
    hex::encode(data)
}

/// The content hash of `content`.
pub fn content_hash(content: &str) -> (r: String)
    ensures
        r@ == content_hash_of(content@),
        r@.len() == 64,
{
    let d = sha256(content.as_bytes());
    proof {
        lemma_hex_len(d@);
    }
    hex_encode(&d)
}

pub proof fn lemma_hex_len(b: Seq<u8>)
    ensures
        hex_of(b).len() == 2 * b.len(),
    decreases b.len(),
{
    if b.len() > 0 {
        lemma_hex_len(b.drop_last());
    }
}

proof fn lemma_hex_digit_injective(x: u8, y: u8)
    requires
        x < 16,
        y < 16,
        hex_digit(x) == hex_digit(y),
    ensures
        x == y,
{
}

/// Hex encoding loses nothing: equal hex strings come from equal byte strings.
pub proof fn lemma_hex_injective(a: Seq<u8>, b: Seq<u8>)
    requires
        hex_of(a) == hex_of(b),
    ensures
        a == b,
    decreases a.len(),
{
    lemma_hex_len(a);
    lemma_hex_len(b);
    if a.len() > 0 {
        let ha = hex_of(a.drop_last());
        let hb = hex_of(b.drop_last());
        lemma_hex_len(a.drop_last());
        lemma_hex_len(b.drop_last());
        let n = hex_of(a).len();
        assert(hex_of(a)[n - 2] == hex_digit(a.last() / 16));
        assert(hex_of(b)[n - 2] == hex_digit(b.last() / 16));
        assert(hex_of(a)[n - 1] == hex_digit(a.last() % 16));
        assert(hex_of(b)[n - 1] == hex_digit(b.last() % 16));
        lemma_hex_digit_injective(a.last() / 16, b.last() / 16);
        lemma_hex_digit_injective(a.last() % 16, b.last() % 16);
        assert(ha =~= hex_of(a).take(n - 2));
        assert(hb =~= hex_of(b).take(n - 2));
        lemma_hex_injective(a.drop_last(), b.drop_last());
        assert(a =~= a.drop_last().push(a.last()));
        assert(b =~= b.drop_last().push(b.last()));
    }
}

/// The content hash is a function of the content: equal texts hash equally.
pub proof fn content_hash_deterministic(c1: Seq<char>, c2: Seq<char>)
    requires
        c1 == c2,
    ensures
        content_hash_of(c1) == content_hash_of(c2),
{
}

/// Two texts whose SHA-256 digests differ get different content hashes: the
/// hex layer adds no collisions of its own.
pub proof fn content_hash_separates_digests(c1: Seq<char>, c2: Seq<char>)
    requires
        sha256_of(encode_utf8(c1)) != sha256_of(encode_utf8(c2)),
    ensures
        content_hash_of(c1) != content_hash_of(c2),
{
    if content_hash_of(c1) == content_hash_of(c2) {
        lemma_hex_injective(sha256_of(encode_utf8(c1)), sha256_of(encode_utf8(c2)));
    }
}

} // verus!
