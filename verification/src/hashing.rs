//! Content hashes: SHA-256 digests and their hexadecimal text.
use crate::text::text_between;
use sha2::{Digest, Sha256};
use vstd::prelude::*;
use vstd::string::*;
use vstd::utf8::encode_utf8;

verus! {

/// The SHA-256 digest of a message.
pub uninterp spec fn sha256_digest(message: Seq<u8>) -> Seq<u8>;

/// `sha2::Sha256::digest`: the digest of `message`, always 32 bytes long.
#[verifier::external_body]
pub(crate) fn sha256(message: &[u8]) -> (r: Vec<u8>)
    ensures
        r@ == sha256_digest(message@),
        r@.len() == 32,
{
    Sha256::digest(message).to_vec()
}

/// The lower-case hexadecimal digit of `d`.
pub open spec fn hex_digit(d: int) -> char {
    if d < 10 {
        ('0' as int + d) as char
    } else {
        ('a' as int + d - 10) as char
    }
}

/// Two lower-case hexadecimal digits for each byte.
pub open spec fn hex_text(bytes: Seq<u8>) -> Seq<char> {
    Seq::new(
        2 * bytes.len(),
        |i: int|
            hex_digit(
                if i % 2 == 0 {
                    bytes[i / 2] as int / 16
                } else {
                    bytes[i / 2] as int % 16
                },
            ),
    )
}

fn hex_char(d: u8) -> (r: char)
    requires
        d < 16,
    ensures
        r == hex_digit(d as int),
{
    if d < 10 {
        (48u8 + d) as char
    } else {
        (87u8 + d) as char
    }
}

/// Writes `bytes` in lower-case hexadecimal.
pub fn hex(bytes: &[u8]) -> (r: String)
    ensures
        r@ == hex_text(bytes@),
{
    let mut out = String::new();
    let mut i: usize = 0;
    while i < bytes.len()
        invariant
            i <= bytes@.len(),
            out@ == hex_text(bytes@.take(i as int)),
        decreases bytes@.len() - i,
    {
        let b = bytes[i];
        out.push(hex_char(b / 16));
        out.push(hex_char(b % 16));
        i += 1;
        assert(out@ =~= hex_text(bytes@.take(i as int)));
    }
    assert(bytes@.take(i as int) =~= bytes@);
    out
}

/// The hexadecimal SHA-256 of a text's UTF-8 bytes.
pub open spec fn text_hash(text: Seq<char>) -> Seq<char> {
    hex_text(sha256_digest(encode_utf8(text)))
}

/// The hexadecimal SHA-256 of `text`.
pub fn sha256_hex(text: &str) -> (r: String)
    ensures
        r@ == text_hash(text@),
        r@.len() == 64,
{
    hex(&sha256(text.as_bytes()))
}

/// `tag` followed by the first sixteen digits of the hash of `text`.
pub open spec fn short_hash(tag: Seq<char>, text: Seq<char>) -> Seq<char> {
    tag + text_hash(text).take(16)
}

/// Tags the first sixteen digits of the hash of `text`.
pub fn tagged_hash(tag: &str, text: &str) -> (r: String)
    ensures
        r@ == short_hash(tag@, text@),
{
    let digits = sha256_hex(text);
    let mut out = tag.to_owned();
    out.append(text_between(&crate::text::chars_of(digits.as_str()), 0, 16).as_str());
    out
}

/// Bytes are written with two digits each, which tell them apart.
pub proof fn hex_tells_bytes_apart(a: Seq<u8>, b: Seq<u8>)
    ensures
        hex_text(a).len() == 2 * a.len(),
        hex_text(a) == hex_text(b) ==> a == b,
{
    if hex_text(a) == hex_text(b) {
        assert(hex_text(a).len() == 2 * a.len() && hex_text(b).len() == 2 * b.len());
        assert(a.len() == b.len());
        assert forall|i: int| 0 <= i < a.len() implies a[i] == b[i] by {
            let (high_a, high_b) = (a[i] as int / 16, b[i] as int / 16);
            let (low_a, low_b) = (a[i] as int % 16, b[i] as int % 16);
            assert(hex_text(a)[2 * i] == hex_digit(high_a));
            assert(hex_text(b)[2 * i] == hex_digit(high_b));
            assert(hex_text(a)[2 * i + 1] == hex_digit(low_a));
            assert(hex_text(b)[2 * i + 1] == hex_digit(low_b));
            assert(high_a == high_b && low_a == low_b);
        }
        assert(a =~= b);
    }
}

/// A short hash begins with its tag.
pub proof fn a_short_hash_begins_with_its_tag(tag: Seq<char>, text: Seq<char>)
    ensures
        tag.is_prefix_of(short_hash(tag, text)),
        short_hash(tag, text).skip(tag.len() as int) == text_hash(text).take(16),
{
    assert(short_hash(tag, text).subrange(0, tag.len() as int) =~= tag);
    assert(short_hash(tag, text).skip(tag.len() as int) =~= text_hash(text).take(16));
}

/// The digits of a hash are small: `0` to `9`, then `a` to `f`, in the order of their values.
pub proof fn hex_digits_stand_in_their_order(a: int, b: int)
    requires
        0 <= a < b < 16,
    ensures
        hex_digit(a) as int <= hex_digit(b) as int - 1,
        '0' <= hex_digit(a) <= '9' || 'a' <= hex_digit(a) <= 'f',
        '0' <= hex_digit(b) <= '9' || 'a' <= hex_digit(b) <= 'f',
{
}

/// A byte is written with its upper half first.
pub proof fn the_upper_half_is_written_first(bytes: Seq<u8>, i: int)
    requires
        0 <= i < bytes.len(),
    ensures
        hex_text(bytes)[2 * i] == hex_digit(bytes[i] as int / 16),
        hex_text(bytes)[2 * i + 1] == hex_digit(bytes[i] as int % 16),
        bytes[i] == 16 * (bytes[i] as int / 16) + bytes[i] as int % 16,
{
}

} // verus!
