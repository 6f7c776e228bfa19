//! Byte offsets into text.
use crate::text::text_between;
use vstd::prelude::*;
use vstd::string::*;
use vstd::utf8::*;

verus! {

/// What is said of bytes that are not UTF-8.
pub uninterp spec fn utf8_error_text(bytes: Seq<u8>) -> Seq<char>;

/// `std::str::from_utf8`: the text that the bytes encode where they are valid
/// UTF-8, else the error's text.
#[verifier::external_body]
pub(crate) fn read_utf8(bytes: &[u8]) -> (r: Result<String, String>)
    ensures
        match r {
            Ok(text) => valid_utf8(bytes@) && text@ == decode_utf8(bytes@),
            Err(message) => !valid_utf8(bytes@) && message@ == utf8_error_text(bytes@),
        },
{
    match std::str::from_utf8(bytes) {
        Ok(text) => Ok(text.to_owned()),
        Err(error) => Err(error.to_string()),
    }
}

/// The byte offset of character `i`.
pub open spec fn byte_at(s: Seq<char>, i: int) -> int {
    encode_utf8(s.take(i)).len() as int
}

/// The text of the bytes `from..to`.
pub open spec fn byte_slice(s: Seq<char>, from: int, to: int) -> Seq<char> {
    decode_utf8(encode_utf8(s).subrange(from, to))
}

/// The bytes `from..to` are whole characters.
pub open spec fn sliceable(s: Seq<char>, from: int, to: int) -> bool {
    from <= to && is_char_boundary(encode_utf8(s), from) && is_char_boundary(encode_utf8(s), to)
}

/// The bytes of two texts in a row are the bytes of the one, then the other.
pub proof fn encode_concat(a: Seq<char>, b: Seq<char>)
    ensures
        encode_utf8(a + b) == encode_utf8(a) + encode_utf8(b),
    decreases a.len(),
{
    if a.len() == 0 {
        assert(a + b =~= b);
        assert(encode_utf8(a) + encode_utf8(b) =~= encode_utf8(b));
    } else {
        assert((a + b).drop_first() =~= a.drop_first() + b);
        encode_concat(a.drop_first(), b);
        assert(encode_utf8(a + b) =~= encode_utf8(a) + encode_utf8(b));
    }
}

/// No boundary lies outside the text.
pub proof fn boundary_in_range(bytes: Seq<u8>, index: int)
    requires
        valid_utf8(bytes),
        is_char_boundary(bytes, index),
    ensures
        0 <= index <= bytes.len(),
{
    reveal_with_fuel(is_char_boundary, 1);
}

/// Cuts `s` at a byte offset that lies between two characters.
pub fn cut_at(s: &str, mid: usize) -> (r: (&str, &str))
    requires
        is_char_boundary(encode_utf8(s@), mid as int),
    ensures
        r.0@ + r.1@ == s@,
        r.0@ == byte_slice(s@, 0, mid as int),
        r.1@ == byte_slice(s@, mid as int, encode_utf8(s@).len() as int),
        encode_utf8(r.0@).len() == mid,
{
    let r = s.split_at(mid);
    proof {
        let bytes = encode_utf8(s@);
        encode_utf8_valid_utf8(s@);
        boundary_in_range(bytes, mid as int);
        decode_utf8_split(bytes, mid as int);
        encode_utf8_decode_utf8(s@);
        encode_utf8_decode_utf8(r.0@);
        encode_utf8_decode_utf8(r.1@);
    }
    r
}

/// A boundary of the front part of a text is a boundary of the text, and the
/// other way round.
proof fn boundary_in_front(bytes: Seq<u8>, mid: int, index: int)
    requires
        valid_utf8(bytes),
        is_char_boundary(bytes, mid),
        is_char_boundary(bytes, index),
        index <= mid,
    ensures
        valid_utf8(bytes.subrange(0, mid)),
        is_char_boundary(bytes.subrange(0, mid), index),
{
    boundary_in_range(bytes, mid);
    boundary_in_range(bytes, index);
    valid_utf8_split(bytes, mid);
    let front = bytes.subrange(0, mid);
    if index == 0 || index == mid {
        is_char_boundary_start_end_of_seq(front);
    } else {
        is_char_boundary_iff_not_is_continuation_byte(bytes, index);
        is_char_boundary_iff_not_is_continuation_byte(front, index);
        assert(front[index] == bytes[index]);
    }
}

/// The text of the bytes `from..to`.
pub fn slice_text(s: &str, from: usize, to: usize) -> (r: String)
    requires
        sliceable(s@, from as int, to as int),
    ensures
        r@ == byte_slice(s@, from as int, to as int),
{
    let (front, _) = cut_at(s, to);
    proof {
        let bytes = encode_utf8(s@);
        encode_utf8_valid_utf8(s@);
        boundary_in_range(bytes, to as int);
        boundary_in_front(bytes, to as int, from as int);
        decode_utf8_encode_utf8(bytes.subrange(0, to as int));
        assert(encode_utf8(front@) == bytes.subrange(0, to as int));
        assert(bytes.subrange(0, to as int).subrange(from as int, to as int) =~= bytes.subrange(
            from as int,
            to as int,
        ));
    }
    let (_, middle) = cut_at(front, from);
    middle.to_owned()
}

/// The byte offset of character `i`.
pub fn byte_offset(chars: &[char], i: usize) -> (r: usize)
    requires
        i <= chars@.len(),
    ensures
        r == byte_at(chars@, i as int),
{
    let front = text_between(chars, 0, i);
    assert(chars@.subrange(0, i as int) =~= chars@.take(i as int));
    front.as_str().as_bytes().len()
}

} // verus!
