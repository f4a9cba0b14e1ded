//! Byte-level views of strings and slicing at character boundaries.

use vstd::prelude::*;
use vstd::utf8::*;

verus! {

/// The UTF-8 bytes of a string, given by its characters.
pub open spec fn bytes_of(s: Seq<char>) -> Seq<u8> {
    encode_utf8(s)
}

/// The characters that the bytes `from..to` of a text encode.
pub open spec fn text_between(text: Seq<char>, from: int, to: int) -> Seq<char> {
    decode_utf8(bytes_of(text).subrange(from, to))
}

/// Whether `from..to` is a range of `bytes` that a string slice may take:
/// in bounds, in order, and with both ends between characters.
pub open spec fn sliceable(bytes: Seq<u8>, from: int, to: int) -> bool {
    &&& 0 <= from <= to <= bytes.len()
    &&& is_char_boundary(bytes, from)
    &&& is_char_boundary(bytes, to)
}

/// A boundary of a valid byte string that lies at or before another boundary
/// is also a boundary of the prefix that ends at the latter.
pub proof fn lemma_boundary_in_prefix(bytes: Seq<u8>, from: int, to: int)
    requires
        valid_utf8(bytes),
        sliceable(bytes, from, to),
    ensures
        valid_utf8(bytes.subrange(0, to)),
        is_char_boundary(bytes.subrange(0, to), from),
{
    let head = bytes.subrange(0, to);
    valid_utf8_split(bytes, to);
    if from == to {
        is_char_boundary_start_end_of_seq(head);
    } else {
        is_char_boundary_iff_not_is_continuation_byte(bytes, from);
        is_char_boundary_iff_not_is_continuation_byte(head, from);
    }
}

/// The bytes of two texts put together are the bytes of the first, then those
/// of the second.
pub proof fn lemma_bytes_of_concat(a: Seq<char>, b: Seq<char>)
    ensures
        bytes_of(a + b) == bytes_of(a) + bytes_of(b),
    decreases a.len(),
{
    if a.len() == 0 {
        assert(a + b =~= b);
        assert(bytes_of(a) + bytes_of(b) =~= bytes_of(b));
    } else {
        lemma_bytes_of_concat(a.drop_first(), b);
        assert((a + b).drop_first() =~= a.drop_first() + b);
        assert(bytes_of(a + b) =~= bytes_of(a) + bytes_of(b));
    }
}

/// The characters between two boundaries have the bytes between them.
pub proof fn lemma_bytes_of_text_between(text: Seq<char>, from: int, to: int)
    requires
        sliceable(bytes_of(text), from, to),
    ensures
        bytes_of(text_between(text, from, to)) == bytes_of(text).subrange(from, to),
{
    let bytes = bytes_of(text);
    let head = bytes.subrange(0, to);
    encode_utf8_valid_utf8(text);
    lemma_boundary_in_prefix(bytes, from, to);
    valid_utf8_split(head, from);
    assert(head.subrange(from, head.len() as int) =~= bytes.subrange(from, to));
    decode_utf8_encode_utf8(bytes.subrange(from, to));
}

/// Two texts with the same bytes are the same text.
pub proof fn lemma_bytes_of_injective(a: Seq<char>, b: Seq<char>)
    requires
        bytes_of(a) == bytes_of(b),
    ensures
        a == b,
{
    encode_utf8_decode_utf8(a);
    encode_utf8_decode_utf8(b);
}

/// Tests at run time whether `from..to` can be sliced out of `text`.
pub fn can_slice(text: &str, from: usize, to: usize) -> (ok: bool)
    ensures
        ok == sliceable(bytes_of(text@), from as int, to as int),
{
    let len: usize = text.as_bytes().len();
    from <= to && to <= len && text.is_char_boundary(from) && text.is_char_boundary(to)
}

/// The part of `text` between the byte offsets `from` and `to`.
pub fn slice<'a>(text: &'a str, from: usize, to: usize) -> (part: &'a str)
    requires
        sliceable(bytes_of(text@), from as int, to as int),
    ensures
        bytes_of(part@) == bytes_of(text@).subrange(from as int, to as int),
        part@ == text_between(text@, from as int, to as int),
{
    proof {
        encode_utf8_valid_utf8(text@);
        lemma_boundary_in_prefix(bytes_of(text@), from as int, to as int);
    }
    let (head, _) = text.split_at(to);
    let (_, part) = head.split_at(from);
    proof {
        assert(bytes_of(part@) =~= bytes_of(text@).subrange(from as int, to as int));
        encode_utf8_decode_utf8(part@);
    }
    part
}

} // verus!
