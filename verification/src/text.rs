use vstd::prelude::*;
use vstd::utf8::*;
use vstd::string::StringSliceAdditionalSpecFns;

verus! {

broadcast use vstd::utf8::group_utf8_lib;

/// The UTF-8 encoding of a character sequence; byte offsets into a `str`
/// refer to this sequence.
pub open spec fn utf8_bytes(text: Seq<char>) -> Seq<u8> {
    encode_utf8(text)
}

/// `start..end` is a range of byte offsets of `text` that begins and ends
/// on character boundaries, so that `&text[start..end]` does not panic.
pub open spec fn valid_byte_range(text: Seq<char>, start: int, end: int) -> bool {
    &&& 0 <= start <= end <= utf8_bytes(text).len()
    &&& is_char_boundary(utf8_bytes(text), start)
    &&& is_char_boundary(utf8_bytes(text), end)
}

/// The characters of `text` between the byte offsets `start` and `end`.
pub open spec fn byte_slice(text: Seq<char>, start: int, end: int) -> Seq<char> {
    decode_utf8(utf8_bytes(text).subrange(start, end))
}

/// A character boundary of a valid UTF-8 sequence at or after `start` is a
/// character boundary of the suffix that begins at `start`.
proof fn lemma_boundary_in_suffix(bytes: Seq<u8>, start: int, index: int)
    requires
        valid_utf8(bytes),
        0 <= start <= index <= bytes.len(),
        is_char_boundary(bytes, start),
        is_char_boundary(bytes, index),
    ensures
        is_char_boundary(bytes.subrange(start, bytes.len() as int), index - start),
{
    let suffix = bytes.subrange(start, bytes.len() as int);
    assert(valid_utf8(suffix));
    if index < bytes.len() {
        assert(suffix[index - start] == bytes[index]);
        is_char_boundary_iff_not_is_continuation_byte(bytes, index);
        is_char_boundary_iff_not_is_continuation_byte(suffix, index - start);
    } else {
        is_char_boundary_start_end_of_seq(suffix);
    }
}

/// Tests whether `&text[start..end]` would succeed: the range lies within the
/// text and on character boundaries.
pub fn is_byte_range(text: &str, start: usize, end: usize) -> (r: bool)
    ensures
        r == valid_byte_range(text@, start as int, end as int),
{
    let ok = start <= end && text.is_char_boundary(start) && text.is_char_boundary(end);
    proof {
        let bytes = utf8_bytes(text@);
        assert(valid_utf8(bytes));
        if is_char_boundary(bytes, end as int) {
            assert(end as int <= bytes.len());
        }
    }
    ok
}

/// `&text[start..end]`: the part of `text` between two byte offsets.
pub fn substring(text: &str, start: usize, end: usize) -> (r: &str)
    requires
        valid_byte_range(text@, start as int, end as int),
    ensures
        r@ == byte_slice(text@, start as int, end as int),
        r.spec_bytes() == utf8_bytes(text@).subrange(start as int, end as int),
{
    let ghost bytes = utf8_bytes(text@);
    proof {
        lemma_boundary_in_suffix(bytes, start as int, end as int);
    }
    let (_, rest) = text.split_at(start);
    assert(rest.spec_bytes() =~= bytes.subrange(start as int, bytes.len() as int));
    let (piece, _) = rest.split_at(end - start);
    assert(piece.spec_bytes() =~= bytes.subrange(start as int, end as int));
    proof {
        assert(decode_utf8(encode_utf8(piece@)) == piece@);
    }
    piece
}

/// An owned copy of `&text[start..end]`.
pub fn substring_owned(text: &str, start: usize, end: usize) -> (r: String)
    requires
        valid_byte_range(text@, start as int, end as int),
    ensures
        r@ == byte_slice(text@, start as int, end as int),
{
    substring(text, start, end).to_owned()
}

} // verus!
