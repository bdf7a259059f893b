//! Reading bytes as UTF-8 text.
use vstd::prelude::*;
use vstd::string::StringSliceAdditionalSpecFns;
use vstd::utf8::*;

verus! {

/// `core::str::from_utf8`: the bytes as text where they are well-formed UTF-8,
/// and nothing where they are not. The text borrows the very bytes it was
/// given.
#[verifier::external_body]
pub(crate) fn text_of(bytes: &[u8]) -> (text: Option<&str>)
    ensures
        text is Some <==> valid_utf8(bytes@),
        text matches Some(s) ==> s.spec_bytes() == bytes@,
{
    match core::str::from_utf8(bytes) {
        Ok(s) => Some(s),
        Err(_) => None,
    }
}

/// `core::str::from_utf8_mut`: as `from_utf8`, for bytes that may be edited
/// through the text. What the text holds when the borrow ends is what the
/// bytes hold; bytes that are no text are left as they were.
#[verifier::external_body]
pub(crate) fn text_of_mut(bytes: &mut [u8]) -> (text: Option<&mut str>)
    ensures
        text is Some <==> valid_utf8(old(bytes)@),
        text matches Some(s) ==> s.spec_bytes() == old(bytes)@,
        text matches Some(s) ==> final(s).spec_bytes() == final(bytes)@,
        text is None ==> final(bytes)@ == old(bytes)@,
{
    match core::str::from_utf8_mut(bytes) {
        Ok(s) => Some(s),
        Err(_) => None,
    }
}

/// What is lent as `bytes` is `content`.
pub open spec fn lends_bytes(bytes: &[u8], content: Seq<u8>) -> bool {
    bytes@ == content
}

/// What is lent as `text` is the text that the bytes `content` encode.
pub open spec fn lends_text(text: &str, content: Seq<u8>) -> bool {
    text.spec_bytes() == content
}

/// The span `[start, end)` of `bytes` can be read as text of its own: the
/// bytes are text, the span lies inside them, and neither end falls inside
/// the encoding of a character.
pub open spec fn is_text_span(bytes: Seq<u8>, start: int, end: int) -> bool {
    &&& valid_utf8(bytes)
    &&& 0 <= start <= end <= bytes.len()
    &&& is_char_boundary(bytes, start)
    &&& is_char_boundary(bytes, end)
}

/// A span of text is text, and so is what lies before its end; a boundary
/// before that end is a boundary there too.
pub proof fn lemma_text_span(bytes: Seq<u8>, start: int, end: int)
    requires
        is_text_span(bytes, start, end),
    ensures
        valid_utf8(bytes.take(end)),
        is_char_boundary(bytes.take(end), start),
        valid_utf8(bytes.subrange(start, end)),
{
    let head = bytes.take(end);
    valid_utf8_split(bytes, end);
    if start == end {
        is_char_boundary_start_end_of_seq(head);
    } else if start > 0 {
        is_char_boundary_iff_not_is_continuation_byte(bytes, start);
        is_char_boundary_iff_not_is_continuation_byte(head, start);
    }
    valid_utf8_split(head, start);
    assert(head.subrange(start, head.len() as int) == bytes.subrange(start, end));
}

/// The encoding of two texts in a row is their encodings in a row.
pub proof fn lemma_encode_concat(a: Seq<char>, b: Seq<char>)
    ensures
        encode_utf8(a + b) == encode_utf8(a) + encode_utf8(b),
    decreases a.len(),
{
    if a.len() == 0 {
        assert(a + b == b);
    } else {
        lemma_encode_concat(a.drop_first(), b);
        assert((a + b).drop_first() == a.drop_first() + b);
    }
}

/// Every character takes at least one byte.
pub proof fn lemma_encode_len(chars: Seq<char>)
    ensures
        encode_utf8(chars).len() >= chars.len(),
    decreases chars.len(),
{
    if chars.len() > 0 {
        lemma_encode_len(chars.drop_first());
    }
}

/// How a text's encoding begins: with the bytes of its first character, of
/// which the first is no continuation byte and every other is one; the
/// encoding of the rest follows.
pub proof fn lemma_encode_first(chars: Seq<char>)
    requires
        chars.len() > 0,
    ensures
        ({
            let bytes = encode_utf8(chars);
            let width = length_of_first_scalar(bytes);
            &&& 1 <= width <= bytes.len()
            &&& valid_first_scalar(bytes)
            &&& decode_first_scalar(bytes) == chars[0] as u32
            &&& bytes.skip(width) == encode_utf8(chars.drop_first())
            &&& !is_continuation_byte(bytes[0])
            &&& forall|j: int| 1 <= j < width ==> is_continuation_byte(#[trigger] bytes[j])
        }),
{
    let bytes = encode_utf8(chars);
    let first = encode_scalar(chars[0] as u32);
    encode_utf8_first_scalar(chars);
    assert(bytes.skip(first.len() as int) == encode_utf8(chars.drop_first()));
}

/// Two texts in a row are a text, and it reads as the two in a row.
pub proof fn lemma_text_concat(head: Seq<u8>, tail: Seq<u8>)
    requires
        valid_utf8(head),
        valid_utf8(tail),
    ensures
        valid_utf8(head + tail),
        decode_utf8(head + tail) == decode_utf8(head) + decode_utf8(tail),
{
    let chars = decode_utf8(head) + decode_utf8(tail);
    decode_utf8_encode_utf8(head);
    decode_utf8_encode_utf8(tail);
    lemma_encode_concat(decode_utf8(head), decode_utf8(tail));
    encode_utf8_valid_utf8(chars);
    encode_utf8_decode_utf8(chars);
}

} // verus!
