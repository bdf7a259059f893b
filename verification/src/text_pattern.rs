//! Deleting a pattern from text.
//!
//! A string deletes a pattern by scanning its bytes. Where the bytes are text
//! this is the same as scanning the characters: in UTF-8 no character's
//! encoding begins inside another's, so the encoded pattern stands in the
//! bytes only where the pattern stands in the characters.
use crate::pattern::{
    lemma_count_bounded, lemma_keep_run, lemma_without_first_n_saturates, matches_here, occurs_at,
    without_all, without_first_n,
};
use crate::text::{lemma_encode_concat, lemma_encode_first, lemma_encode_len};
use vstd::prelude::*;
use vstd::utf8::*;

verus! {

/// Where the encoding of `pattern` stands at the start of the encoding of
/// `chars`, `pattern` stands at the start of `chars`.
pub proof fn lemma_prefix_decodes(chars: Seq<char>, pattern: Seq<char>)
    requires
        occurs_at(encode_utf8(chars), encode_utf8(pattern), 0),
    ensures
        occurs_at(chars, pattern, 0),
    decreases pattern.len(),
{
    let s = encode_utf8(chars);
    let p = encode_utf8(pattern);
    if pattern.len() == 0 {
        assert(chars.subrange(0, 0) == pattern);
    } else {
        lemma_encode_first(pattern);
        lemma_encode_first(chars);
        let width = length_of_first_scalar(p);
        // Both encodings begin with the same bytes, so with the same character.
        assert forall|j: int| 0 <= j < p.len() implies s[j] == p[j] by {
            assert(s.subrange(0, p.len() as int)[j] == p[j]);
        }
        assert(decode_first_scalar(s) == decode_first_scalar(p));
        assert(chars[0] == pattern[0]) by {
            char_u32_cast(chars[0], chars[0] as u32);
            char_u32_cast(pattern[0], pattern[0] as u32);
        }
        // Behind that character the encodings still agree, and so do the characters.
        assert(s.skip(width).subrange(0, p.len() - width) == p.skip(width));
        lemma_prefix_decodes(chars.drop_first(), pattern.drop_first());
        assert(chars.subrange(0, pattern.len() as int) == pattern) by {
            assert forall|j: int| 0 <= j < pattern.len() implies chars[j] == pattern[j] by {
                if j > 0 {
                    assert(chars.drop_first().subrange(0, pattern.len() - 1)[j - 1]
                        == pattern.drop_first()[j - 1]);
                }
            }
        }
    }
}

/// Where `pattern` stands at the start of `chars`, its encoding stands at the
/// start of theirs, and what follows it encodes what follows `pattern`.
pub proof fn lemma_prefix_encodes(chars: Seq<char>, pattern: Seq<char>)
    requires
        occurs_at(chars, pattern, 0),
    ensures
        occurs_at(encode_utf8(chars), encode_utf8(pattern), 0),
        encode_utf8(chars).skip(encode_utf8(pattern).len() as int) == encode_utf8(
            chars.skip(pattern.len() as int),
        ),
{
    let rest = chars.skip(pattern.len() as int);
    assert(chars == pattern + rest);
    lemma_encode_concat(pattern, rest);
    let p = encode_utf8(pattern);
    assert((p + encode_utf8(rest)).subrange(0, p.len() as int) == p);
}

/// Deleting occurrences of a pattern from a text and encoding what is left
/// gives the same bytes as deleting the occurrences of the encoded pattern
/// from the encoded text: the scan over bytes finds the pattern where the
/// scan over characters finds it, and nowhere else.
pub proof fn lemma_without_first_n_encoded(chars: Seq<char>, pattern: Seq<char>, n: nat)
    ensures
        without_first_n(encode_utf8(chars), encode_utf8(pattern), n) == encode_utf8(
            without_first_n(chars, pattern, n),
        ),
    decreases chars.len(),
{
    let s = encode_utf8(chars);
    let p = encode_utf8(pattern);
    lemma_encode_len(pattern);
    if chars.len() == 0 {
    } else if n > 0 && matches_here(chars, pattern) {
        // Both scans drop the pattern here and go on behind it.
        lemma_prefix_encodes(chars, pattern);
        lemma_without_first_n_encoded(chars.skip(pattern.len() as int), pattern, (n - 1) as nat);
    } else {
        // The scan over characters keeps the first one. The scan over bytes
        // keeps each of its bytes: at the first the pattern does not stand,
        // and the others are continuation bytes, with which no encoding
        // begins.
        let rest = chars.skip(1);
        let width = length_of_first_scalar(s);
        lemma_encode_first(chars);
        lemma_without_first_n_encoded(rest, pattern, n);
        assert forall|j: int| 0 <= j < width implies !(n > 0 && #[trigger] matches_here(
            s.skip(j),
            p,
        )) by {
            if n > 0 && matches_here(s.skip(j), p) {
                if j == 0 {
                    assert(s.skip(0) == s);
                    lemma_prefix_decodes(chars, pattern);
                } else {
                    lemma_encode_first(pattern);
                    assert(s.skip(j)[0] == p[0]);
                }
            }
        }
        lemma_keep_run(s, p, n, width);
        let kept = without_first_n(rest, pattern, n);
        assert((seq![chars[0]] + kept).drop_first() == kept);
        assert(s.take(width) == encode_scalar(chars[0] as u32));
    }
}

/// The same for deleting every occurrence.
pub proof fn lemma_without_all_encoded(chars: Seq<char>, pattern: Seq<char>)
    ensures
        without_all(encode_utf8(chars), encode_utf8(pattern)) == encode_utf8(
            without_all(chars, pattern),
        ),
{
    let s = encode_utf8(chars);
    let p = encode_utf8(pattern);
    lemma_encode_len(chars);
    lemma_count_bounded(s, p);
    lemma_count_bounded(chars, pattern);
    lemma_without_first_n_saturates(s, p, s.len());
    lemma_without_first_n_saturates(chars, pattern, s.len());
    lemma_without_first_n_encoded(chars, pattern, s.len());
}

/// Deleting the first `n` occurrences of an encoded pattern from a text
/// leaves a text: the one that is left when the pattern's first `n`
/// occurrences are deleted from the characters.
pub proof fn lemma_text_without_first_n(bytes: Seq<u8>, pattern: Seq<char>, n: nat)
    requires
        valid_utf8(bytes),
    ensures
        valid_utf8(without_first_n(bytes, encode_utf8(pattern), n)),
        decode_utf8(without_first_n(bytes, encode_utf8(pattern), n)) == without_first_n(
            decode_utf8(bytes),
            pattern,
            n,
        ),
{
    let kept = without_first_n(decode_utf8(bytes), pattern, n);
    decode_utf8_encode_utf8(bytes);
    lemma_without_first_n_encoded(decode_utf8(bytes), pattern, n);
    encode_utf8_valid_utf8(kept);
    encode_utf8_decode_utf8(kept);
}

/// Deleting every occurrence of an encoded pattern from a text leaves a
/// text: the one that is left when every occurrence of the pattern is deleted
/// from the characters.
pub proof fn lemma_text_without_all(bytes: Seq<u8>, pattern: Seq<char>)
    requires
        valid_utf8(bytes),
    ensures
        valid_utf8(without_all(bytes, encode_utf8(pattern))),
        decode_utf8(without_all(bytes, encode_utf8(pattern))) == without_all(
            decode_utf8(bytes),
            pattern,
        ),
{
    let kept = without_all(decode_utf8(bytes), pattern);
    decode_utf8_encode_utf8(bytes);
    lemma_without_all_encoded(decode_utf8(bytes), pattern);
    encode_utf8_valid_utf8(kept);
    encode_utf8_decode_utf8(kept);
}

} // verus!
