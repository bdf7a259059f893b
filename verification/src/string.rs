//! The string itself.
use crate::buffer::MutStrPtr;
use crate::layout::Layout;
use crate::pattern::{
    count_occurrences, dropped, lemma_without_first_n_len, lemma_without_first_n_saturates,
    lemma_without_none, strip_all, strip_first_n, without_all, without_first_n,
};
use crate::text::{is_text_span, lemma_text_concat, lemma_text_span, text_of, text_of_mut};
use crate::text_pattern::{lemma_text_without_all, lemma_text_without_first_n};
use vstd::prelude::*;
use vstd::string::StringSliceAdditionalSpecFns;
use vstd::utf8::*;

verus! {

/// A mutable string that is a pointer and a length, with no spare capacity.
///
/// Its content is a sequence of bytes, and any sequence will do. It reads as
/// text where the bytes are well-formed UTF-8, and every reading as text
/// makes sure of that.
#[derive(Debug)]
#[allow(non_camel_case_types)]
pub struct mutstr {
    _ptr: MutStrPtr,
}

/// Why a span of a string cannot be read as text.
#[derive(Clone, Copy, Debug, PartialEq, Eq, Structural)]
pub enum SliceError {
    /// The content is not well-formed UTF-8.
    NotText,
    /// The span starts behind its end, or ends behind the content.
    OutOfBounds,
    /// An end of the span falls inside the encoding of a character.
    NotCharBoundary,
}

impl View for mutstr {
    type V = Seq<u8>;

    closed spec fn view(&self) -> Seq<u8> {
        self._ptr@
    }
}

impl mutstr {
    /// The length of the content in bytes, as a machine integer.
    pub open spec fn spec_size(&self) -> usize {
        self@.len() as usize
    }

    /// The content is empty.
    pub open spec fn spec_is_empty(&self) -> bool {
        self@.len() == 0
    }

    /// The content is well-formed UTF-8.
    pub open spec fn is_text(&self) -> bool {
        valid_utf8(self@)
    }

    /// The characters that the content encodes, where it is text.
    pub open spec fn text(&self) -> Seq<char>
        recommends
            self.is_text(),
    {
        decode_utf8(self@)
    }

    /// Two strings with the same content are the same value.
    pub proof fn lemma_view_injective(a: mutstr, b: mutstr)
        requires
            a@ == b@,
        ensures
            a == b,
    {
        MutStrPtr::lemma_view_injective(a._ptr, b._ptr);
    }

    /// The length of the content fits a machine integer.
    pub proof fn lemma_size_fits(&self)
        ensures
            self@.len() <= usize::MAX,
            self.size() == self@.len(),
    {
        self._ptr.lemma_size_fits();
    }

    /// The string whose content is `bytes`.
    pub closed spec fn holding(bytes: Seq<u8>) -> mutstr {
        choose|s: mutstr| s@ == bytes
    }

    /// A string is the string that holds its content.
    pub proof fn lemma_holding(s: mutstr)
        ensures
            mutstr::holding(s@) == s,
    {
        mutstr::lemma_view_injective(mutstr::holding(s@), s);
    }

    /// The string that owns `ptr`.
    pub(crate) fn owning(ptr: MutStrPtr) -> (s: mutstr)
        ensures
            s@ == ptr@,
    {
        mutstr { _ptr: ptr }
    }

    /// The length of the content in bytes.
    #[verifier::when_used_as_spec(spec_size)]
    pub fn size(&self) -> (size: usize)
        ensures
            size == self@.len(),
            size == self.spec_size(),
    {
        self._ptr.size()
    }

    /// Tells whether the content is empty.
    #[verifier::when_used_as_spec(spec_is_empty)]
    pub fn is_empty(&self) -> (empty: bool)
        ensures
            empty == (self.size() == 0),
            empty == self.spec_is_empty(),
    {
        self.size() == 0
    }

    /// The shape of the content's block: `size()` bytes, aligned to one byte.
    pub fn layout(&self) -> (layout: Layout)
        ensures
            layout.size() == self.size(),
            layout.size() == self@.len(),
            layout.align() == 1,
    {
        self._ptr.layout()
    }

    /// The content.
    pub fn as_bytes(&self) -> (bytes: &[u8])
        ensures
            bytes@ == self@,
    {
        self._ptr.as_slice()
    }

    /// Hands the content's block over to the caller, who from now on owns
    /// it and gives it back to the allocator.
    pub fn into_boxed_bytes(self) -> (block: Box<[u8]>)
        ensures
            block@ == self@,
    {
        self._ptr.into_boxed_bytes()
    }

    /// The content, open to change in place.
    pub fn as_bytes_mut(&mut self) -> (bytes: &mut [u8])
        ensures
            bytes@ == old(self)@,
            final(self)@ == final(bytes)@,
    {
        self._ptr.as_mut_slice()
    }

    /// The content as text, where it is text.
    pub fn to_str(&self) -> (text: Option<&str>)
        ensures
            text is Some <==> self.is_text(),
            text matches Some(s) ==> s.spec_bytes() == self@ && s@ == self.text(),
    {
        let text = text_of(self.as_bytes());
        proof {
            if let Some(s) = text {
                encode_utf8_decode_utf8(s@);
            }
        }
        text
    }

    /// The content as text.
    ///
    /// The content has to be text. A caller that Verus has not held to this
    /// finds a panic where it is none; `to_str` asks first.
    pub fn as_str(&self) -> (text: &str)
        requires
            self.is_text(),
        ensures
            text.spec_bytes() == self@,
            text@ == self.text(),
    {
        match self.to_str() {
            Some(s) => s,
            None => vstd::pervasive::unreached(),
        }
    }

    /// A copy of the content as text, which the content has to be.
    pub fn to_string(&self) -> (text: String)
        requires
            self.is_text(),
        ensures
            text@ == self.text(),
    {
        self.as_str().to_owned()
    }

    /// The content as text that may be edited in place. The content has to
    /// be text, and it stays text.
    pub fn as_str_mut(&mut self) -> (text: &mut str)
        requires
            old(self).is_text(),
        ensures
            text.spec_bytes() == old(self)@,
            final(self)@ == final(text).spec_bytes(),
            final(self).is_text(),
    {
        match text_of_mut(self.as_bytes_mut()) {
            Some(s) => {
                proof {
                    encode_utf8_valid_utf8(final(s)@);
                }
                s
            },
            None => vstd::pervasive::unreached(),
        }
    }

    /// Makes `value` the content, in a block of exactly its length.
    pub fn replace_with(&mut self, value: &[u8])
        ensures
            final(self)@ == value@,
            final(self).size() == value@.len(),
    {
        if self.size() != value.len() {
            self._ptr.realloc(value.len());
        }
        self._ptr.write(0, value);
    }

    /// Appends `value` to the content. An empty `value` changes nothing, and
    /// moves nothing. Text behind text gives text.
    pub fn push(&mut self, value: &[u8])
        ensures
            final(self)@ == old(self)@ + value@,
            final(self).size() == old(self).size() + value@.len(),
            value@.len() == 0 ==> *final(self) == *old(self),
            old(self).is_text() && valid_utf8(value@) ==> final(self).is_text(),
            old(self).is_text() && valid_utf8(value@) ==> final(self).text() == old(self).text()
                + decode_utf8(value@),
    {
        proof {
            if self.is_text() && valid_utf8(value@) {
                lemma_text_concat(self@, value@);
            }
        }
        if value.is_empty() {
            return;
        }
        self._ptr.grow(value);
        proof {
            self.lemma_size_fits();
        }
    }

    /// Empties the content and gives its block back.
    pub fn clear(&mut self)
        ensures
            final(self)@ == Seq::<u8>::empty(),
            final(self).size() == 0,
            final(self).is_empty(),
    {
        self._ptr.realloc(0);
    }

    /// Deletes every occurrence of `pattern` from the content, scanning from
    /// left to right; occurrences that are deleted do not overlap. The scan
    /// runs over the bytes, and in text it finds the pattern where a scan over
    /// the characters finds it.
    pub fn remove_all(&mut self, pattern: &str)
        ensures
            final(self)@ == without_all(old(self)@, pattern.spec_bytes()),
            final(self).size() + count_occurrences(old(self)@, pattern.spec_bytes())
                * pattern.spec_bytes().len() == old(self).size(),
            old(self).is_text() ==> final(self).is_text() && final(self).text() == without_all(
                old(self).text(),
                pattern@,
            ),
    {
        proof {
            let count = count_occurrences(self@, pattern.spec_bytes());
            self.lemma_size_fits();
            lemma_without_first_n_saturates(self@, pattern.spec_bytes(), count);
            lemma_without_first_n_len(self@, pattern.spec_bytes(), count);
            if self.is_text() {
                lemma_text_without_all(self@, pattern@);
            }
        }
        let kept: Vec<u8> = strip_all(self.as_bytes(), pattern.as_bytes());
        self.replace_with(kept.as_slice());
    }

    /// Deletes the first `n` occurrences of `pattern` from the content,
    /// scanning from left to right, or all of them where there are fewer.
    /// The scan runs over the bytes, and in text it finds the pattern where a
    /// scan over the characters finds it.
    pub fn remove_first_n(&mut self, n: usize, pattern: &str)
        ensures
            final(self)@ == without_first_n(old(self)@, pattern.spec_bytes(), n as nat),
            n == 0 ==> final(self)@ == old(self)@,
            n >= count_occurrences(old(self)@, pattern.spec_bytes()) ==> final(self)@
                == without_all(old(self)@, pattern.spec_bytes()),
            final(self).size() + dropped(old(self)@, pattern.spec_bytes(), n as nat)
                * pattern.spec_bytes().len() == old(self).size(),
            old(self).is_text() ==> final(self).is_text() && final(self).text()
                == without_first_n(old(self).text(), pattern@, n as nat),
    {
        proof {
            self.lemma_size_fits();
            lemma_without_none(self@, pattern.spec_bytes());
            lemma_without_first_n_len(self@, pattern.spec_bytes(), n as nat);
            if n >= count_occurrences(self@, pattern.spec_bytes()) {
                lemma_without_first_n_saturates(self@, pattern.spec_bytes(), n as nat);
            }
            if self.is_text() {
                lemma_text_without_first_n(self@, pattern@, n as nat);
            }
        }
        let kept: Vec<u8> = strip_first_n(self.as_bytes(), pattern.as_bytes(), n);
        self.replace_with(kept.as_slice());
    }

    /// The span `[start, end)` of the content as text, or why it is none:
    /// the first of the three reasons that holds, in their order.
    pub fn slice(&self, start: usize, end: usize) -> (span: Result<&str, SliceError>)
        ensures
            match span {
                Ok(s) => {
                    &&& is_text_span(self@, start as int, end as int)
                    &&& s.spec_bytes() == self@.subrange(start as int, end as int)
                    &&& s@ == decode_utf8(self@.subrange(start as int, end as int))
                },
                Err(SliceError::NotText) => !self.is_text(),
                Err(SliceError::OutOfBounds) => self.is_text() && !(start <= end <= self@.len()),
                Err(SliceError::NotCharBoundary) => {
                    &&& self.is_text()
                    &&& start <= end <= self@.len()
                    &&& !is_char_boundary(self@, start as int) || !is_char_boundary(
                        self@,
                        end as int,
                    )
                },
            },
    {
        let whole: &str = match self.to_str() {
            Some(s) => s,
            None => { return Err(SliceError::NotText); },
        };
        if start > end || end > self.size() {
            return Err(SliceError::OutOfBounds);
        }
        if !whole.is_char_boundary(start) || !whole.is_char_boundary(end) {
            return Err(SliceError::NotCharBoundary);
        }
        proof {
            lemma_text_span(self@, start as int, end as int);
        }
        let (head, _) = whole.split_at(end);
        let (_, span) = head.split_at(start);
        proof {
            encode_utf8_decode_utf8(span@);
        }
        Ok(span)
    }
}

} // verus!
