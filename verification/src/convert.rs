//! Making a string from bytes or text, and lending it as either.
use crate::buffer::MutStrPtr;
use crate::string::mutstr;
use crate::text::{lends_bytes, lends_text};
use vstd::prelude::*;
use vstd::std_specs::convert::FromSpecImpl;
use vstd::string::StringSliceAdditionalSpecFns;
use vstd::utf8::*;

verus! {

impl From<&[u8]> for mutstr {
    /// A string that holds a copy of `value`, in a block of exactly its
    /// length.
    fn from(value: &[u8]) -> (s: mutstr)
        ensures
            s@ == value@,
            s.size() == value@.len(),
    {
        let mut ptr = MutStrPtr::allocate(value.len());
        ptr.write(0, value);
        let s = mutstr::owning(ptr);
        proof {
            mutstr::lemma_holding(s);
        }
        s
    }
}

impl FromSpecImpl<&[u8]> for mutstr {
    open spec fn obeys_from_spec() -> bool {
        true
    }

    open spec fn from_spec(value: &[u8]) -> mutstr {
        mutstr::holding(value@)
    }
}

impl From<&str> for mutstr {
    /// A string that holds a copy of the bytes that encode `value`.
    fn from(value: &str) -> (s: mutstr)
        ensures
            s@ == value.spec_bytes(),
            s.is_text(),
            s.text() == value@,
    {
        proof {
            encode_utf8_valid_utf8(value@);
            encode_utf8_decode_utf8(value@);
        }
        mutstr::from(value.as_bytes())
    }
}

impl FromSpecImpl<&str> for mutstr {
    open spec fn obeys_from_spec() -> bool {
        true
    }

    open spec fn from_spec(value: &str) -> mutstr {
        mutstr::holding(value.spec_bytes())
    }
}

/// Whatever string `from` makes of `value`, the bytes that it lends are the
/// bytes of `value`.
pub proof fn lemma_from_round_trip(value: &[u8], s: mutstr, bytes: &[u8])
    requires
        call_ensures(<mutstr as From<&[u8]>>::from, (value,), s),
        call_ensures(mutstr::as_bytes, (&s,), bytes),
    ensures
        bytes@ == value@,
{
}

/// Whatever text a string reads as, and whatever string `from` makes of that
/// text, the two strings are one: writing a string out as text and reading
/// it back loses no byte.
pub proof fn lemma_text_round_trip(s: mutstr, text: &str, back: mutstr)
    requires
        call_ensures(mutstr::as_str, (&s,), text),
        call_ensures(<mutstr as From<&str>>::from, (text,), back),
    ensures
        back@ == s@,
        back == s,
{
    mutstr::lemma_view_injective(back, s);
}

impl Default for mutstr {
    /// The empty string, which owns no block.
    fn default() -> (s: mutstr)
        ensures
            s@ == Seq::<u8>::empty(),
            s.size() == 0,
            s.is_empty(),
    {
        proof {
            reveal_strlit("");
        }
        mutstr::from("")
    }
}

impl AsRef<[u8]> for mutstr {
    /// The content.
    fn as_ref(&self) -> (bytes: &[u8])
        ensures
            lends_bytes(bytes, self@),
    {
        self.as_bytes()
    }
}

impl AsMut<[u8]> for mutstr {
    /// The content, open to change in place.
    fn as_mut(&mut self) -> (bytes: &mut [u8])
        ensures
            lends_bytes(bytes, old(self)@),
            lends_bytes(final(bytes), final(self)@),
    {
        self.as_bytes_mut()
    }
}

impl AsRef<str> for mutstr {
    /// The content as text, which it has to be.
    fn as_ref(&self) -> (text: &str)
        requires
            self.is_text(),
        ensures
            lends_text(text, self@),
    {
        self.as_str()
    }
}

impl AsMut<str> for mutstr {
    /// The content as text that may be edited in place. The content has to
    /// be text, and it stays text.
    fn as_mut(&mut self) -> (text: &mut str)
        requires
            old(self).is_text(),
        ensures
            lends_text(text, old(self)@),
            lends_text(final(text), final(self)@),
            final(self).is_text(),
    {
        self.as_str_mut()
    }
}

} // verus!
