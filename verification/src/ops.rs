//! Operators: `+=` appends, `-=` deletes a pattern, and a range in square
//! brackets reads a span as text.
//!
//! A range has to be a span of text: the content is text, the range lies in
//! it, and its ends fall between characters. A caller that Verus has not held
//! to this finds a panic where it is not so; `mutstr::slice` asks first.
use crate::pattern::{without_all, without_first_n};
use crate::string::mutstr;
use crate::text::{is_text_span, lends_text};
use core::ops::{AddAssign, Index, Range, RangeFrom, RangeFull, RangeTo, SubAssign};
use vstd::prelude::*;
use vstd::string::StringSliceAdditionalSpecFns;
use vstd::utf8::{encode_utf8_decode_utf8, encode_utf8_valid_utf8};

verus! {

/// `core::ops::RangeFull`, the range `..`: it holds nothing.
#[verifier::external_type_specification]
#[verifier::external_body]
pub struct ExRangeFull(RangeFull);

/// `core::ops::RangeTo`, the range `..end`: its one field is `end`.
#[verifier::external_type_specification]
#[verifier::reject_recursive_types(Idx)]
pub struct ExRangeTo<Idx>(RangeTo<Idx>);

/// `core::ops::RangeFrom`, the range `start..`: its one field is `start`.
#[verifier::external_type_specification]
#[verifier::reject_recursive_types(Idx)]
pub struct ExRangeFrom<Idx>(RangeFrom<Idx>);

impl AddAssign<&str> for mutstr {
    /// Appends `rhs`.
    fn add_assign(&mut self, rhs: &str)
        ensures
            final(self)@ == old(self)@ + rhs.spec_bytes(),
            old(self).is_text() ==> final(self).is_text() && final(self).text() == old(self).text()
                + rhs@,
    {
        proof {
            encode_utf8_valid_utf8(rhs@);
            encode_utf8_decode_utf8(rhs@);
        }
        self.push(rhs.as_bytes());
    }
}

impl SubAssign<&str> for mutstr {
    /// Deletes every occurrence of `rhs`.
    fn sub_assign(&mut self, rhs: &str)
        ensures
            final(self)@ == without_all(old(self)@, rhs.spec_bytes()),
            old(self).is_text() ==> final(self).is_text() && final(self).text() == without_all(
                old(self).text(),
                rhs@,
            ),
    {
        self.remove_all(rhs);
    }
}

impl SubAssign<(usize, &str)> for mutstr {
    /// Deletes the first `rhs.0` occurrences of `rhs.1`.
    fn sub_assign(&mut self, rhs: (usize, &str))
        ensures
            final(self)@ == without_first_n(old(self)@, rhs.1.spec_bytes(), rhs.0 as nat),
            old(self).is_text() ==> final(self).is_text() && final(self).text()
                == without_first_n(old(self).text(), rhs.1@, rhs.0 as nat),
    {
        self.remove_first_n(rhs.0, rhs.1);
    }
}

impl Index<RangeFull> for mutstr {
    type Output = str;

    /// The whole content as text.
    fn index(&self, index: RangeFull) -> (text: &str)
        ensures
            lends_text(text, self@),
    {
        self.as_str()
    }
}

impl vstd::std_specs::core::IndexSpecImpl<RangeFull> for mutstr {
    open spec fn index_req(&self, index: &RangeFull) -> bool {
        self.is_text()
    }
}

impl Index<Range<usize>> for mutstr {
    type Output = str;

    /// The span `[start, end)` of the content as text.
    fn index(&self, index: Range<usize>) -> (text: &str)
        ensures
            lends_text(text, self@.subrange(index.start as int, index.end as int)),
    {
        match self.slice(index.start, index.end) {
            Ok(text) => text,
            Err(_) => vstd::pervasive::unreached(),
        }
    }
}

impl vstd::std_specs::core::IndexSpecImpl<Range<usize>> for mutstr {
    open spec fn index_req(&self, index: &Range<usize>) -> bool {
        is_text_span(self@, index.start as int, index.end as int)
    }
}

impl Index<RangeTo<usize>> for mutstr {
    type Output = str;

    /// The span `[0, end)` of the content as text.
    fn index(&self, index: RangeTo<usize>) -> (text: &str)
        ensures
            lends_text(text, self@.subrange(0, index.end as int)),
    {
        match self.slice(0, index.end) {
            Ok(text) => text,
            Err(_) => vstd::pervasive::unreached(),
        }
    }
}

impl vstd::std_specs::core::IndexSpecImpl<RangeTo<usize>> for mutstr {
    open spec fn index_req(&self, index: &RangeTo<usize>) -> bool {
        is_text_span(self@, 0, index.end as int)
    }
}

impl Index<RangeFrom<usize>> for mutstr {
    type Output = str;

    /// The span from `start` to the end of the content as text.
    fn index(&self, index: RangeFrom<usize>) -> (text: &str)
        ensures
            lends_text(text, self@.subrange(index.start as int, self@.len() as int)),
    {
        match self.slice(index.start, self.size()) {
            Ok(text) => text,
            Err(_) => vstd::pervasive::unreached(),
        }
    }
}

impl vstd::std_specs::core::IndexSpecImpl<RangeFrom<usize>> for mutstr {
    open spec fn index_req(&self, index: &RangeFrom<usize>) -> bool {
        is_text_span(self@, index.start as int, self@.len() as int)
    }
}

} // verus!
