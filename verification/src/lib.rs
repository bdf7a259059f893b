//! A compact, mutable, heap-backed string: a pointer and a length, nothing else.
//!
//! Every mutation moves the content into a block of exactly the size it needs,
//! so a value never carries spare capacity. That costs an allocation for each
//! change of length and saves a word for each string that is kept.
//!
//! ```
//! use mutstr::mutstr;
//! let mut result = mutstr::from("friend");
//! result += " :) :) :)";
//! result -= (2, " :)");
//! assert_eq!(result.as_str(), "friend :)");
//! ```
//!
//! The content is a sequence of bytes, and every sequence is allowed. Reading
//! it as text checks that the bytes are well-formed UTF-8; the contracts say
//! which operations keep them so.
pub mod buffer;
pub mod convert;
pub mod layout;
pub mod ops;
pub mod pattern;
pub mod string;
pub mod text;
pub mod text_pattern;

pub use buffer::MutStrPtr;
pub use layout::Layout;
pub use string::{mutstr, SliceError};
