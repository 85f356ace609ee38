//! Gap buffers.
//!
//! A gap buffer is a buffer of two contiguous segments with a gap between them. Editing operations
//! move data between the two segments and write data into the gap. If the gap is filled by new
//! data, a new one is allocated of half the total size of the buffer.
//!
//! A slice of a gap buffer can be either contiguous or fragmented. A contiguous slice is entirely
//! either side of the gap, while a fragmented slice is divided by it.
//!
//! The gap buffer offers a single operation, splice, which both deletes and inserts data. These
//! operations are performed by moving, expanding, and shrinking the gap.

mod boundary;
mod buffer;
mod chars;
mod cmp;
mod convert;
mod iter;
mod slice;
mod str;
mod string;

pub use self::buffer::{fits_in_storage, spliced, Buffer};
pub(crate) use self::buffer::copy_within;
pub(crate) use self::string::from_utf8;
pub use self::cmp::bytes_eq;
pub use self::chars::{char_bytes, indexed};
pub use self::iter::{CharIndices, Chars, Iter};
pub use self::slice::Slice;
pub use self::str::Str;
pub use self::string::{lemma_encode_concat, String};
