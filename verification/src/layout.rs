//! Where the managed runtime of the target keeps the parts of its strings
//! and arrays. The offsets are a convention of that runtime: they are fixed
//! here, not found out from the target.

use vstd::prelude::*;

verus! {

/// The width of a pointer field and of a length field, in bytes.
pub const FIELD_WIDTH: usize = 4;

/// The width of one UTF-16 code unit, in bytes.
pub const CHAR_WIDTH: usize = 2;

/// A string object: the offset of the number of characters, which follows
/// the object header.
pub const STRING_LENGTH: usize = 4;

/// A string object: the offset of the first character.
pub const STRING_CHARS: usize = 8;

/// An array object: the offset of the data pointer.
pub const ARRAY_POINTER: usize = 4;

/// An array object: the offset of the number of elements.
pub const ARRAY_COUNT: usize = 12;

/// The offset of the first element from the address that the data pointer
/// names: the runtime's own header of the element block lies between.
pub const ARRAY_ELEMENTS: usize = 8;

} // verus!
