//! What the typed reads may come to, said over the outcomes of the one
//! primitive below them. The contracts of the reads are stated with these
//! relations, and so are the laws of reading values back.

use vstd::prelude::*;
use crate::address::Address;
use crate::decode::{le_signed, le_value};
use crate::error::{OsFault, ProcessError};
use crate::layout::{
    ARRAY_COUNT, ARRAY_ELEMENTS, ARRAY_POINTER, CHAR_WIDTH, FIELD_WIDTH, STRING_CHARS,
    STRING_LENGTH,
};
use crate::process::RawReader;
use crate::uleb128::{continues, is_uleb128, uleb128_value, ULEB128_MAX_BYTES};
use crate::utf16::{utf16_lossy, utf16_units};

verus! {

/// The bytes of a read that succeeded.
pub open spec fn bytes_of(r: Result<Vec<u8>, ProcessError>) -> Result<Seq<u8>, ProcessError> {
    match r {
        Ok(bytes) => Ok(bytes@),
        Err(e) => Err(e),
    }
}

/// The canonical address `delta` bytes after `at`. An address that was not
/// to be had stays so, and one beyond the address space is a conversion
/// failure.
pub open spec fn shift(at: Result<usize, ProcessError>, delta: int) -> Result<usize, ProcessError> {
    match at {
        Ok(a) => if 0 <= a + delta <= usize::MAX {
            Ok((a + delta) as usize)
        } else {
            Err(ProcessError::AddressConvertError)
        },
        Err(e) => Err(e),
    }
}

/// May a targeted read of `len` bytes at the canonical address `a` fail with
/// `e`? It fails with `BadAddress` where the source hands back another number
/// of bytes than was asked for, and where the source fails, with the error
/// that stands for its fault.
pub open spec fn read_failure<P: RawReader>(p: &P, a: usize, len: usize, e: ProcessError) -> bool {
    ||| e == ProcessError::BadAddress(a, len) && exists|bytes: Seq<u8>|
        bytes.len() != len && #[trigger] p.may_read(a, len, bytes)
    ||| exists|fault: OsFault| #[trigger] p.may_fail(a, len, fault) && e == fault.read_error(a, len)
}

/// Is `r` what a targeted read of `len` bytes at `at` may come to? Where the
/// address was not to be had, its error is the outcome. Else the read
/// succeeds with `len` bytes that the source may hand back, or fails as
/// `read_failure` says.
pub open spec fn read_outcome<P: RawReader>(
    p: &P,
    at: Result<usize, ProcessError>,
    len: usize,
    r: Result<Seq<u8>, ProcessError>,
) -> bool {
    match at {
        Err(e) => r == Err::<Seq<u8>, ProcessError>(e),
        Ok(a) => match r {
            Ok(bytes) => bytes.len() == len && p.may_read(a, len, bytes),
            Err(e) => read_failure(p, a, len, e),
        },
    }
}

/// The number in `bytes`, little-endian, unsigned or in two's complement.
pub open spec fn number(bytes: Seq<u8>, signed: bool) -> int {
    if signed {
        le_signed(bytes)
    } else {
        le_value(bytes) as int
    }
}

/// May a read of a number of `width` bytes at `at` give `value`? It may where
/// a read of that many bytes there may succeed with bytes that hold `value`.
pub open spec fn reads_value<P: RawReader>(
    p: &P,
    at: Result<usize, ProcessError>,
    width: usize,
    signed: bool,
    value: int,
) -> bool {
    exists|bytes: Seq<u8>| #[trigger]
        read_outcome(p, at, width, Ok(bytes)) && value == number(bytes, signed)
}

/// May a read of one byte at the `i`-th address from `at` on give the `i`-th
/// of `bytes`?
pub open spec fn byte_read<P: RawReader>(
    p: &P,
    at: Result<usize, ProcessError>,
    bytes: Seq<u8>,
    i: int,
) -> bool {
    read_outcome(p, shift(at, i), 1, Ok(seq![bytes[i]]))
}

/// May reads of one byte each, at `at` and the addresses after it, give
/// `bytes` one after the other?
pub open spec fn reads_bytewise<P: RawReader>(
    p: &P,
    at: Result<usize, ProcessError>,
    bytes: Seq<u8>,
) -> bool {
    forall|i: int| 0 <= i < bytes.len() ==> #[trigger] byte_read(p, at, bytes, i)
}

/// Does every one of `bytes` announce a further byte?
pub open spec fn all_continue(bytes: Seq<u8>) -> bool {
    forall|i: int| 0 <= i < bytes.len() ==> continues(#[trigger] bytes[i])
}

/// Is `r` what reading a ULEB128 number at `at` may come to? Bytes are read
/// one at a time for as long as they announce a further one, ten at most.
/// The number is the value of the bytes read, cut to its low 64 bits. A
/// tenth byte that still announces another is a `ConvertionError`, and a
/// read that fails gives its error.
pub open spec fn uleb128_outcome<P: RawReader>(
    p: &P,
    at: Result<usize, ProcessError>,
    r: Result<u64, ProcessError>,
) -> bool {
    exists|bytes: Seq<u8>| #[trigger]
        reads_bytewise(p, at, bytes) && bytes.len() <= ULEB128_MAX_BYTES && match r {
            Ok(v) => is_uleb128(bytes) && v == uleb128_value(bytes) % 0x1_0000_0000_0000_0000,
            Err(e) => all_continue(bytes) && if bytes.len() == ULEB128_MAX_BYTES {
                e == ProcessError::ConvertionError
            } else {
                read_outcome(p, shift(at, bytes.len() as int), 1, Err(e))
            },
        }
}

/// Is a string of `count` characters read under the limit `limit`? Its bytes
/// have to fit the address space too.
pub open spec fn string_fits(count: int, limit: Option<usize>) -> bool {
    &&& CHAR_WIDTH * count <= usize::MAX
    &&& limit matches Some(max) ==> count <= max
}

/// The text that the bytes of a string's characters stand for, or the error
/// of the read that was to give them.
pub open spec fn decoded(data: Result<Seq<u8>, ProcessError>) -> Result<Seq<char>, ProcessError> {
    match data {
        Ok(bytes) => Ok(utf16_lossy(utf16_units(bytes))),
        Err(e) => Err(e),
    }
}

/// Is `r` what reading the string structure at `at` may come to once its
/// length field was read as `count`? A length that does not fit is a
/// `StringTooLarge`. Else the characters are read from offset 8 on, two
/// bytes each, and decoded leniently; where that read fails, its error is
/// the outcome.
pub open spec fn string_read<P: RawReader>(
    p: &P,
    at: Result<usize, ProcessError>,
    limit: Option<usize>,
    count: int,
    r: Result<Seq<char>, ProcessError>,
) -> bool {
    &&& reads_value(p, shift(at, STRING_LENGTH as int), FIELD_WIDTH, false, count)
    &&& if string_fits(count, limit) {
        exists|data: Result<Seq<u8>, ProcessError>| #[trigger]
            read_outcome(p, shift(at, STRING_CHARS as int), (CHAR_WIDTH * count) as usize, data) && r == decoded(data)
    } else {
        r == Err::<Seq<char>, ProcessError>(ProcessError::StringTooLarge)
    }
}

/// Is `r` what reading a string structure at `at` may come to? The structure
/// holds the number of characters in the four bytes at offset 4 and the
/// characters from offset 8 on. Where the length cannot be read, the error
/// of that read is the outcome; else `string_read` says what is.
pub open spec fn string_outcome<P: RawReader>(
    p: &P,
    at: Result<usize, ProcessError>,
    limit: Option<usize>,
    r: Result<Seq<char>, ProcessError>,
) -> bool {
    ||| r matches Err(e) && read_outcome(p, shift(at, STRING_LENGTH as int), FIELD_WIDTH, Err(e))
    ||| exists|count: int| #[trigger] string_read(p, at, limit, count, r)
}

/// Is `r` what reading a string through the pointer at `at` may come to once
/// the pointer was read as `ptr`?
pub open spec fn string_ptr_read<P: RawReader>(
    p: &P,
    at: Result<usize, ProcessError>,
    ptr: i32,
    r: Result<Seq<char>, ProcessError>,
) -> bool {
    &&& reads_value(p, at, FIELD_WIDTH, true, ptr as int)
    &&& string_outcome(p, Address::I32(ptr).spec_to_usize(), None, r)
}

/// Is `r` what reading a string through the pointer at `at` may come to? The
/// four bytes at `at` hold the address of the string structure, as a signed
/// number. Where they cannot be read, the error of that read is the outcome.
pub open spec fn string_ptr_outcome<P: RawReader>(
    p: &P,
    at: Result<usize, ProcessError>,
    r: Result<Seq<char>, ProcessError>,
) -> bool {
    ||| r matches Err(e) && read_outcome(p, at, FIELD_WIDTH, Err(e))
    ||| exists|ptr: i32| #[trigger] string_ptr_read(p, at, ptr, r)
}

/// Can an array of `count` elements of `width` bytes each be read: is the
/// count no negative number, and do the elements fit the address space?
pub open spec fn array_fits(count: int, width: int) -> bool {
    0 <= count && count * width <= usize::MAX
}

/// Is `r` what reading the element bytes of the array at `at` may come to
/// once its header was read: the data pointer as `ptr`, the number of
/// elements as `count`? A count that is no number of elements that can be
/// read is a `ConvertionError`. Else the elements are read in one piece from
/// 8 bytes after the data pointer on.
pub open spec fn array_read<P: RawReader>(
    p: &P,
    at: Result<usize, ProcessError>,
    width: usize,
    ptr: i32,
    count: i32,
    r: Result<Seq<u8>, ProcessError>,
) -> bool {
    &&& reads_value(p, shift(at, ARRAY_POINTER as int), FIELD_WIDTH, true, ptr as int)
    &&& reads_value(p, shift(at, ARRAY_COUNT as int), FIELD_WIDTH, true, count as int)
    &&& if array_fits(count as int, width as int) {
        read_outcome(p, Address::I32(ptr).spec_offset(ARRAY_ELEMENTS as int), (count * width) as usize, r)
    } else {
        r == Err::<Seq<u8>, ProcessError>(ProcessError::ConvertionError)
    }
}

/// Is `r` what reading the element bytes of an array may come to? The array
/// header at `at` holds, as signed numbers of four bytes, the data pointer at
/// offset 4 and the number of elements at offset 12; an element takes `width`
/// bytes. Where a header field cannot be read, the error of that read is the
/// outcome; else `array_read` says what is.
pub open spec fn array_outcome<P: RawReader>(
    p: &P,
    at: Result<usize, ProcessError>,
    width: usize,
    r: Result<Seq<u8>, ProcessError>,
) -> bool {
    ||| r matches Err(e) && read_outcome(p, shift(at, ARRAY_POINTER as int), FIELD_WIDTH, Err(e))
    ||| {
        &&& r matches Err(e)
        &&& read_outcome(p, shift(at, ARRAY_COUNT as int), FIELD_WIDTH, Err(e))
        &&& exists|ptr: i32| #[trigger] reads_value(p, shift(at, ARRAY_POINTER as int), FIELD_WIDTH, true, ptr as int)
    }
    ||| exists|ptr: i32, count: i32| #[trigger] array_read(p, at, width, ptr, count, r)
}

/// The characters of a string that was read.
pub open spec fn chars_in(r: Result<String, ProcessError>) -> Result<Seq<char>, ProcessError> {
    match r {
        Ok(s) => Ok(s@),
        Err(e) => Err(e),
    }
}

} // verus!
