//! The process that is inspected, the one primitive that reads its memory,
//! and the typed reads that are built on that primitive.

use vstd::arithmetic::div_mod::lemma_mod_multiples_basic;
use vstd::prelude::*;
use crate::address::Address;
use crate::decode::{
    i128_array_from_le, i16_array_from_le, i32_array_from_le, i64_array_from_le,
    i8_array_from_le, u128_array_from_le, u16_array_from_le, u32_array_from_le,
    u64_array_from_le, u8_array_from_le,
};
use crate::decode::{
    element, i128_from_le, i16_from_le, i32_from_le, i64_from_le, i8_from_le, u128_from_le,
    u16_from_le, u32_from_le, u64_from_le, u8_from_le,
};
use crate::error::{OsFault, ProcessError};
use crate::layout::{
    ARRAY_COUNT, ARRAY_ELEMENTS, ARRAY_POINTER, CHAR_WIDTH, FIELD_WIDTH, STRING_CHARS,
    STRING_LENGTH,
};
use crate::outcome::{
    all_continue, array_outcome, array_read, byte_read, bytes_of, chars_in, decoded, number,
    read_outcome, reads_bytewise, reads_value, shift, string_outcome, string_ptr_outcome,
    string_ptr_read, string_read, uleb128_outcome,
};
use crate::text::string_of;
use crate::uleb128::{continues, is_uleb128, uleb128_from, ULEB128_MAX_BYTES};
use crate::utf16::{decode_utf16_lossy, utf16_units_from_le};

verus! {

/// One contiguous range of the target's address space that can be read and
/// written.
#[derive(Debug, Clone, Copy, PartialEq, Eq, Structural)]
pub struct MemoryRegion {
    pub from: usize,
    pub size: usize,
}

impl MemoryRegion {
    /// The address one past the region's last byte.
    pub open spec fn end(&self) -> int {
        self.from + self.size
    }
}

/// No region of the catalogue is empty, and none reaches past the address
/// space.
pub open spec fn regions_sound(maps: Seq<MemoryRegion>) -> bool {
    &&& forall|i: int| 0 <= i < maps.len() ==> (#[trigger] maps[i]).size > 0
    &&& forall|i: int| 0 <= i < maps.len() ==> (#[trigger] maps[i]).end() <= usize::MAX
}

/// The regions of the catalogue ascend: each starts at or after the end of
/// every one before it, so that no two overlap.
pub open spec fn regions_ascending(maps: Seq<MemoryRegion>) -> bool {
    forall|i: int, j: int|
        0 <= i < j < maps.len() ==> (#[trigger] maps[i]).end() <= (#[trigger] maps[j]).from
}

/// A region catalogue is in order: no region is empty, none reaches past the
/// address space, and the regions ascend, so that no two overlap.
pub open spec fn catalog_wf(maps: Seq<MemoryRegion>) -> bool {
    regions_sound(maps) && regions_ascending(maps)
}

/// The characters of an optional string.
pub open spec fn text_of(s: Option<String>) -> Option<Seq<char>> {
    match s {
        Some(t) => Some(t@),
        None => None,
    }
}

/// A located process: its id, its region catalogue and the directory of its
/// executable.
#[derive(Debug)]
pub struct Process {
    pub pid: i32,
    pub maps: Vec<MemoryRegion>,
    pub executable_dir: Option<String>,
}

/// A process as a mathematical value.
pub struct ProcessView {
    pub pid: i32,
    pub maps: Seq<MemoryRegion>,
    pub executable_dir: Option<Seq<char>>,
}

impl View for Process {
    type V = ProcessView;

    /// The process with its catalogue and its directory as plain values.
    open spec fn view(&self) -> ProcessView {
        ProcessView {
            pid: self.pid,
            maps: self.maps@,
            executable_dir: text_of(self.executable_dir),
        }
    }
}

/// The one platform primitive below the typed reads: a single remote read.
///
/// `may_read` and `may_fail` say what a read can come to. They admit every
/// outcome unless an implementor says more; the contracts of the reads that
/// are built on the primitive are stated over them.
pub trait RawReader: Sized {
    /// May a read of `len` bytes at `addr` hand back `bytes`?
    open spec fn may_read(&self, addr: usize, len: usize, bytes: Seq<u8>) -> bool {
        true
    }

    /// May a read of `len` bytes at `addr` fail with `fault`?
    open spec fn may_fail(&self, addr: usize, len: usize, fault: OsFault) -> bool {
        true
    }

    /// One remote read of `len` bytes at `addr`, never retried.
    fn read_bytes(&self, addr: usize, len: usize) -> (r: Result<Vec<u8>, OsFault>)
        ensures
            match r {
                Ok(bytes) => self.may_read(addr, len, bytes@),
                Err(fault) => self.may_fail(addr, len, fault),
            },
    ;
}

/// The typed reads, built on the one primitive of a `RawReader` and provided
/// for every one. Each contract says of which outcomes of the primitive the
/// result is made.
pub trait ProcessTraits: RawReader {
    /// A targeted read of `len` bytes at `addr`, in one call of the
    /// primitive. An address that the canonical type cannot hold is an
    /// `AddressConvertError`; an unmapped range is a `BadAddress` with the
    /// address and the length; any other fault is an `OsError`.
    fn read(&self, addr: Address, len: usize) -> (r: Result<Vec<u8>, ProcessError>)
        ensures
            read_outcome(self, addr.spec_to_usize(), len, bytes_of(r)),
    {
        let at = match addr.to_usize() {
            Ok(at) => at,
            Err(e) => {
                return Err(e);
            },
        };
        match self.read_bytes(at, len) {
            Ok(bytes) => if bytes.len() == len {
                Ok(bytes)
            } else {
                Err(ProcessError::BadAddress(at, len))
            },
            Err(fault) => Err(fault.into_read_error(at, len)),
        }
    }

    /// Reads the 1 byte at `addr` as a little-endian `u8`.
    fn read_u8(&self, addr: Address) -> (r: Result<u8, ProcessError>)
        ensures
            match r {
                Ok(v) => reads_value(self, addr.spec_to_usize(), 1, false, v as int),
                Err(e) => read_outcome(self, addr.spec_to_usize(), 1, Err(e)),
            },
    {
        match self.read(addr, 1) {
            Ok(bytes) => {
                proof {
                    assert(bytes@.subrange(0, 1) == bytes@);
                }
                Ok(u8_from_le(&bytes, 0))
            },
            Err(e) => Err(e),
        }
    }

    /// Reads the 2 bytes at `addr` as a little-endian `u16`.
    fn read_u16(&self, addr: Address) -> (r: Result<u16, ProcessError>)
        ensures
            match r {
                Ok(v) => reads_value(self, addr.spec_to_usize(), 2, false, v as int),
                Err(e) => read_outcome(self, addr.spec_to_usize(), 2, Err(e)),
            },
    {
        match self.read(addr, 2) {
            Ok(bytes) => {
                proof {
                    assert(bytes@.subrange(0, 2) == bytes@);
                }
                Ok(u16_from_le(&bytes, 0))
            },
            Err(e) => Err(e),
        }
    }

    /// Reads the 4 bytes at `addr` as a little-endian `u32`.
    fn read_u32(&self, addr: Address) -> (r: Result<u32, ProcessError>)
        ensures
            match r {
                Ok(v) => reads_value(self, addr.spec_to_usize(), 4, false, v as int),
                Err(e) => read_outcome(self, addr.spec_to_usize(), 4, Err(e)),
            },
    {
        match self.read(addr, 4) {
            Ok(bytes) => {
                proof {
                    assert(bytes@.subrange(0, 4) == bytes@);
                }
                Ok(u32_from_le(&bytes, 0))
            },
            Err(e) => Err(e),
        }
    }

    /// Reads the 8 bytes at `addr` as a little-endian `u64`.
    fn read_u64(&self, addr: Address) -> (r: Result<u64, ProcessError>)
        ensures
            match r {
                Ok(v) => reads_value(self, addr.spec_to_usize(), 8, false, v as int),
                Err(e) => read_outcome(self, addr.spec_to_usize(), 8, Err(e)),
            },
    {
        match self.read(addr, 8) {
            Ok(bytes) => {
                proof {
                    assert(bytes@.subrange(0, 8) == bytes@);
                }
                Ok(u64_from_le(&bytes, 0))
            },
            Err(e) => Err(e),
        }
    }

    /// Reads the 16 bytes at `addr` as a little-endian `u128`.
    fn read_u128(&self, addr: Address) -> (r: Result<u128, ProcessError>)
        ensures
            match r {
                Ok(v) => reads_value(self, addr.spec_to_usize(), 16, false, v as int),
                Err(e) => read_outcome(self, addr.spec_to_usize(), 16, Err(e)),
            },
    {
        match self.read(addr, 16) {
            Ok(bytes) => {
                proof {
                    assert(bytes@.subrange(0, 16) == bytes@);
                }
                Ok(u128_from_le(&bytes, 0))
            },
            Err(e) => Err(e),
        }
    }

    /// Reads the 1 byte at `addr` as a little-endian `i8`.
    fn read_i8(&self, addr: Address) -> (r: Result<i8, ProcessError>)
        ensures
            match r {
                Ok(v) => reads_value(self, addr.spec_to_usize(), 1, true, v as int),
                Err(e) => read_outcome(self, addr.spec_to_usize(), 1, Err(e)),
            },
    {
        match self.read(addr, 1) {
            Ok(bytes) => {
                proof {
                    assert(bytes@.subrange(0, 1) == bytes@);
                }
                Ok(i8_from_le(&bytes, 0))
            },
            Err(e) => Err(e),
        }
    }

    /// Reads the 2 bytes at `addr` as a little-endian `i16`.
    fn read_i16(&self, addr: Address) -> (r: Result<i16, ProcessError>)
        ensures
            match r {
                Ok(v) => reads_value(self, addr.spec_to_usize(), 2, true, v as int),
                Err(e) => read_outcome(self, addr.spec_to_usize(), 2, Err(e)),
            },
    {
        match self.read(addr, 2) {
            Ok(bytes) => {
                proof {
                    assert(bytes@.subrange(0, 2) == bytes@);
                }
                Ok(i16_from_le(&bytes, 0))
            },
            Err(e) => Err(e),
        }
    }

    /// Reads the 4 bytes at `addr` as a little-endian `i32`.
    fn read_i32(&self, addr: Address) -> (r: Result<i32, ProcessError>)
        ensures
            match r {
                Ok(v) => reads_value(self, addr.spec_to_usize(), 4, true, v as int),
                Err(e) => read_outcome(self, addr.spec_to_usize(), 4, Err(e)),
            },
    {
        match self.read(addr, 4) {
            Ok(bytes) => {
                proof {
                    assert(bytes@.subrange(0, 4) == bytes@);
                }
                Ok(i32_from_le(&bytes, 0))
            },
            Err(e) => Err(e),
        }
    }

    /// Reads the 8 bytes at `addr` as a little-endian `i64`.
    fn read_i64(&self, addr: Address) -> (r: Result<i64, ProcessError>)
        ensures
            match r {
                Ok(v) => reads_value(self, addr.spec_to_usize(), 8, true, v as int),
                Err(e) => read_outcome(self, addr.spec_to_usize(), 8, Err(e)),
            },
    {
        match self.read(addr, 8) {
            Ok(bytes) => {
                proof {
                    assert(bytes@.subrange(0, 8) == bytes@);
                }
                Ok(i64_from_le(&bytes, 0))
            },
            Err(e) => Err(e),
        }
    }

    /// Reads the 16 bytes at `addr` as a little-endian `i128`.
    fn read_i128(&self, addr: Address) -> (r: Result<i128, ProcessError>)
        ensures
            match r {
                Ok(v) => reads_value(self, addr.spec_to_usize(), 16, true, v as int),
                Err(e) => read_outcome(self, addr.spec_to_usize(), 16, Err(e)),
            },
    {
        match self.read(addr, 16) {
            Ok(bytes) => {
                proof {
                    assert(bytes@.subrange(0, 16) == bytes@);
                }
                Ok(i128_from_le(&bytes, 0))
            },
            Err(e) => Err(e),
        }
    }

    /// Reads the ULEB128 number at `addr`, one byte at a time: seven bits a
    /// byte, least significant group first, until a byte whose top bit is
    /// clear. At most ten bytes are read.
    fn read_uleb128(&self, addr: Address) -> (r: Result<u64, ProcessError>)
        ensures
            uleb128_outcome(self, addr.spec_to_usize(), r),
    {
        let ghost at = addr.spec_to_usize();
        let base = match addr.to_usize() {
            Ok(base) => base,
            Err(e) => {
                proof {
                    let none = Seq::<u8>::empty();
                    assert(reads_bytewise(self, at, none));
                    assert(all_continue(none));
                }
                return Err(e);
            },
        };
        let mut bytes: Vec<u8> = Vec::new();
        while bytes.len() < ULEB128_MAX_BYTES
            invariant
                at == addr.spec_to_usize(),
                at == Ok::<usize, ProcessError>(base),
                bytes@.len() <= ULEB128_MAX_BYTES,
                reads_bytewise(self, at, bytes@),
                all_continue(bytes@),
            decreases ULEB128_MAX_BYTES - bytes.len(),
        {
            let i = bytes.len();
            let next = match base.checked_add(i) {
                Some(next) => next,
                None => {
                    proof {
                        assert(shift(at, i as int) == Err::<usize, ProcessError>(
                            ProcessError::AddressConvertError,
                        ));
                    }
                    return Err(ProcessError::AddressConvertError);
                },
            };
            proof {
                assert(shift(at, i as int) == Ok::<usize, ProcessError>(next));
                assert(Address::Native(next).spec_to_usize() == shift(at, i as int));
            }
            let byte = match self.read(Address::Native(next), 1) {
                Ok(one) => {
                    assert(one@ == seq![one@[0]]);
                    one[0]
                },
                Err(e) => {
                    return Err(e);
                },
            };
            proof {
                let longer = bytes@.push(byte);
                assert forall|k: int| 0 <= k < longer.len() implies #[trigger] byte_read(
                    self,
                    at,
                    longer,
                    k,
                ) by {
                    if k < bytes@.len() {
                        assert(byte_read(self, at, bytes@, k));
                    }
                }
                assert forall|k: int| 0 <= k < longer.len() - 1 implies continues(
                    #[trigger] longer[k],
                ) by {
                    assert(continues(bytes@[k]));
                }
                if byte >= 0x80 {
                    assert forall|k: int| 0 <= k < longer.len() implies continues(
                        #[trigger] longer[k],
                    ) by {
                        if k < bytes@.len() {
                            assert(continues(bytes@[k]));
                        }
                    }
                }
            }
            bytes.push(byte);
            if byte < 0x80 {
                let value = uleb128_from(&bytes);
                proof {
                    assert(reads_bytewise(self, at, bytes@));
                    assert(bytes@.last() == byte);
                    assert(is_uleb128(bytes@));
                }
                return Ok(value);
            }
        }
        Err(ProcessError::ConvertionError)
    }

    /// Reads the string structure at `addr` and decodes its characters
    /// leniently; a length above `limit`, where there is one, is refused
    /// before the characters are read.
    fn read_string_limited(&self, addr: Address, limit: Option<usize>) -> (r: Result<
        String,
        ProcessError,
    >)
        ensures
            string_outcome(self, addr.spec_to_usize(), limit, chars_in(r)),
    {
        let ghost at = addr.spec_to_usize();
        let base = match addr.to_usize() {
            Ok(base) => base,
            Err(e) => {
                return Err(e);
            },
        };
        let len_at = match base.checked_add(STRING_LENGTH) {
            Some(a) => a,
            None => {
                return Err(ProcessError::AddressConvertError);
            },
        };
        let count = match self.read_u32(Address::Native(len_at)) {
            Ok(count) => count,
            Err(e) => {
                return Err(e);
            },
        };
        assert(reads_value(self, shift(at, STRING_LENGTH as int), FIELD_WIDTH, false, count as int));
        let fits = match limit {
            Some(max) => count as u64 <= max as u64,
            None => true,
        };
        if !fits || count as u64 > (usize::MAX / CHAR_WIDTH) as u64 {
            proof {
                assert(string_read(
                    self,
                    at,
                    limit,
                    count as int,
                    Err(ProcessError::StringTooLarge),
                ));
            }
            return Err(ProcessError::StringTooLarge);
        }
        let len: usize = CHAR_WIDTH * (count as usize);
        let data_at = match base.checked_add(STRING_CHARS) {
            Some(a) => a,
            None => {
                proof {
                    let failed = Err::<Seq<u8>, ProcessError>(ProcessError::AddressConvertError);
                    assert(read_outcome(self, shift(at, STRING_CHARS as int), len, failed));
                    assert(string_read(self, at, limit, count as int, decoded(failed)));
                }
                return Err(ProcessError::AddressConvertError);
            },
        };
        let data = match self.read(Address::Native(data_at), len) {
            Ok(data) => data,
            Err(e) => {
                proof {
                    let failed = Err::<Seq<u8>, ProcessError>(e);
                    assert(read_outcome(self, shift(at, STRING_CHARS as int), len, failed));
                    assert(string_read(self, at, limit, count as int, decoded(failed)));
                }
                return Err(e);
            },
        };
        let units = utf16_units_from_le(&data);
        let text = string_of(&decode_utf16_lossy(&units));
        proof {
            let read = Ok::<Seq<u8>, ProcessError>(data@);
            assert(read_outcome(self, shift(at, STRING_CHARS as int), len, read));
            assert(string_read(self, at, limit, count as int, decoded(read)));
        }
        Ok(text)
    }

    /// Reads the string structure at `addr`: a 4-byte length at offset 4,
    /// then that many UTF-16 characters from offset 8 on, decoded leniently.
    fn read_string(&self, addr: Address) -> (r: Result<String, ProcessError>)
        ensures
            string_outcome(self, addr.spec_to_usize(), None, chars_in(r)),
    {
        self.read_string_limited(addr, None)
    }

    /// As `read_string`, but a string of more than `limit` characters is a
    /// `StringTooLarge`, found before its characters are read.
    fn read_string_with_limit(&self, addr: Address, limit: usize) -> (r: Result<
        String,
        ProcessError,
    >)
        ensures
            string_outcome(self, addr.spec_to_usize(), Some(limit), chars_in(r)),
    {
        self.read_string_limited(addr, Some(limit))
    }

    /// Reads the 4-byte pointer at `addr` and then the string structure that
    /// it points to.
    fn read_string_from_ptr(&self, addr: Address) -> (r: Result<String, ProcessError>)
        ensures
            string_ptr_outcome(self, addr.spec_to_usize(), chars_in(r)),
    {
        let ptr = match self.read_i32(addr) {
            Ok(ptr) => ptr,
            Err(e) => {
                return Err(e);
            },
        };
        let r = self.read_string(Address::I32(ptr));
        proof {
            assert(string_ptr_read(self, addr.spec_to_usize(), ptr, chars_in(r)));
        }
        r
    }

    /// Reads the element bytes of the array whose header is at `addr`, where
    /// an element takes `width` bytes. What comes back holds whole elements
    /// only.
    fn read_array_data(&self, addr: Address, width: usize) -> (r: Result<Vec<u8>, ProcessError>)
        ensures
            array_outcome(self, addr.spec_to_usize(), width, bytes_of(r)),
            r matches Ok(data) ==> width > 0 ==> data@.len() as int % (width as int) == 0,
    {
        let ghost at = addr.spec_to_usize();
        let base = match addr.to_usize() {
            Ok(base) => base,
            Err(e) => {
                return Err(e);
            },
        };
        let ptr_at = match base.checked_add(ARRAY_POINTER) {
            Some(a) => a,
            None => {
                return Err(ProcessError::AddressConvertError);
            },
        };
        let ptr = match self.read_i32(Address::Native(ptr_at)) {
            Ok(ptr) => ptr,
            Err(e) => {
                return Err(e);
            },
        };
        assert(reads_value(self, shift(at, ARRAY_POINTER as int), FIELD_WIDTH, true, ptr as int));
        let count_at = match base.checked_add(ARRAY_COUNT) {
            Some(a) => a,
            None => {
                return Err(ProcessError::AddressConvertError);
            },
        };
        let count = match self.read_i32(Address::Native(count_at)) {
            Ok(count) => count,
            Err(e) => {
                return Err(e);
            },
        };
        assert(reads_value(self, shift(at, ARRAY_COUNT as int), FIELD_WIDTH, true, count as int));
        let len = if count < 0 {
            None
        } else {
            (count as usize).checked_mul(width)
        };
        let len = match len {
            Some(len) => len,
            None => {
                proof {
                    assert(array_read(
                        self,
                        at,
                        width,
                        ptr,
                        count,
                        Err(ProcessError::ConvertionError),
                    ));
                }
                return Err(ProcessError::ConvertionError);
            },
        };
        let r = match Address::I32(ptr).offset(ARRAY_ELEMENTS) {
            Ok(data_at) => self.read(Address::Native(data_at), len),
            Err(e) => Err(e),
        };
        proof {
            assert(array_read(self, at, width, ptr, count, bytes_of(r)));
            if width > 0 {
                lemma_mod_multiples_basic(count as int, width as int);
            }
        }
        r
    }

    /// Reads the array of `u8` whose header is at `addr` into `buff`, which
    /// then holds the elements of the array and nothing else. Where the read
    /// fails, `buff` is as it was.
    fn read_u8_array(&self, addr: Address, buff: &mut Vec<u8>) -> (r: Result<(), ProcessError>)
        ensures
            match r {
                Ok(()) => exists|data: Seq<u8>|
                    {
                        &&& #[trigger] array_outcome(self, addr.spec_to_usize(), 1, Ok(data))
                        &&& final(buff)@.len() * 1 == data.len()
                        &&& forall|i: int|
                            0 <= i < final(buff)@.len() ==> (#[trigger] final(buff)@[i]) == number(
                                element(data, 1, i),
                                false,
                            )
                    },
                Err(e) => array_outcome(self, addr.spec_to_usize(), 1, Err(e)) && final(buff)@ == old(
                    buff,
                )@,
            },
    {
        match self.read_array_data(addr, 1) {
            Ok(data) => {
                assert(data@.len() % 1 == 0);
                let items = u8_array_from_le(&data);
                proof {
                    assert(array_outcome(self, addr.spec_to_usize(), 1, Ok(data@)));
                    assert(items@.len() * 1 == data@.len());
                }
                *buff = items;
                Ok(())
            },
            Err(e) => Err(e),
        }
    }

    /// Reads the array of `u16` whose header is at `addr` into `buff`, which
    /// then holds the elements of the array and nothing else. Where the read
    /// fails, `buff` is as it was.
    fn read_u16_array(&self, addr: Address, buff: &mut Vec<u16>) -> (r: Result<(), ProcessError>)
        ensures
            match r {
                Ok(()) => exists|data: Seq<u8>|
                    {
                        &&& #[trigger] array_outcome(self, addr.spec_to_usize(), 2, Ok(data))
                        &&& final(buff)@.len() * 2 == data.len()
                        &&& forall|i: int|
                            0 <= i < final(buff)@.len() ==> (#[trigger] final(buff)@[i]) == number(
                                element(data, 2, i),
                                false,
                            )
                    },
                Err(e) => array_outcome(self, addr.spec_to_usize(), 2, Err(e)) && final(buff)@ == old(
                    buff,
                )@,
            },
    {
        match self.read_array_data(addr, 2) {
            Ok(data) => {
                assert(data@.len() % 2 == 0);
                let items = u16_array_from_le(&data);
                proof {
                    assert(array_outcome(self, addr.spec_to_usize(), 2, Ok(data@)));
                    assert(items@.len() * 2 == data@.len());
                }
                *buff = items;
                Ok(())
            },
            Err(e) => Err(e),
        }
    }

    /// Reads the array of `u32` whose header is at `addr` into `buff`, which
    /// then holds the elements of the array and nothing else. Where the read
    /// fails, `buff` is as it was.
    fn read_u32_array(&self, addr: Address, buff: &mut Vec<u32>) -> (r: Result<(), ProcessError>)
        ensures
            match r {
                Ok(()) => exists|data: Seq<u8>|
                    {
                        &&& #[trigger] array_outcome(self, addr.spec_to_usize(), 4, Ok(data))
                        &&& final(buff)@.len() * 4 == data.len()
                        &&& forall|i: int|
                            0 <= i < final(buff)@.len() ==> (#[trigger] final(buff)@[i]) == number(
                                element(data, 4, i),
                                false,
                            )
                    },
                Err(e) => array_outcome(self, addr.spec_to_usize(), 4, Err(e)) && final(buff)@ == old(
                    buff,
                )@,
            },
    {
        match self.read_array_data(addr, 4) {
            Ok(data) => {
                assert(data@.len() % 4 == 0);
                let items = u32_array_from_le(&data);
                proof {
                    assert(array_outcome(self, addr.spec_to_usize(), 4, Ok(data@)));
                    assert(items@.len() * 4 == data@.len());
                }
                *buff = items;
                Ok(())
            },
            Err(e) => Err(e),
        }
    }

    /// Reads the array of `u64` whose header is at `addr` into `buff`, which
    /// then holds the elements of the array and nothing else. Where the read
    /// fails, `buff` is as it was.
    fn read_u64_array(&self, addr: Address, buff: &mut Vec<u64>) -> (r: Result<(), ProcessError>)
        ensures
            match r {
                Ok(()) => exists|data: Seq<u8>|
                    {
                        &&& #[trigger] array_outcome(self, addr.spec_to_usize(), 8, Ok(data))
                        &&& final(buff)@.len() * 8 == data.len()
                        &&& forall|i: int|
                            0 <= i < final(buff)@.len() ==> (#[trigger] final(buff)@[i]) == number(
                                element(data, 8, i),
                                false,
                            )
                    },
                Err(e) => array_outcome(self, addr.spec_to_usize(), 8, Err(e)) && final(buff)@ == old(
                    buff,
                )@,
            },
    {
        match self.read_array_data(addr, 8) {
            Ok(data) => {
                assert(data@.len() % 8 == 0);
                let items = u64_array_from_le(&data);
                proof {
                    assert(array_outcome(self, addr.spec_to_usize(), 8, Ok(data@)));
                    assert(items@.len() * 8 == data@.len());
                }
                *buff = items;
                Ok(())
            },
            Err(e) => Err(e),
        }
    }

    /// Reads the array of `u128` whose header is at `addr` into `buff`, which
    /// then holds the elements of the array and nothing else. Where the read
    /// fails, `buff` is as it was.
    fn read_u128_array(&self, addr: Address, buff: &mut Vec<u128>) -> (r: Result<(), ProcessError>)
        ensures
            match r {
                Ok(()) => exists|data: Seq<u8>|
                    {
                        &&& #[trigger] array_outcome(self, addr.spec_to_usize(), 16, Ok(data))
                        &&& final(buff)@.len() * 16 == data.len()
                        &&& forall|i: int|
                            0 <= i < final(buff)@.len() ==> (#[trigger] final(buff)@[i]) == number(
                                element(data, 16, i),
                                false,
                            )
                    },
                Err(e) => array_outcome(self, addr.spec_to_usize(), 16, Err(e)) && final(buff)@ == old(
                    buff,
                )@,
            },
    {
        match self.read_array_data(addr, 16) {
            Ok(data) => {
                assert(data@.len() % 16 == 0);
                let items = u128_array_from_le(&data);
                proof {
                    assert(array_outcome(self, addr.spec_to_usize(), 16, Ok(data@)));
                    assert(items@.len() * 16 == data@.len());
                }
                *buff = items;
                Ok(())
            },
            Err(e) => Err(e),
        }
    }

    /// Reads the array of `i8` whose header is at `addr` into `buff`, which
    /// then holds the elements of the array and nothing else. Where the read
    /// fails, `buff` is as it was.
    fn read_i8_array(&self, addr: Address, buff: &mut Vec<i8>) -> (r: Result<(), ProcessError>)
        ensures
            match r {
                Ok(()) => exists|data: Seq<u8>|
                    {
                        &&& #[trigger] array_outcome(self, addr.spec_to_usize(), 1, Ok(data))
                        &&& final(buff)@.len() * 1 == data.len()
                        &&& forall|i: int|
                            0 <= i < final(buff)@.len() ==> (#[trigger] final(buff)@[i]) == number(
                                element(data, 1, i),
                                true,
                            )
                    },
                Err(e) => array_outcome(self, addr.spec_to_usize(), 1, Err(e)) && final(buff)@ == old(
                    buff,
                )@,
            },
    {
        match self.read_array_data(addr, 1) {
            Ok(data) => {
                assert(data@.len() % 1 == 0);
                let items = i8_array_from_le(&data);
                proof {
                    assert(array_outcome(self, addr.spec_to_usize(), 1, Ok(data@)));
                    assert(items@.len() * 1 == data@.len());
                }
                *buff = items;
                Ok(())
            },
            Err(e) => Err(e),
        }
    }

    /// Reads the array of `i16` whose header is at `addr` into `buff`, which
    /// then holds the elements of the array and nothing else. Where the read
    /// fails, `buff` is as it was.
    fn read_i16_array(&self, addr: Address, buff: &mut Vec<i16>) -> (r: Result<(), ProcessError>)
        ensures
            match r {
                Ok(()) => exists|data: Seq<u8>|
                    {
                        &&& #[trigger] array_outcome(self, addr.spec_to_usize(), 2, Ok(data))
                        &&& final(buff)@.len() * 2 == data.len()
                        &&& forall|i: int|
                            0 <= i < final(buff)@.len() ==> (#[trigger] final(buff)@[i]) == number(
                                element(data, 2, i),
                                true,
                            )
                    },
                Err(e) => array_outcome(self, addr.spec_to_usize(), 2, Err(e)) && final(buff)@ == old(
                    buff,
                )@,
            },
    {
        match self.read_array_data(addr, 2) {
            Ok(data) => {
                assert(data@.len() % 2 == 0);
                let items = i16_array_from_le(&data);
                proof {
                    assert(array_outcome(self, addr.spec_to_usize(), 2, Ok(data@)));
                    assert(items@.len() * 2 == data@.len());
                }
                *buff = items;
                Ok(())
            },
            Err(e) => Err(e),
        }
    }

    /// Reads the array of `i32` whose header is at `addr` into `buff`, which
    /// then holds the elements of the array and nothing else. Where the read
    /// fails, `buff` is as it was.
    fn read_i32_array(&self, addr: Address, buff: &mut Vec<i32>) -> (r: Result<(), ProcessError>)
        ensures
            match r {
                Ok(()) => exists|data: Seq<u8>|
                    {
                        &&& #[trigger] array_outcome(self, addr.spec_to_usize(), 4, Ok(data))
                        &&& final(buff)@.len() * 4 == data.len()
                        &&& forall|i: int|
                            0 <= i < final(buff)@.len() ==> (#[trigger] final(buff)@[i]) == number(
                                element(data, 4, i),
                                true,
                            )
                    },
                Err(e) => array_outcome(self, addr.spec_to_usize(), 4, Err(e)) && final(buff)@ == old(
                    buff,
                )@,
            },
    {
        match self.read_array_data(addr, 4) {
            Ok(data) => {
                assert(data@.len() % 4 == 0);
                let items = i32_array_from_le(&data);
                proof {
                    assert(array_outcome(self, addr.spec_to_usize(), 4, Ok(data@)));
                    assert(items@.len() * 4 == data@.len());
                }
                *buff = items;
                Ok(())
            },
            Err(e) => Err(e),
        }
    }

    /// Reads the array of `i64` whose header is at `addr` into `buff`, which
    /// then holds the elements of the array and nothing else. Where the read
    /// fails, `buff` is as it was.
    fn read_i64_array(&self, addr: Address, buff: &mut Vec<i64>) -> (r: Result<(), ProcessError>)
        ensures
            match r {
                Ok(()) => exists|data: Seq<u8>|
                    {
                        &&& #[trigger] array_outcome(self, addr.spec_to_usize(), 8, Ok(data))
                        &&& final(buff)@.len() * 8 == data.len()
                        &&& forall|i: int|
                            0 <= i < final(buff)@.len() ==> (#[trigger] final(buff)@[i]) == number(
                                element(data, 8, i),
                                true,
                            )
                    },
                Err(e) => array_outcome(self, addr.spec_to_usize(), 8, Err(e)) && final(buff)@ == old(
                    buff,
                )@,
            },
    {
        match self.read_array_data(addr, 8) {
            Ok(data) => {
                assert(data@.len() % 8 == 0);
                let items = i64_array_from_le(&data);
                proof {
                    assert(array_outcome(self, addr.spec_to_usize(), 8, Ok(data@)));
                    assert(items@.len() * 8 == data@.len());
                }
                *buff = items;
                Ok(())
            },
            Err(e) => Err(e),
        }
    }

    /// Reads the array of `i128` whose header is at `addr` into `buff`, which
    /// then holds the elements of the array and nothing else. Where the read
    /// fails, `buff` is as it was.
    fn read_i128_array(&self, addr: Address, buff: &mut Vec<i128>) -> (r: Result<(), ProcessError>)
        ensures
            match r {
                Ok(()) => exists|data: Seq<u8>|
                    {
                        &&& #[trigger] array_outcome(self, addr.spec_to_usize(), 16, Ok(data))
                        &&& final(buff)@.len() * 16 == data.len()
                        &&& forall|i: int|
                            0 <= i < final(buff)@.len() ==> (#[trigger] final(buff)@[i]) == number(
                                element(data, 16, i),
                                true,
                            )
                    },
                Err(e) => array_outcome(self, addr.spec_to_usize(), 16, Err(e)) && final(buff)@ == old(
                    buff,
                )@,
            },
    {
        match self.read_array_data(addr, 16) {
            Ok(data) => {
                assert(data@.len() % 16 == 0);
                let items = i128_array_from_le(&data);
                proof {
                    assert(array_outcome(self, addr.spec_to_usize(), 16, Ok(data@)));
                    assert(items@.len() * 16 == data@.len());
                }
                *buff = items;
                Ok(())
            },
            Err(e) => Err(e),
        }
    }
}

/// Every reader has the typed reads, as they are provided.
impl<R: RawReader> ProcessTraits for R {

}

} // verus!
