use vstd::prelude::*;
use crate::error::ProcessError;

verus! {

/// An address in the width the target process uses for its pointers.
#[derive(Debug, Clone, Copy, PartialEq, Eq, Structural)]
pub enum Address {
    Native(usize),
    I64(i64),
    I32(i32),
}

impl Address {
    /// The address as a mathematical integer.
    pub open spec fn value(&self) -> int {
        match *self {
            Address::Native(a) => a as int,
            Address::I64(a) => a as int,
            Address::I32(a) => a as int,
        }
    }

    /// The address `delta` bytes further on, where the canonical address type
    /// can hold it.
    pub open spec fn spec_offset(&self, delta: int) -> Result<usize, ProcessError> {
        if 0 <= self.value() + delta <= usize::MAX {
            Ok((self.value() + delta) as usize)
        } else {
            Err(ProcessError::AddressConvertError)
        }
    }

    /// The address in the canonical type.
    pub open spec fn spec_to_usize(&self) -> Result<usize, ProcessError> {
        self.spec_offset(0)
    }

    /// Converts to the canonical address type; a negative address, or one
    /// beyond the type, is a conversion failure.
    pub fn to_usize(&self) -> (r: Result<usize, ProcessError>)
        ensures
            r == self.spec_to_usize(),
    {
        self.offset(0)
    }

    /// The canonical address `delta` bytes after this one; fails where the
    /// sum is negative or beyond the canonical type.
    pub fn offset(&self, delta: usize) -> (r: Result<usize, ProcessError>)
        ensures
            r == self.spec_offset(delta as int),
    {
        match *self {
            Address::Native(a) => match a.checked_add(delta) {
                Some(sum) => Ok(sum),
                None => Err(ProcessError::AddressConvertError),
            },
            Address::I64(a) => Self::signed_offset(a as i128, delta),
            Address::I32(a) => Self::signed_offset(a as i128, delta),
        }
    }

    /// The canonical address `addr` as a signed address of 32 bits, where
    /// that width can hold it.
    pub open spec fn spec_narrow_i32(addr: usize) -> Result<i32, ProcessError> {
        if addr <= i32::MAX {
            Ok(addr as i32)
        } else {
            Err(ProcessError::AddressConvertError)
        }
    }

    /// The canonical address `addr` as a signed address of 64 bits, where
    /// that width can hold it.
    pub open spec fn spec_narrow_i64(addr: usize) -> Result<i64, ProcessError> {
        if addr <= i64::MAX {
            Ok(addr as i64)
        } else {
            Err(ProcessError::AddressConvertError)
        }
    }

    /// Converts a canonical address to a signed address of 32 bits; one that
    /// the width cannot hold is a conversion failure.
    pub fn narrow_i32(addr: usize) -> (r: Result<i32, ProcessError>)
        ensures
            r == Self::spec_narrow_i32(addr),
    {
        if addr <= 0x7fff_ffff {
            Ok(addr as i32)
        } else {
            Err(ProcessError::AddressConvertError)
        }
    }

    /// Converts a canonical address to a signed address of 64 bits; one that
    /// the width cannot hold is a conversion failure.
    pub fn narrow_i64(addr: usize) -> (r: Result<i64, ProcessError>)
        ensures
            r == Self::spec_narrow_i64(addr),
    {
        if addr as u64 <= 0x7fff_ffff_ffff_ffff {
            Ok(addr as i64)
        } else {
            Err(ProcessError::AddressConvertError)
        }
    }

    /// The canonical address `delta` bytes after the signed address `base`.
    fn signed_offset(base: i128, delta: usize) -> (r: Result<usize, ProcessError>)
        requires
            i64::MIN <= base <= i64::MAX,
        ensures
            r == (if 0 <= base + delta <= usize::MAX {
                Ok::<usize, ProcessError>((base + delta) as usize)
            } else {
                Err(ProcessError::AddressConvertError)
            }),
    {
        let sum: i128 = base + (delta as i128);
        if sum < 0 || sum > (usize::MAX as i128) {
            Err(ProcessError::AddressConvertError)
        } else {
            Ok(sum as usize)
        }
    }
}

/// Converts one sample address of each width. That each comes out as its
/// value is proved, so running it shows nothing new.
pub fn test_xd() {
    let value_i32 = Address::I32(1337);
    let value_i64 = Address::I64(1338);
    let value_usize = Address::Native(1339);
    let a = value_i32.to_usize();
    let b = value_i64.to_usize();
    let c = value_usize.to_usize();
    assert(a == Ok::<usize, ProcessError>(1337));
    assert(b == Ok::<usize, ProcessError>(1338));
    assert(c == Ok::<usize, ProcessError>(1339));
}

} // verus!
