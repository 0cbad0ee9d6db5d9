//! Memory that was read before, kept to be read again without a call into
//! the target.

use vstd::prelude::*;
use crate::backing::{exact_read, holds};
use crate::error::{FaultKind, OsFault};
use crate::process::RawReader;

verus! {

/// A copy of the bytes that the target held from the address `base` on. It
/// reads like the target itself: within the copy every read succeeds, and one
/// that reaches outside fails as a read of an unmapped range does.
#[derive(Debug)]
pub struct Snapshot {
    pub base: usize,
    pub bytes: Vec<u8>,
}

impl Snapshot {
    /// Does the range of `len` bytes at `addr` lie within the copy?
    pub open spec fn covers(&self, addr: usize, len: usize) -> bool {
        self.base <= addr && addr + len <= self.base + self.bytes@.len()
    }

    /// The fault of a read that reaches outside the copy.
    pub open spec fn outside() -> OsFault {
        OsFault { kind: FaultKind::BadAddress, code: 0 }
    }

    /// A snapshot holds its bytes at its base, where the address space can
    /// hold the range.
    pub proof fn lemma_holds(&self)
        requires
            self.base + self.bytes@.len() <= usize::MAX,
        ensures
            holds(self, self.base, self.bytes@),
    {
        assert forall|a: usize, len: usize|
            self.base <= a && a + len <= self.base + self.bytes@.len() implies #[trigger] exact_read(
            self,
            a,
            len,
            self.bytes@.subrange(a - self.base, a - self.base + len),
        ) by {}
    }
}

impl RawReader for Snapshot {
    /// A read may hand back the bytes of the copy under its range, and
    /// nothing else.
    open spec fn may_read(&self, addr: usize, len: usize, bytes: Seq<u8>) -> bool {
        self.covers(addr, len) && bytes == self.bytes@.subrange(
            addr - self.base,
            addr - self.base + len,
        )
    }

    /// A read may fail where its range reaches outside the copy, and nowhere
    /// else.
    open spec fn may_fail(&self, addr: usize, len: usize, fault: OsFault) -> bool {
        !self.covers(addr, len) && fault == Self::outside()
    }

    /// The bytes of the copy under the range, or the fault of a read that
    /// reaches outside.
    fn read_bytes(&self, addr: usize, len: usize) -> (r: Result<Vec<u8>, OsFault>) {
        if addr < self.base || addr - self.base > self.bytes.len() || len > self.bytes.len() - (addr
            - self.base) {
            return Err(OsFault { kind: FaultKind::BadAddress, code: 0 });
        }
        let start: usize = addr - self.base;
        let mut out: Vec<u8> = Vec::new();
        let mut i: usize = 0;
        while i < len
            invariant
                i <= len,
                start + len <= self.bytes@.len() <= usize::MAX,
                out@ == self.bytes@.subrange(start as int, start + i),
            decreases len - i,
        {
            out.push(self.bytes[start + i]);
            i += 1;
        }
        Ok(out)
    }
}

} // verus!
