//! Scanning the region catalogue for a signature.

use vstd::prelude::*;
use crate::address::Address;
use crate::error::{OsFault, ProcessError};
use crate::process::{MemoryRegion, Process, RawReader};
use crate::signature::{find_signature, render, scan, Signature, SignatureByte};

verus! {

/// What the scan does after it has read one region.
#[derive(Debug)]
pub enum ScanStep {
    /// The signature starts at this address: the scan ends.
    Found(usize),
    /// Nothing here: the scan goes on with the next region.
    Next,
    /// The scan ends with this error.
    Abort(ProcessError),
}

/// The bytes of a region read that succeeded.
pub open spec fn region_bytes(read: Result<Vec<u8>, OsFault>) -> Result<Seq<u8>, OsFault> {
    match read {
        Ok(bytes) => Ok(bytes@),
        Err(fault) => Err(fault),
    }
}

/// The step that follows the read of one region. A region that could not be
/// read is passed over, unless the fault is fatal: then the scan ends with
/// the fault's code. In a region that was read, the leftmost match decides:
/// its address is the region's base plus the offset, an `AddressConvertError`
/// where the address space cannot hold that, and without a match the scan
/// goes on.
pub open spec fn scan_step(
    region: MemoryRegion,
    read: Result<Seq<u8>, OsFault>,
    pattern: Seq<SignatureByte>,
) -> ScanStep {
    match read {
        Err(fault) => if fault.is_fatal() {
            ScanStep::Abort(ProcessError::OsError(fault.code))
        } else {
            ScanStep::Next
        },
        Ok(bytes) => match scan(bytes, pattern) {
            Some(offset) => if region.from + offset <= usize::MAX {
                ScanStep::Found((region.from + offset) as usize)
            } else {
                ScanStep::Abort(ProcessError::AddressConvertError)
            },
            None => ScanStep::Next,
        },
    }
}

/// Decides the step that follows the read of one region.
pub fn scan_region(region: &MemoryRegion, read: &Result<Vec<u8>, OsFault>, sign: &Signature) -> (step:
    ScanStep)
    ensures
        step == scan_step(*region, region_bytes(*read), sign@),
{
    match read {
        Err(fault) => if fault.fatal() {
            ScanStep::Abort(ProcessError::OsError(fault.code))
        } else {
            ScanStep::Next
        },
        Ok(bytes) => match find_signature(bytes.as_slice(), sign) {
            Some(offset) => match region.from.checked_add(offset) {
                Some(address) => ScanStep::Found(address),
                None => ScanStep::Abort(ProcessError::AddressConvertError),
            },
            None => ScanStep::Next,
        },
    }
}

/// A region that cannot be read costs the scan that region only, unless the
/// fault is fatal.
pub proof fn lemma_inaccessible_region_is_passed_over(
    region: MemoryRegion,
    fault: OsFault,
    pattern: Seq<SignatureByte>,
)
    requires
        !fault.is_fatal(),
    ensures
        scan_step(region, Err(fault), pattern) == ScanStep::Next,
{
}

/// May the read of the whole of `region` come to `read`?
pub open spec fn region_read<P: RawReader>(
    p: &P,
    region: MemoryRegion,
    read: Result<Seq<u8>, OsFault>,
) -> bool {
    match read {
        Ok(bytes) => p.may_read(region.from, region.size, bytes),
        Err(fault) => p.may_fail(region.from, region.size, fault),
    }
}

/// Are `reads` what the reads of the first regions of `maps` may come to, one
/// read a region and in catalogue order, with every one before the last
/// leaving the scan to go on?
pub open spec fn scan_trace<P: RawReader>(
    p: &P,
    maps: Seq<MemoryRegion>,
    pattern: Seq<SignatureByte>,
    reads: Seq<Result<Seq<u8>, OsFault>>,
) -> bool {
    &&& reads.len() <= maps.len()
    &&& forall|i: int| 0 <= i < reads.len() ==> region_read(p, maps[i], #[trigger] reads[i])
    &&& forall|i: int|
        0 <= i < reads.len() - 1 ==> scan_step(maps[i], #[trigger] reads[i], pattern)
            == ScanStep::Next
}

/// Is `r` what a scan of `maps` for `pattern` may come to? The regions are
/// read in catalogue order up to the first whose step ends the scan: a match
/// gives its address, an abort its error. Where every region was read and
/// none ended the scan, the result is `SignatureNotFound` with the pattern's
/// text.
pub open spec fn scan_outcome<P: RawReader>(
    p: &P,
    maps: Seq<MemoryRegion>,
    pattern: Seq<SignatureByte>,
    r: Result<usize, ProcessError>,
) -> bool {
    exists|reads: Seq<Result<Seq<u8>, OsFault>>| #[trigger]
        scan_trace(p, maps, pattern, reads) && {
            let last = reads.len() - 1;
            match r {
                Ok(address) => reads.len() > 0 && scan_step(maps[last], reads[last], pattern)
                    == ScanStep::Found(address),
                Err(e) => if reads.len() > 0 && scan_step(maps[last], reads[last], pattern)
                    != ScanStep::Next {
                    scan_step(maps[last], reads[last], pattern) == ScanStep::Abort(e)
                } else {
                    &&& reads.len() == maps.len()
                    &&& e matches ProcessError::SignatureNotFound(text)
                    &&& text@ == render(pattern)
                },
            }
        }
}

/// A match in a later region is found: where every read of the regions before
/// region `k` leaves the scan to go on, as the read of a region that holds no
/// match does and the read of one that cannot be reached, and every read of
/// region `k` finds the signature at `address`, the scan gives `address`.
pub proof fn lemma_scan_finds_later_match<P: RawReader>(
    p: &P,
    maps: Seq<MemoryRegion>,
    pattern: Seq<SignatureByte>,
    k: int,
    address: usize,
    r: Result<usize, ProcessError>,
)
    requires
        0 <= k < maps.len(),
        forall|i: int, read: Result<Seq<u8>, OsFault>|
            0 <= i < k && #[trigger] region_read(p, maps[i], read) ==> scan_step(
                maps[i],
                read,
                pattern,
            ) == ScanStep::Next,
        forall|read: Result<Seq<u8>, OsFault>| #[trigger]
            region_read(p, maps[k], read) ==> scan_step(maps[k], read, pattern) == ScanStep::Found(
                address,
            ),
        scan_outcome(p, maps, pattern, r),
    ensures
        r == Ok::<usize, ProcessError>(address),
{
    let reads = choose|reads: Seq<Result<Seq<u8>, OsFault>>| #[trigger]
        scan_trace(p, maps, pattern, reads) && {
            let last = reads.len() - 1;
            match r {
                Ok(found) => reads.len() > 0 && scan_step(maps[last], reads[last], pattern)
                    == ScanStep::Found(found),
                Err(e) => if reads.len() > 0 && scan_step(maps[last], reads[last], pattern)
                    != ScanStep::Next {
                    scan_step(maps[last], reads[last], pattern) == ScanStep::Abort(e)
                } else {
                    &&& reads.len() == maps.len()
                    &&& e matches ProcessError::SignatureNotFound(text)
                    &&& text@ == render(pattern)
                },
            }
        };
    let last = reads.len() - 1;
    if reads.len() > k + 1 {
        assert(region_read(p, maps[k], reads[k]));
        assert(scan_step(maps[k], reads[k], pattern) == ScanStep::Next);
    } else if reads.len() == k + 1 {
        assert(region_read(p, maps[k], reads[k]));
    } else if reads.len() > 0 {
        assert(region_read(p, maps[last], reads[last]));
    }
}

/// What a scan comes to for a caller whose addresses are signed and of 32
/// bits: the address found, in that width, or an `AddressConvertError` where
/// the width cannot hold it; the error of a scan that found none.
pub open spec fn narrowed_i32(found: Result<usize, ProcessError>) -> Result<i32, ProcessError> {
    match found {
        Ok(address) => Address::spec_narrow_i32(address),
        Err(e) => Err(e),
    }
}

/// What a scan comes to for a caller whose addresses are signed and of 64
/// bits.
pub open spec fn narrowed_i64(found: Result<usize, ProcessError>) -> Result<i64, ProcessError> {
    match found {
        Ok(address) => Address::spec_narrow_i64(address),
        Err(e) => Err(e),
    }
}

impl Process {
    /// Scans the catalogued regions for the signature, region by region in
    /// catalogue order, each read in one call of the source's primitive, and
    /// gives the address of the first match. A region that cannot be read is
    /// passed over; a permission or missing-process fault ends the scan at
    /// once. Fails with `SignatureNotFound` only after every region was
    /// scanned without a match.
    pub fn read_signature<R: RawReader>(&self, source: &R, sign: &Signature) -> (r: Result<
        usize,
        ProcessError,
    >)
        ensures
            scan_outcome(source, self.maps@, sign@, r),
    {
        let ghost mut reads: Seq<Result<Seq<u8>, OsFault>> = Seq::empty();
        let mut i: usize = 0;
        while i < self.maps.len()
            invariant
                i <= self.maps@.len(),
                reads.len() == i,
                scan_trace(source, self.maps@, sign@, reads),
                i > 0 ==> scan_step(self.maps@[i - 1], reads[i - 1], sign@) == ScanStep::Next,
            decreases self.maps.len() - i,
        {
            let region = self.maps[i];
            let read = source.read_bytes(region.from, region.size);
            let step = scan_region(&region, &read, sign);
            proof {
                let longer = reads.push(region_bytes(read));
                assert forall|k: int| 0 <= k < longer.len() implies region_read(
                    source,
                    self.maps@[k],
                    #[trigger] longer[k],
                ) by {
                    if k < reads.len() {
                        assert(longer[k] == reads[k]);
                    }
                }
                assert forall|k: int| 0 <= k < longer.len() - 1 implies scan_step(
                    self.maps@[k],
                    #[trigger] longer[k],
                    sign@,
                ) == ScanStep::Next by {
                    assert(longer[k] == reads[k]);
                }
                reads = longer;
                assert(scan_trace(source, self.maps@, sign@, reads));
            }
            match step {
                ScanStep::Found(address) => {
                    return Ok(address);
                },
                ScanStep::Abort(e) => {
                    return Err(e);
                },
                ScanStep::Next => {},
            }
            i += 1;
        }
        Err(ProcessError::SignatureNotFound(sign.to_string()))
    }

    /// As `read_signature`, for a target whose addresses are signed and of
    /// 32 bits: the address found comes in that width, and one that the
    /// width cannot hold is an `AddressConvertError`.
    pub fn read_signature_i32<R: RawReader>(&self, source: &R, sign: &Signature) -> (r: Result<
        i32,
        ProcessError,
    >)
        ensures
            exists|found: Result<usize, ProcessError>| #[trigger]
                scan_outcome(source, self.maps@, sign@, found) && r == narrowed_i32(found),
    {
        let found = self.read_signature(source, sign);
        let ghost scanned = found;
        let r = match found {
            Ok(address) => Address::narrow_i32(address),
            Err(e) => Err(e),
        };
        proof {
            assert(scan_outcome(source, self.maps@, sign@, scanned) && r == narrowed_i32(scanned));
        }
        r
    }

    /// As `read_signature`, for a target whose addresses are signed and of
    /// 64 bits.
    pub fn read_signature_i64<R: RawReader>(&self, source: &R, sign: &Signature) -> (r: Result<
        i64,
        ProcessError,
    >)
        ensures
            exists|found: Result<usize, ProcessError>| #[trigger]
                scan_outcome(source, self.maps@, sign@, found) && r == narrowed_i64(found),
    {
        let found = self.read_signature(source, sign);
        let ghost scanned = found;
        let r = match found {
            Ok(address) => Address::narrow_i64(address),
            Err(e) => Err(e),
        };
        proof {
            assert(scan_outcome(source, self.maps@, sign@, scanned) && r == narrowed_i64(scanned));
        }
        r
    }
}

} // verus!
