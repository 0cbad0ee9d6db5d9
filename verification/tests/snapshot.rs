use rosu_mem::address::Address;
use rosu_mem::error::{FaultKind, ProcessError};
use rosu_mem::process::{MemoryRegion, Process, ProcessTraits, RawReader};
use rosu_mem::signature::Signature;
use rosu_mem::snapshot::Snapshot;

#[test]
fn test_snapshot_reads_within_its_range() {
    let snap = Snapshot { base: 0x1000, bytes: vec![1, 2, 3, 4, 5, 6, 7, 8] };
    assert_eq!(snap.read_bytes(0x1000, 8).unwrap(), vec![1, 2, 3, 4, 5, 6, 7, 8]);
    assert_eq!(snap.read_bytes(0x1002, 3).unwrap(), vec![3, 4, 5]);
    assert!(snap.read_bytes(0x1008, 0).unwrap().is_empty());
    assert_eq!(snap.read_u32(Address::Native(0x1004)).unwrap(), 0x08070605);
}

#[test]
fn test_snapshot_fails_outside_its_range() {
    let snap = Snapshot { base: 0x1000, bytes: vec![1, 2, 3, 4] };
    for (addr, len) in [(0xFFFusize, 1usize), (0x1000, 5), (0x1003, 2), (0x1005, 0), (usize::MAX, 2)] {
        let fault = snap.read_bytes(addr, len).unwrap_err();
        assert_eq!(fault.kind, FaultKind::BadAddress);
        assert_eq!(fault.code, 0);
    }
    assert!(matches!(
        snap.read_u64(Address::Native(0x1000)),
        Err(ProcessError::BadAddress(0x1000, 8))
    ));
}

#[test]
fn test_snapshot_round_trips() {
    // a pointer at the base, then a string structure, as the target lays them out
    let text = "snapshot";
    let mut bytes = Vec::new();
    bytes.extend_from_slice(&0x2004i32.to_le_bytes());
    bytes.extend_from_slice(&[0xAA; 4]);
    bytes.extend_from_slice(&(text.len() as u32).to_le_bytes());
    bytes.extend(text.bytes().flat_map(|b| [b, 0]));
    bytes.extend_from_slice(&[0xE5, 0x8E, 0x26]);
    let snap = Snapshot { base: 0x2000, bytes };
    assert_eq!(snap.read_string_from_ptr(Address::I32(0x2000)).unwrap(), text);
    assert_eq!(snap.read_string(Address::I32(0x2004)).unwrap(), text);
    assert_eq!(
        snap.read_uleb128(Address::Native(0x2000 + 12 + 16)).unwrap(),
        624485
    );
}

#[test]
fn test_snapshot_is_scanned_like_the_target() {
    let snap = Snapshot { base: 0x500, bytes: vec![0, 0, 0xF8, 0x01, 0x74, 0x04, 0x83, 0x65] };
    let process = Process {
        pid: 1,
        maps: vec![
            MemoryRegion { from: 0x100, size: 8 },
            MemoryRegion { from: 0x500, size: 8 },
        ],
        executable_dir: None,
    };
    let sign = Signature::from_str("F8 01 ?? 04 83 65").unwrap();
    assert_eq!(process.read_signature(&snap, &sign).unwrap(), 0x502);
}
