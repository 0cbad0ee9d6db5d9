use std::path::Path;

use nix::errno::Errno;

use rosu_mem::error::{FaultKind, ProcessError};
use rosu_mem::linux::{fault_of, normalize, parse_row, EACCES, EFAULT, EPERM, ESRCH};
use rosu_mem::process::{MemoryRegion, Process};

const MAPS: &str = "\
00400000-00452000 r-xp 00000000 08:02 173521      /usr/bin/dbus-daemon
00651000-00652000 r--p 00051000 08:02 173521      /usr/bin/dbus-daemon
00652000-00655000 rw-p 00052000 08:02 173521      /usr/bin/dbus-daemon
00e03000-00e24000 rw-p 00000000 00:00 0           [heap]
7ffc1a2b3000-7ffc1a2d4000 rw-p 00000000 00:00 0   [stack]
ffffffffff600000-ffffffffff601000 --xp 00000000 00:00 0  [vsyscall]
";

fn blank() -> Process {
    Process { pid: 7, maps: vec![MemoryRegion { from: 1, size: 1 }], executable_dir: Some("/x".to_string()) }
}

fn chars(s: &str) -> Vec<char> {
    s.chars().collect()
}

#[test]
fn test_read_regions_keeps_readable_and_writable() {
    let process = blank().read_regions(MAPS);
    assert_eq!(process.pid, 7);
    assert_eq!(process.executable_dir.as_deref(), Some("/x"));
    assert_eq!(
        process.maps,
        vec![
            MemoryRegion { from: 0x00652000, size: 0x3000 },
            MemoryRegion { from: 0x00e03000, size: 0x21000 },
            MemoryRegion { from: 0x7ffc1a2b3000, size: 0x21000 },
        ]
    );
}

#[test]
fn test_read_regions_empty_listing() {
    assert!(blank().read_regions("").maps.is_empty());
    assert!(blank().read_regions("\n\n").maps.is_empty());
}

#[test]
fn test_read_regions_passes_over_malformed_rows() {
    let listing = "\
garbage
1000-2000 rw-p

zz00-3000 rw-p 0 0
3000-2000 rw-p 0 0
3000-3000 rw-p 0 0
4000 rw-p 0 0
5000-6000
5000-6000 r
+7000-8000 rw-p
9000-a000-b000 rw-p
c000-D000 rwxs 0 0 0 /dev/shm/x";
    assert_eq!(
        blank().read_regions(listing).maps,
        vec![
            MemoryRegion { from: 0x1000, size: 0x1000 },
            MemoryRegion { from: 0xc000, size: 0x1000 },
        ]
    );
}

#[test]
fn test_read_regions_keeps_every_region_in_listing_order() {
    // two disjoint regions, the second below the first: both are kept
    assert_eq!(
        blank().read_regions("2-3 rw\n1-2 rw").maps,
        vec![
            MemoryRegion { from: 2, size: 1 },
            MemoryRegion { from: 1, size: 1 },
        ]
    );
    // nothing is dropped, merged or put in another order
    let listing = "\
2000-3000 rw-p
1000-1800 rw-p
2800-4000 rw-p
3000-4000 rw-p
3000-4000 rw-p";
    assert_eq!(
        blank().read_regions(listing).maps,
        vec![
            MemoryRegion { from: 0x2000, size: 0x1000 },
            MemoryRegion { from: 0x1000, size: 0x800 },
            MemoryRegion { from: 0x2800, size: 0x1800 },
            MemoryRegion { from: 0x3000, size: 0x1000 },
            MemoryRegion { from: 0x3000, size: 0x1000 },
        ]
    );
}

#[test]
fn test_parse_row() {
    assert_eq!(
        parse_row(&chars("7f00-8f00\trw-p 0")),
        Some(MemoryRegion { from: 0x7f00, size: 0x1000 })
    );
    assert_eq!(parse_row(&chars("7f00-8f00 r--p 0")), None);
    assert_eq!(parse_row(&chars("7f00-8f00 -w-p 0")), None);
    assert_eq!(parse_row(&chars("")), None);
    // an end beyond the address space is no region
    assert_eq!(parse_row(&chars("0-100000000000000000 rw-p")), None);
    assert_eq!(
        parse_row(&chars("0-1 rw")),
        Some(MemoryRegion { from: 0, size: 1 })
    );
}

#[test]
fn test_normalize() {
    assert_eq!(
        normalize(&chars("Z:\\home\\me\\osu!.exe\0")),
        chars("Z:/home/me/osu!.exe")
    );
    assert_eq!(normalize(&chars("\0\0")), chars(""));
    assert_eq!(normalize(&chars("/a/b")), chars("/a/b"));
}

#[test]
fn test_get_proc_info() {
    let info = Process::get_proc_info(
        "Z:\\home\\me\\osu\\osu!.exe\0",
        "4242 (osu!.exe) S 1 4242 4242 0 -1",
    )
    .unwrap();
    assert_eq!(info.pid, 4242);
    assert_eq!(info.cmd_buff, "Z:\\home\\me\\osu\\osu!.exe\0");
    assert_eq!(info.executable_dir.as_deref(), Some("/home/me/osu"));
}

#[test]
fn test_get_proc_info_without_a_directory() {
    let info = Process::get_proc_info("Z:/", "1 (init)").unwrap();
    assert_eq!(info.pid, 1);
    assert_eq!(info.executable_dir, None);
}

#[test]
fn test_get_proc_info_without_an_executable() {
    assert!(matches!(
        Process::get_proc_info("", "12 (kthreadd) S"),
        Err(ProcessError::ExecutablePathNotFound)
    ));
    assert!(matches!(
        Process::get_proc_info("a\0", "12 (x) S"),
        Err(ProcessError::ExecutablePathNotFound)
    ));
    // the executable is looked at before the process id
    assert!(matches!(
        Process::get_proc_info("", ""),
        Err(ProcessError::ExecutablePathNotFound)
    ));
}

#[test]
fn test_get_proc_info_without_a_pid() {
    for stat in [
        "", " 12", "x12 (a)", "12x (a)", "- (a)", "+ (a)", "--5 (a)", "+-5 (a)", "5- (a)",
        "2147483648 (a)", "+2147483648 (a)", "-2147483649 (a)", "12\t(a)", "1.5 (a)",
    ] {
        assert!(matches!(
            Process::get_proc_info("/usr/bin/true", stat),
            Err(ProcessError::ConvertionError)
        ));
        // the integer parse of the platform's library refuses the same fields
        assert!(stat.split(' ').next().unwrap().parse::<i32>().is_err());
    }
}

#[test]
fn test_get_proc_info_reads_a_signed_pid() {
    for (stat, pid) in [
        ("2147483647 (a)", i32::MAX),
        ("0", 0),
        ("-5 x", -5),
        ("+5 x", 5),
        ("-0 x", 0),
        ("007 x", 7),
        ("-2147483648 (a)", i32::MIN),
        ("+2147483647", i32::MAX),
    ] {
        assert_eq!(Process::get_proc_info("/usr/bin/true", stat).unwrap().pid, pid);
        assert_eq!(stat.split(' ').next().unwrap().parse::<i32>().unwrap(), pid);
    }
}

#[test]
fn test_error_codes_are_those_of_the_platform() {
    assert_eq!(EPERM, Errno::EPERM as i32);
    assert_eq!(ESRCH, Errno::ESRCH as i32);
    assert_eq!(EFAULT, Errno::EFAULT as i32);
    assert_eq!(EACCES, Errno::EACCES as i32);
}

#[test]
fn test_fault_of() {
    let fault = fault_of(Errno::EPERM as i32);
    assert_eq!(fault.kind, FaultKind::NotPermitted);
    assert_eq!(fault.code, 1);
    assert!(fault.fatal());
    let fault = fault_of(Errno::ESRCH as i32);
    assert_eq!(fault.kind, FaultKind::NoSuchProcess);
    assert!(fault.fatal());
    let fault = fault_of(Errno::EFAULT as i32);
    assert_eq!(fault.kind, FaultKind::BadAddress);
    assert_eq!(fault.code, 14);
    assert!(!fault.fatal());
    for errno in [Errno::EIO, Errno::ENOMEM, Errno::EINVAL, Errno::EACCES] {
        let fault = fault_of(errno as i32);
        assert_eq!(fault.kind, FaultKind::Other);
        assert_eq!(fault.code, errno as i32);
        assert!(!fault.fatal());
    }
    assert_eq!(fault_of(0).kind, FaultKind::Other);
    assert_eq!(fault_of(-1).kind, FaultKind::Other);
}

/// The directory that the text of a path fixes, where it fixes one: the rule
/// that the library states of the platform's reading of paths.
fn directory_by_text(path: &str) -> Option<Option<String>> {
    let is_name = |piece: &str| !piece.is_empty() && piece != ".";
    let last_piece = |text: &str| match text.rfind('/') {
        Some(cut) => text[cut + 1..].to_string(),
        None => text.to_string(),
    };
    if path.is_empty() || path == "/" {
        return Some(None);
    }
    if !is_name(&last_piece(path)) {
        return None;
    }
    match path.rfind('/') {
        None => Some(Some(String::new())),
        Some(0) => Some(Some("/".to_string())),
        Some(cut) => {
            if is_name(&last_piece(&path[..cut])) {
                Some(Some(path[..cut].to_string()))
            } else {
                None
            }
        }
    }
}

fn all_paths(alphabet: &[char], longest: usize) -> Vec<String> {
    let mut paths = vec![String::new()];
    let mut from = 0;
    for _ in 0..longest {
        let upto = paths.len();
        for i in from..upto {
            for c in alphabet {
                let mut longer = paths[i].clone();
                longer.push(*c);
                paths.push(longer);
            }
        }
        from = upto;
    }
    paths
}

#[test]
fn test_directory_rule_is_the_platform_s() {
    let mut known = 0;
    for path in all_paths(&['/', '.', 'a', 'b'], 7) {
        let real = Path::new(&path).parent().map(|p| p.to_str().unwrap().to_string());
        if let Some(dir) = &real {
            assert!(path.starts_with(dir.as_str()), "{:?} -> {:?}", path, dir);
        }
        if let Some(expected) = directory_by_text(&path) {
            assert_eq!(real, expected, "{:?}", path);
            known += 1;
        }
    }
    assert!(known > 1000);
}

#[test]
fn test_executable_dir_follows_the_rule() {
    for path in all_paths(&['/', '.', 'a'], 6) {
        let info = Process::get_proc_info(&format!("Z:{}", path), "1 (x)").unwrap();
        let real = Path::new(&path).parent().map(|p| p.to_str().unwrap().to_string());
        assert_eq!(info.executable_dir, real, "{:?}", path);
        if let Some(expected) = directory_by_text(&path) {
            assert_eq!(info.executable_dir, expected, "{:?}", path);
        }
    }
}

#[test]
fn test_executable_dir_by_shape() {
    let dir = |cmdline: &str| Process::get_proc_info(cmdline, "1 (x)").unwrap().executable_dir;
    // the path ends in a name behind a slash behind a name
    assert_eq!(dir("Z:\\games\\osu!.exe\0").as_deref(), Some("/games"));
    assert_eq!(dir("Z:/home/me/my games/osu!.exe").as_deref(), Some("/home/me/my games"));
    assert_eq!(dir("Z:games/osu!.exe").as_deref(), Some("games"));
    assert_eq!(dir("Z:../games/..").as_deref(), Some("../games"));
    // a name behind the leading slash
    assert_eq!(dir("Z:/osu!.exe").as_deref(), Some("/"));
    // a single name
    assert_eq!(dir("Z:osu!.exe").as_deref(), Some(""));
    // the empty path and the root
    assert_eq!(dir("Z:"), None);
    assert_eq!(dir("Z:/"), None);
}
