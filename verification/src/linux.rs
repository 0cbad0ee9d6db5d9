//! The text formats that Linux describes a process in: the memory-map
//! listing, the command line and the status line.

use vstd::prelude::*;
use crate::error::{FaultKind, OsFault, ProcessError};
use crate::locate::ProcessInfo;
use crate::process::{
    catalog_wf, regions_ascending, regions_sound, text_of, MemoryRegion, Process, ProcessView,
};
use crate::text::{
    chars_of, find_char, first_index, i32_value, is_number, lemma_first_index,
    lemma_number_value_nonnegative, number_value, parse_i32, parse_number, pieces,
    prefix_before, slice, split, string_of, views, Separator,
};

verus! {

/// The error code of an operation that is not permitted.
pub const EPERM: i32 = 1;

/// The error code for a process that does not exist.
pub const ESRCH: i32 = 3;

/// The error code for an address that is not mapped.
pub const EFAULT: i32 = 14;

/// The error code of an access that permissions forbid.
pub const EACCES: i32 = 13;

/// The kind of the fault that an error code of a remote read stands for.
pub open spec fn fault_kind(code: i32) -> FaultKind {
    if code == EPERM {
        FaultKind::NotPermitted
    } else if code == ESRCH {
        FaultKind::NoSuchProcess
    } else if code == EFAULT {
        FaultKind::BadAddress
    } else {
        FaultKind::Other
    }
}

/// The fault that the error code of a failed remote read stands for.
pub fn fault_of(code: i32) -> (fault: OsFault)
    ensures
        fault == (OsFault { kind: fault_kind(code), code }),
{
    let kind = if code == EPERM {
        FaultKind::NotPermitted
    } else if code == ESRCH {
        FaultKind::NoSuchProcess
    } else if code == EFAULT {
        FaultKind::BadAddress
    } else {
        FaultKind::Other
    };
    OsFault { kind, code }
}

/// The native code that an I/O error carries, where it came from the
/// platform: what `io::Error::raw_os_error` gives for it.
pub uninterp spec fn io_code(e: std::io::Error) -> Option<i32>;

/// `io::Error::raw_os_error`: the native code of the error, where it has
/// one. The code is a matter of the error alone, and that is all that is
/// claimed: which code an error carries is not said.
#[verifier::external_body]
fn os_code(e: &std::io::Error) -> (code: Option<i32>)
    ensures
        code == io_code(*e),
{
    e.raw_os_error()
}

impl ProcessError {
    /// The error that a failed read of a process or map listing comes to,
    /// where `code` is the native code of the failure: `NotEnoughPermissions`
    /// where it says that permission was lacking, else the I/O error itself.
    pub open spec fn listing_failure(code: Option<i32>, e: std::io::Error) -> ProcessError {
        if code == Some(EPERM) || code == Some(EACCES) {
            ProcessError::NotEnoughPermissions
        } else {
            ProcessError::IoError(e)
        }
    }

    /// The error for a listing that could not be read with the native code
    /// `code`.
    pub fn from_listing_failure(code: Option<i32>, e: std::io::Error) -> (r: ProcessError)
        ensures
            r == Self::listing_failure(code, e),
    {
        match code {
            Some(code) => if code == EPERM || code == EACCES {
                ProcessError::NotEnoughPermissions
            } else {
                ProcessError::IoError(e)
            },
            None => ProcessError::IoError(e),
        }
    }

    /// The error for a listing that could not be read: `NotEnoughPermissions`
    /// where the native code of the failure says that permission was
    /// lacking, else the I/O error itself. A failure is never taken for a
    /// process that was not found.
    pub fn from_io(e: std::io::Error) -> (r: ProcessError)
        ensures
            r == Self::listing_failure(io_code(e), e),
    {
        let code = os_code(&e);
        Self::from_listing_failure(code, e)
    }
}

/// The region that one row of the map listing describes, where the row is
/// well formed and the region can be read and written. A row is fields kept
/// apart by whitespace; the first is the range, `start-end` in hexadecimal
/// with `start` below `end`, the second the permissions, which begin with
/// `rw`.
pub open spec fn row_region(row: Seq<char>) -> Option<MemoryRegion> {
    let fields = pieces(row, Separator::Whitespace);
    if fields.len() < 2 {
        None
    } else {
        let range = fields[0];
        let perms = fields[1];
        let dash = first_index(range, '-');
        let from = range.take(dash);
        let to = range.skip(dash + 1);
        if dash < range.len() && is_number(from, 16) && is_number(to, 16) && number_value(from, 16)
            < number_value(to, 16) <= usize::MAX && perms.len() >= 2 && perms[0] == 'r' && perms[1]
            == 'w' {
            Some(
                MemoryRegion {
                    from: number_value(from, 16) as usize,
                    size: (number_value(to, 16) - number_value(from, 16)) as usize,
                },
            )
        } else {
            None
        }
    }
}

/// The catalogue that the rows give: the region of every row that describes
/// one, in the order of the rows. A row that describes no region is passed
/// over; no other row is left out, and nothing is added or merged.
pub open spec fn collect_regions(rows: Seq<Seq<char>>) -> Seq<MemoryRegion>
    decreases rows.len(),
{
    if rows.len() == 0 {
        Seq::empty()
    } else {
        let before = collect_regions(rows.drop_last());
        match row_region(rows.last()) {
            Some(region) => before.push(region),
            None => before,
        }
    }
}

/// The catalogue that a map listing gives: one row per line.
pub open spec fn regions_of(listing: Seq<char>) -> Seq<MemoryRegion> {
    collect_regions(pieces(listing, Separator::Line))
}

/// The region of a row is not empty and ends within the address space.
pub proof fn lemma_row_region(row: Seq<char>)
    ensures
        row_region(row) matches Some(region) ==> region.size > 0 && region.end() <= usize::MAX,
{
    if row_region(row) is Some {
        let range = pieces(row, Separator::Whitespace)[0];
        let dash = first_index(range, '-');
        lemma_number_value_nonnegative(range.take(dash), 16);
        lemma_number_value_nonnegative(range.skip(dash + 1), 16);
    }
}

/// In every catalogue read from rows, no region is empty and none reaches
/// past the address space.
pub proof fn lemma_collect_regions_sound(rows: Seq<Seq<char>>)
    ensures
        regions_sound(collect_regions(rows)),
    decreases rows.len(),
{
    if rows.len() > 0 {
        lemma_collect_regions_sound(rows.drop_last());
        lemma_row_region(rows.last());
    }
}

/// Reads one row of the map listing.
pub fn parse_row(row: &Vec<char>) -> (r: Option<MemoryRegion>)
    ensures
        r == row_region(row@),
{
    let fields = split(row, Separator::Whitespace);
    if fields.len() < 2 {
        return None;
    }
    let range = &fields[0];
    let perms = &fields[1];
    proof {
        assert(views(fields@)[0] == range@);
        assert(views(fields@)[1] == perms@);
        lemma_first_index(range@, '-', 0);
    }
    let dash = find_char(range, '-');
    if dash >= range.len() {
        return None;
    }
    let from = slice(range, 0, dash);
    let to = slice(range, dash + 1, range.len());
    proof {
        assert(from@ == range@.take(dash as int));
        assert(to@ == range@.skip(dash + 1));
        assert(usize::MAX as u64 == usize::MAX);
        if is_number(from@, 16) {
            lemma_number_value_nonnegative(from@, 16);
        }
        if is_number(to@, 16) {
            lemma_number_value_nonnegative(to@, 16);
        }
    }
    let start = match parse_number(&from, 16, usize::MAX as u64) {
        Some(v) => v as usize,
        None => {
            return None;
        },
    };
    let end = match parse_number(&to, 16, usize::MAX as u64) {
        Some(v) => v as usize,
        None => {
            return None;
        },
    };
    if start >= end || perms.len() < 2 || perms[0] != 'r' || perms[1] != 'w' {
        return None;
    }
    Some(MemoryRegion { from: start, size: end - start })
}

/// The command line as a path: NUL characters dropped and each backslash
/// turned into a slash.
pub open spec fn normalized(cmd: Seq<char>) -> Seq<char>
    decreases cmd.len(),
{
    if cmd.len() == 0 {
        Seq::empty()
    } else {
        let before = normalized(cmd.drop_last());
        if cmd.last() == '\0' {
            before
        } else if cmd.last() == '\\' {
            before.push('/')
        } else {
            before.push(cmd.last())
        }
    }
}

/// The path of the executable that a command line names: the normalized
/// command line without the two characters of its drive prefix. A command
/// line too short to hold the prefix names none.
pub open spec fn executable_path(cmd: Seq<char>) -> Option<Seq<char>> {
    if normalized(cmd).len() >= 2 {
        Some(normalized(cmd).skip(2))
    } else {
        None
    }
}

/// The process id that a status line gives: its first field, up to the first
/// space, read as a decimal number within `i32`, with or without a sign.
pub open spec fn stat_pid(stat: Seq<char>) -> Option<i32> {
    i32_value(prefix_before(stat, ' '))
}

/// Is `a` the beginning of `b`?
pub open spec fn is_prefix(a: Seq<char>, b: Seq<char>) -> bool {
    a.len() <= b.len() && b.take(a.len() as int) == a
}

/// The index of the last `c` in `s`, or -1 where `s` holds none.
pub open spec fn last_index(s: Seq<char>, c: char) -> int
    decreases s.len(),
{
    if s.len() == 0 {
        -1
    } else if s.last() == c {
        s.len() - 1
    } else {
        last_index(s.drop_last(), c)
    }
}

/// The last piece of a path: what stands behind its last slash, or all of it
/// where it holds no slash.
pub open spec fn last_piece(path: Seq<char>) -> Seq<char> {
    path.skip(last_index(path, '/') + 1)
}

/// Is `piece` a name as a path holds one: not empty, and not the `.` that
/// stands for the directory itself?
pub open spec fn is_name(piece: Seq<char>) -> bool {
    piece.len() > 0 && piece != seq!['.']
}

/// Is the directory of `path` a matter of its text alone? It is for the empty
/// path, for the root `/`, and for a path that ends in a name, where that
/// name is all of the path, or follows the leading slash, or follows a slash
/// behind another name. A path with a trailing slash, with slashes in a row
/// or with a `.` at its end is not of that kind: there the platform's reading
/// of the path decides.
pub open spec fn parent_known(path: Seq<char>) -> bool {
    let cut = last_index(path, '/');
    ||| path.len() == 0
    ||| path == seq!['/']
    ||| is_name(last_piece(path)) && (cut <= 0 || is_name(last_piece(path.take(cut))))
}

/// The directory of a path whose directory is a matter of its text alone:
/// none for the empty path and for the root; the empty path for a single
/// name; the root for a name behind the leading slash; and else the path up
/// to, not including, its last slash.
pub open spec fn known_parent(path: Seq<char>) -> Option<Seq<char>> {
    let cut = last_index(path, '/');
    if path.len() == 0 || path == seq!['/'] {
        None
    } else if cut < 0 {
        Some(Seq::empty())
    } else if cut == 0 {
        Some(seq!['/'])
    } else {
        Some(path.take(cut))
    }
}

/// `Path::parent` on the path `path`, where `/` keeps the parts of a path
/// apart: the path without its final component, if it has one. What comes
/// back is always a beginning of `path`; and where the directory is a matter
/// of the text alone, it is the one that `known_parent` names, and there is
/// none exactly where `known_parent` names none.
#[verifier::external_body]
fn parent_dir(path: &str) -> (r: Option<String>)
    ensures
        r matches Some(dir) ==> is_prefix(dir@, path@),
        parent_known(path@) ==> text_of(r) == known_parent(path@),
{
    match std::path::Path::new(path).parent() {
        Some(dir) => Some(dir.to_string_lossy().into_owned()),
        None => None,
    }
}

/// Normalizes a command line.
pub fn normalize(cmd: &Vec<char>) -> (r: Vec<char>)
    ensures
        r@ == normalized(cmd@),
{
    let mut r: Vec<char> = Vec::new();
    let mut i: usize = 0;
    while i < cmd.len()
        invariant
            i <= cmd@.len(),
            r@ == normalized(cmd@.take(i as int)),
        decreases cmd.len() - i,
    {
        let c = cmd[i];
        proof {
            let t = cmd@.take(i + 1);
            assert(t.drop_last() == cmd@.take(i as int));
            assert(t.last() == c);
        }
        if c == '\\' {
            r.push('/');
        } else if c != '\0' {
            r.push(c);
        }
        i += 1;
    }
    proof {
        assert(cmd@.take(i as int) == cmd@);
    }
    r
}

impl Process {
    /// Replaces the region catalogue by the one that the map listing gives:
    /// the region of every row that describes a readable and writable one,
    /// in the order of the listing. Rows that describe none are passed over;
    /// an empty listing gives an empty catalogue. No region of the catalogue
    /// is empty or reaches past the address space, and where the listing
    /// names its regions in ascending order, as the platform does, the
    /// catalogue is in order.
    pub fn read_regions(self, listing: &str) -> (r: Process)
        ensures
            r@ == (ProcessView { maps: regions_of(listing@), ..self@ }),
            regions_sound(r.maps@),
            regions_ascending(regions_of(listing@)) ==> catalog_wf(r.maps@),
    {
        let text = chars_of(listing);
        let rows = split(&text, Separator::Line);
        let mut maps: Vec<MemoryRegion> = Vec::new();
        let mut i: usize = 0;
        while i < rows.len()
            invariant
                i <= rows@.len(),
                maps@ == collect_regions(views(rows@).take(i as int)),
            decreases rows.len() - i,
        {
            proof {
                let t = views(rows@).take(i + 1);
                assert(t.drop_last() == views(rows@).take(i as int));
                assert(t.last() == rows@[i as int]@);
            }
            match parse_row(&rows[i]) {
                Some(region) => {
                    maps.push(region);
                },
                None => {},
            }
            i += 1;
        }
        proof {
            assert(views(rows@).take(i as int) == views(rows@));
            lemma_collect_regions_sound(views(rows@));
        }
        Process { pid: self.pid, maps, executable_dir: self.executable_dir }
    }

    /// What enumeration records of one process, from its command line and its
    /// status line: the process id, the command line as it is, and the
    /// directory of the executable that the command line names. Fails with
    /// `ExecutablePathNotFound` where the command line names no executable,
    /// and else with `ConvertionError` where the status line gives no
    /// process id.
    pub fn get_proc_info(cmdline: &str, stat: &str) -> (r: Result<ProcessInfo, ProcessError>)
        ensures
            match r {
                Ok(info) => {
                    &&& executable_path(cmdline@) matches Some(path)
                    &&& stat_pid(stat@) == Some(info.pid)
                    &&& info.cmd_buff@ == cmdline@
                    &&& info.executable_dir matches Some(dir) ==> is_prefix(dir@, path)
                    &&& parent_known(path) ==> text_of(info.executable_dir) == known_parent(path)
                },
                Err(e) => if executable_path(cmdline@) is None {
                    e == ProcessError::ExecutablePathNotFound
                } else {
                    stat_pid(stat@) is None && e == ProcessError::ConvertionError
                },
            },
    {
        let cmd = chars_of(cmdline);
        let path = normalize(&cmd);
        if path.len() < 2 {
            return Err(ProcessError::ExecutablePathNotFound);
        }
        let executable = string_of(&slice(&path, 2, path.len()));
        let executable_dir = parent_dir(executable.as_str());
        let line = chars_of(stat);
        proof {
            lemma_first_index(line@, ' ', 0);
        }
        let field = slice(&line, 0, find_char(&line, ' '));
        proof {
            assert(field@ == prefix_before(stat@, ' '));
        }
        let pid = match parse_i32(&field) {
            Some(pid) => pid,
            None => {
                return Err(ProcessError::ConvertionError);
            },
        };
        Ok(ProcessInfo { pid, cmd_buff: cmdline.to_owned(), executable_dir })
    }
}

} // verus!
