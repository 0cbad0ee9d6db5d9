use vstd::prelude::*;
use crate::text::{append, chars_of, number_text, render_number, string_of};

verus! {

/// `std::io::Error`, carried through untouched from the layer that performs I/O.
#[verifier::external_type_specification]
#[verifier::external_body]
pub struct ExIoError(std::io::Error);

/// How the platform layer sorts the error code of a failed remote read.
#[derive(Debug, Clone, Copy, PartialEq, Eq, Structural)]
pub enum FaultKind {
    /// The caller may not inspect the target.
    NotPermitted,
    /// The target no longer exists.
    NoSuchProcess,
    /// The requested range is not (or no longer) mapped in the target.
    BadAddress,
    /// Any other condition.
    Other,
}

/// A failed remote read: its kind and the native error code.
#[derive(Debug, Clone, Copy, PartialEq, Eq, Structural)]
pub struct OsFault {
    pub kind: FaultKind,
    pub code: i32,
}

impl OsFault {
    /// Does this fault end a scan over the region catalogue? Permission and
    /// missing-process faults do; anything else only costs the one region.
    pub open spec fn is_fatal(&self) -> bool {
        self.kind == FaultKind::NotPermitted || self.kind == FaultKind::NoSuchProcess
    }

    /// The error of a targeted read of `len` bytes at `addr` that failed with
    /// this fault.
    pub open spec fn read_error(&self, addr: usize, len: usize) -> ProcessError {
        if self.kind == FaultKind::BadAddress {
            ProcessError::BadAddress(addr, len)
        } else {
            ProcessError::OsError(self.code)
        }
    }

    /// Does this fault end a scan over the region catalogue?
    pub fn fatal(&self) -> (r: bool)
        ensures
            r == self.is_fatal(),
    {
        match self.kind {
            FaultKind::NotPermitted => true,
            FaultKind::NoSuchProcess => true,
            FaultKind::BadAddress => false,
            FaultKind::Other => false,
        }
    }

    /// The error of a targeted read of `len` bytes at `addr` that failed with
    /// this fault: `BadAddress` with the address and the length for an
    /// unmapped range, else `OsError` with the native code.
    pub fn into_read_error(&self, addr: usize, len: usize) -> (e: ProcessError)
        ensures
            e == self.read_error(addr, len),
    {
        match self.kind {
            FaultKind::BadAddress => ProcessError::BadAddress(addr, len),
            _ => ProcessError::OsError(self.code),
        }
    }
}

/// Everything that locating a process or reading from it can fail with.
#[derive(Debug)]
pub enum ProcessError {
    ProcessNotFound,
    ExecutablePathNotFound,
    NotEnoughPermissions,
    IoError(std::io::Error),
    FromUtf8Error,
    ConvertionError,
    /// A targeted read hit an unmapped range: its address and length.
    BadAddress(usize, usize),
    /// No region holds the signature; carries the pattern text.
    SignatureNotFound(String),
    AddressConvertError,
    StringTooLarge,
    /// Any other operating-system error, by its native code.
    OsError(i32),
}

/// Why a pattern text is not a signature.
#[derive(Debug, Clone, Copy, PartialEq, Eq, Structural)]
pub enum ParseSignatureError {
    /// A token is not two characters long (or there is no token at all):
    /// carries the offending length.
    InvalidLength(usize),
    /// A two-character token is neither the wildcard nor two hex digits.
    InvalidInt,
}

/// `Errno::from_i32` of nix, then the `Display` of the `Errno` that it gives:
/// the name of an error code and its description, in the platform's words.
/// Nothing is claimed of the text.
#[verifier::external_body]
fn errno_text(code: i32) -> String {
    nix::errno::Errno::from_i32(code).to_string()
}

impl ProcessError {
    /// The wording of the error. `os` is the platform's description of the
    /// error code; only an `OsError` has it in its wording. Numbers of a bad
    /// address are in upper-case hexadecimal.
    pub open spec fn wording(&self, os: Seq<char>) -> Seq<char> {
        match self {
            ProcessError::ProcessNotFound => "process not found"@,
            ProcessError::ExecutablePathNotFound => "executable path not found"@,
            ProcessError::NotEnoughPermissions =>
                "not enough permissions to run, please run as admin/sudo"@,
            ProcessError::IoError(_) => "io error"@,
            ProcessError::FromUtf8Error => "failed to convert bytes to string"@,
            ProcessError::ConvertionError => "failed to convert type"@,
            ProcessError::BadAddress(addr, len) => "trying to read bad address, addr: "@
                + number_text(*addr as nat, 16) + ", len: "@ + number_text(*len as nat, 16),
            ProcessError::SignatureNotFound(pattern) => "cannot find signature: "@ + pattern@,
            ProcessError::AddressConvertError => "failed to convert address to usize"@,
            ProcessError::StringTooLarge => "string is too large"@,
            ProcessError::OsError(_) => "os error `"@ + os + "`"@,
        }
    }

    /// The wording of the error, where the platform describes the error code
    /// as `os`.
    pub fn message_with(&self, os: &str) -> (s: String)
        ensures
            s@ == self.wording(os@),
    {
        match self {
            ProcessError::ProcessNotFound => "process not found".to_owned(),
            ProcessError::ExecutablePathNotFound => "executable path not found".to_owned(),
            ProcessError::NotEnoughPermissions => {
                "not enough permissions to run, please run as admin/sudo".to_owned()
            },
            ProcessError::IoError(_) => "io error".to_owned(),
            ProcessError::FromUtf8Error => "failed to convert bytes to string".to_owned(),
            ProcessError::ConvertionError => "failed to convert type".to_owned(),
            ProcessError::BadAddress(addr, len) => {
                let mut text = chars_of("trying to read bad address, addr: ");
                append(&mut text, &render_number(*addr as u64, 16));
                append(&mut text, &chars_of(", len: "));
                append(&mut text, &render_number(*len as u64, 16));
                string_of(&text)
            },
            ProcessError::SignatureNotFound(pattern) => {
                let mut text = chars_of("cannot find signature: ");
                append(&mut text, &chars_of(pattern.as_str()));
                string_of(&text)
            },
            ProcessError::AddressConvertError => "failed to convert address to usize".to_owned(),
            ProcessError::StringTooLarge => "string is too large".to_owned(),
            ProcessError::OsError(_) => {
                let mut text = chars_of("os error `");
                append(&mut text, &chars_of(os));
                append(&mut text, &chars_of("`"));
                string_of(&text)
            },
        }
    }

    /// The wording of the error. An `OsError` is worded with the platform's
    /// description of its code.
    pub fn message(&self) -> (s: String)
        ensures
            exists|os: Seq<char>| s@ == #[trigger] self.wording(os),
    {
        let s = match self {
            ProcessError::OsError(code) => self.message_with(errno_text(*code).as_str()),
            _ => self.message_with(""),
        };
        s
    }
}

impl ParseSignatureError {
    /// The wording of the error; the length is a decimal number.
    pub open spec fn wording(&self) -> Seq<char> {
        match *self {
            ParseSignatureError::InvalidLength(len) => "invalid string length `"@ + number_text(
                len as nat,
                10,
            ) + "`"@,
            ParseSignatureError::InvalidInt => "failed to parse integer"@,
        }
    }

    /// The wording of the error.
    pub fn message(&self) -> (s: String)
        ensures
            s@ == self.wording(),
    {
        match *self {
            ParseSignatureError::InvalidLength(len) => {
                let mut text = chars_of("invalid string length `");
                append(&mut text, &render_number(len as u64, 10));
                append(&mut text, &chars_of("`"));
                string_of(&text)
            },
            ParseSignatureError::InvalidInt => "failed to parse integer".to_owned(),
        }
    }
}

} // verus!
