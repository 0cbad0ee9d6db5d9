//! Read-only introspection of another process's memory: finding the process,
//! cataloguing its regions, scanning them for byte signatures and decoding
//! typed values from the bytes that a remote read hands back.

pub mod address;
pub mod backing;
pub mod decode;
pub mod error;
pub mod layout;
pub mod linux;
pub mod locate;
pub mod outcome;
pub mod process;
pub mod scan;
pub mod signature;
pub mod snapshot;
pub mod text;
pub mod uleb128;
pub mod utf16;
