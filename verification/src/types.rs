//! The public data model: parsed archive metadata, entries, the encryption
//! descriptor, and the error taxonomy.

use vstd::prelude::*;

verus! {

/// Why a codec operation failed.
#[derive(Debug, PartialEq, Eq)]
pub enum Error {
    /// A read or seek ran past the end of the stream.
    UnexpectedEof,
    /// Stored path bytes are not valid UTF-8.
    InvalidUtf8,
    /// A path to store does not fit the format's two-byte length field.
    PathTooLong,
}

/// One archive entry: a path, a directory marker, and the place of its
/// payload inside the body.
#[derive(Debug)]
pub struct File {
    pub path: String,
    pub directory: bool,
    pub offset: u64,
    pub length: u64,
}

/// The encryption descriptor of a parsed archive.
///
/// `hash` is the double-SHA256 recomputed from the supplied password (all
/// zero when none was given); `hash_expected` is the value stored in the
/// header. `decrypted` holds the plaintext body when the password matched,
/// and is empty otherwise.
#[derive(Debug)]
pub struct Encryption {
    pub hash: Vec<u8>,
    pub hash_expected: Vec<u8>,
    pub iv: Vec<u8>,
    pub decrypted: Vec<u8>,
}

/// A parsed archive header together with its entry table.
#[derive(Debug)]
pub struct Metadata {
    pub version: u8,
    pub checksum: u32,
    pub encryption: Option<Encryption>,
    pub files: Vec<File>,
    pub main_file: Option<u32>,
}

/// An entry to write, paired with the stream its payload is copied from.
pub struct FileWithSource(pub File, pub crate::stream::ByteStream);

} // verus!
