//! Reading and writing the HSSP archive container (with its historical
//! `SFA\0` variant): an ordered list of file entries packed into one
//! sequential byte stream, with a seeded 32-bit integrity checksum over the
//! body, optional whole-body AES-256-CBC encryption behind a password, and
//! an optional main-file pointer. The byte layout and the reference
//! semantics of reading live in `format`; the writer, reader and verifier
//! are proved against them, and the general guarantees are stated and
//! proved in `laws`. The hash and cipher primitives are outside crates
//! behind the trusted wrappers in `crypto`.

use vstd::prelude::*;

pub mod bytes;
pub mod create;
pub mod crypto;
pub mod extract;
pub mod format;
pub mod hash;
pub mod laws;
pub mod metadata;
pub mod stream;
pub mod types;

pub use types::{Encryption, Error, File, FileWithSource, Metadata};
pub use stream::ByteStream;
pub use create::{create, write_hash};
pub use extract::extract;
pub use hash::hash;
pub use metadata::{metadata, verify_integrity};

verus! {

/// The seed the container format fixes for its MurmurHash3-32 body checksum.
pub open spec fn checksum_seed() -> u32 {
    0x31082007u32
}

} // verus!
