//! The integrity hash over a positioned range of a stream.

use vstd::prelude::*;
use crate::checksum_seed;
use crate::crypto::murmur3_of;
use crate::stream::ByteStream;
use crate::types::Error;

verus! {

/// Computes the format's seeded MurmurHash3-32 over `size` bytes of `file`
/// starting at `offset`, leaving the cursor where it stood.
pub fn hash(file: &mut ByteStream, offset: u64, size: u64) -> (r: Result<u32, Error>)
    requires
        old(file).pos <= old(file).data@.len(),
    ensures
        final(file).data@ == old(file).data@,
        final(file).pos == old(file).pos,
        r is Ok <==> offset + size <= old(file).data@.len(),
        r matches Ok(h) ==> h == murmur3_of(
            old(file).data@.subrange(offset as int, offset + size),
            checksum_seed(),
        ),
        r is Err ==> r == Result::<u32, Error>::Err(Error::UnexpectedEof),
    {
    let saved = file.pos();
    if file.to(offset).is_err() {
        return Err(Error::UnexpectedEof);
    }
    match file.read_bytes(size) {
        Ok(b) => {
            match file.to(saved) {
                Ok(()) => {},
                Err(e) => {
                    return Err(e);
                },
            }
            let h = crate::crypto::murmur3_hash(&b, 0x31082007);
            assert(checksum_seed() == 0x31082007u32);
            Ok(h)
        },
        Err(_) => {
            match file.to(saved) {
                Ok(()) => {},
                Err(e) => {
                    return Err(e);
                },
            }
            Err(Error::UnexpectedEof)
        },
    }
}

} // verus!
