//! Copying one entry's payload out of a body stream into a sink.

use vstd::prelude::*;
use crate::bytes::spliced;
use crate::stream::ByteStream;
use crate::types::{Error, File};

verus! {

/// Copies `file.length` payload bytes from `source` starting at
/// `file.offset` into `target` starting at `target_pos`. The source cursor
/// is left where it stood; the target cursor ends just past the copy.
pub fn extract(
    source: &mut ByteStream,
    file: &File,
    target: &mut ByteStream,
    buffer_size: u64,
    target_pos: u64,
) -> (r: Result<(), Error>)
    requires
        old(source).pos <= old(source).data@.len(),
    ensures
        final(source).data@ == old(source).data@,
        final(source).pos == old(source).pos,
        r is Ok <==> file.offset + file.length <= old(source).data@.len() && target_pos <= old(
            target,
        ).data@.len(),
        r matches Ok(u) ==> final(target).data@ == spliced(
            old(target).data@,
            target_pos as int,
            old(source).data@.subrange(file.offset as int, file.offset + file.length),
        ) && final(target).pos == target_pos + file.length,
        r is Err ==> final(target).data@ == old(target).data@ && final(target).pos == old(
            target,
        ).pos && r == Result::<(), Error>::Err(Error::UnexpectedEof),
{
    let saved = source.pos();
    if source.to(file.offset).is_err() {
        return Err(Error::UnexpectedEof);
    }
    let payload = match source.read_bytes(file.length) {
        Ok(p) => p,
        Err(_) => {
            match source.to(saved) {
                Ok(()) => {},
                Err(e) => {
                    return Err(e);
                },
            }
            return Err(Error::UnexpectedEof);
        },
    };
    match source.to(saved) {
        Ok(()) => {},
        Err(e) => {
            return Err(e);
        },
    }
    if target.to(target_pos).is_err() {
        return Err(Error::UnexpectedEof);
    }
    target.write_bytes(&payload);
    Ok(())
}

} // verus!
