//! An in-memory positioned byte stream: the readable and writable sink the
//! container codec works on.

use vstd::prelude::*;
use crate::bytes::{le128_val, le16_bytes, le16_val, le32_bytes, le32_val, le64_bytes, le64_val, spliced, zero_bytes};
use crate::types::Error;

verus! {

/// A vector of `n` zero bytes.
pub fn zero_vec(n: usize) -> (r: Vec<u8>)
    ensures
        r@ == zero_bytes(n as nat),
{
    let mut v: Vec<u8> = Vec::new();
    let mut i: usize = 0;
    while i < n
        invariant
            i <= n,
            v@ == zero_bytes(i as nat),
        decreases n - i,
    {
        v.push(0u8);
        i = i + 1;
        assert(v@ =~= zero_bytes(i as nat));
    }
    v
}

/// Whether two byte vectors hold the same bytes.
pub fn bytes_eq(a: &Vec<u8>, b: &Vec<u8>) -> (r: bool)
    ensures
        r == (a@ == b@),
{
    if a.len() != b.len() {
        assert(a@ != b@);
        return false;
    }
    let n = a.len();
    let mut i: usize = 0;
    while i < n
        invariant
            i <= n,
            n == a@.len() == b@.len(),
            forall|j: int| 0 <= j < i ==> a@[j] == b@[j],
        decreases n - i,
    {
        if a[i] != b[i] {
            return false;
        }
        i = i + 1;
    }
    proof {
        assert(a@ =~= b@);
    }
    true
}

/// A copy of the given bytes.
pub fn copy_bytes(a: &Vec<u8>) -> (r: Vec<u8>)
    ensures
        r@ == a@,
{
    let n = a.len();
    let mut v: Vec<u8> = Vec::new();
    let mut i: usize = 0;
    while i < n
        invariant
            i <= n == a@.len(),
            v@ == a@.subrange(0, i as int),
        decreases n - i,
    {
        v.push(a[i]);
        i = i + 1;
        assert(v@ =~= a@.subrange(0, i as int));
    }
    assert(a@.subrange(0, n as int) =~= a@);
    v
}

/// A byte buffer with a cursor. Reads consume from the cursor; writes splice
/// at the cursor and extend the buffer when they run past its end.
pub struct ByteStream {
    pub data: Vec<u8>,
    pub pos: usize,
}

impl ByteStream {
    /// An empty stream.
    pub fn new() -> (r: ByteStream)
        ensures
            r.data@ == Seq::<u8>::empty(),
            r.pos == 0,
    {
        ByteStream { data: Vec::new(), pos: 0 }
    }

    /// A stream over the given bytes, cursor at the start.
    pub fn from_vec(data: Vec<u8>) -> (r: ByteStream)
        ensures
            r.data@ == data@,
            r.pos == 0,
    {
        ByteStream { data, pos: 0 }
    }

    /// Gives the underlying bytes back.
    pub fn into_vec(self) -> (r: Vec<u8>)
        ensures
            r@ == self.data@,
    {
        self.data
    }

    /// The cursor position.
    pub fn pos(&self) -> (r: u64)
        ensures
            r == self.pos as int,
    {
        self.pos as u64
    }

    /// The total number of bytes held.
    pub fn size(&self) -> (r: u64)
        ensures
            r == self.data@.len(),
    {
        self.data.len() as u64
    }

    /// Moves the cursor back to the start.
    pub fn rewind(&mut self)
        ensures
            final(self).data@ == old(self).data@,
            final(self).pos == 0,
    {
        self.pos = 0;
    }

    /// Seeks to an absolute position; fails without moving when the target
    /// lies past the end.
    pub fn to(&mut self, p: u64) -> (r: Result<(), Error>)
        ensures
            final(self).data@ == old(self).data@,
            r is Ok <==> p <= old(self).data@.len(),
            r is Ok ==> final(self).pos == p,
            r is Err ==> r == Result::<(), Error>::Err(Error::UnexpectedEof) && final(self).pos
                == old(self).pos,
    {
        if p > self.data.len() as u64 {
            return Err(Error::UnexpectedEof);
        }
        self.pos = p as usize;
        Ok(())
    }

    /// Seeks relative to the cursor; fails without moving when the target
    /// falls outside the buffer.
    pub fn jump(&mut self, off: i64) -> (r: Result<(), Error>)
        ensures
            final(self).data@ == old(self).data@,
            r is Ok <==> 0 <= old(self).pos + off <= old(self).data@.len(),
            r is Ok ==> final(self).pos == old(self).pos + off,
            r is Err ==> r == Result::<(), Error>::Err(Error::UnexpectedEof) && final(self).pos
                == old(self).pos,
    {
        let p = self.pos as i128 + off as i128;
        if p < 0 || p > self.data.len() as i128 {
            return Err(Error::UnexpectedEof);
        }
        self.pos = p as usize;
        Ok(())
    }

    /// Reads `n` bytes from the cursor; fails without moving when fewer are
    /// left.
    pub fn read_bytes(&mut self, n: u64) -> (r: Result<Vec<u8>, Error>)
        ensures
            final(self).data@ == old(self).data@,
            r is Ok <==> old(self).pos + n <= old(self).data@.len(),
            r matches Ok(v) ==> v@ == old(self).data@.subrange(
                old(self).pos as int,
                old(self).pos + n,
            ) && final(self).pos == old(self).pos + n,
            r is Err ==> r == Result::<Vec<u8>, Error>::Err(Error::UnexpectedEof) && final(self).pos == old(self).pos,
    {
        if n > self.data.len() as u64 || self.pos as u64 > self.data.len() as u64 - n {
            return Err(Error::UnexpectedEof);
        }
        let n_us = n as usize;
        let data_len = self.data.len();
        let mut v: Vec<u8> = Vec::new();
        let mut i: usize = 0;
        while i < n_us
            invariant
                i <= n_us,
                self.pos + n_us <= data_len == self.data@.len(),
                v@ == self.data@.subrange(self.pos as int, self.pos + i),
            decreases n_us - i,
        {
            v.push(self.data[self.pos + i]);
            i = i + 1;
            assert(v@ =~= self.data@.subrange(self.pos as int, self.pos + i));
        }
        self.pos = self.pos + n_us;
        Ok(v)
    }

    /// Reads a little-endian two-byte integer.
    pub fn read_u16le(&mut self) -> (r: Result<u16, Error>)
        ensures
            final(self).data@ == old(self).data@,
            r is Ok <==> old(self).pos + 2 <= old(self).data@.len(),
            r matches Ok(v) ==> v == le16_val(old(self).data@, old(self).pos as int) && final(self).pos == old(self).pos + 2,
            r is Err ==> r == Result::<u16, Error>::Err(Error::UnexpectedEof) && final(self).pos
                == old(self).pos,
    {
        let b = self.read_bytes(2)?;
        let v: u16 = b[0] as u16 + b[1] as u16 * 0x100;
        Ok(v)
    }

    /// Reads a little-endian four-byte integer.
    pub fn read_u32le(&mut self) -> (r: Result<u32, Error>)
        ensures
            final(self).data@ == old(self).data@,
            r is Ok <==> old(self).pos + 4 <= old(self).data@.len(),
            r matches Ok(v) ==> v == le32_val(old(self).data@, old(self).pos as int) && final(self).pos == old(self).pos + 4,
            r is Err ==> r == Result::<u32, Error>::Err(Error::UnexpectedEof) && final(self).pos
                == old(self).pos,
    {
        if self.data.len() < 4 || self.pos > self.data.len() - 4 {
            return Err(Error::UnexpectedEof);
        }
        let lo = self.read_u16le()?;
        let hi = self.read_u16le()?;
        let v: u32 = lo as u32 + hi as u32 * 0x10000;
        Ok(v)
    }

    /// Reads a little-endian eight-byte integer.
    pub fn read_u64le(&mut self) -> (r: Result<u64, Error>)
        ensures
            final(self).data@ == old(self).data@,
            r is Ok <==> old(self).pos + 8 <= old(self).data@.len(),
            r matches Ok(v) ==> v == le64_val(old(self).data@, old(self).pos as int) && final(self).pos == old(self).pos + 8,
            r is Err ==> r == Result::<u64, Error>::Err(Error::UnexpectedEof) && final(self).pos
                == old(self).pos,
    {
        if self.data.len() < 8 || self.pos > self.data.len() - 8 {
            return Err(Error::UnexpectedEof);
        }
        let lo = self.read_u32le()?;
        let hi = self.read_u32le()?;
        let v: u64 = lo as u64 + hi as u64 * 0x100000000;
        Ok(v)
    }

    /// Reads a little-endian sixteen-byte integer.
    pub fn read_u128le(&mut self) -> (r: Result<u128, Error>)
        ensures
            final(self).data@ == old(self).data@,
            r is Ok <==> old(self).pos + 16 <= old(self).data@.len(),
            r matches Ok(v) ==> v == le128_val(old(self).data@, old(self).pos as int) && final(self).pos == old(self).pos + 16,
            r is Err ==> r == Result::<u128, Error>::Err(Error::UnexpectedEof) && final(self).pos
                == old(self).pos,
    {
        if self.data.len() < 16 || self.pos > self.data.len() - 16 {
            return Err(Error::UnexpectedEof);
        }
        let lo = self.read_u64le()?;
        let hi = self.read_u64le()?;
        let v: u128 = lo as u128 + hi as u128 * 0x10000000000000000;
        Ok(v)
    }

    /// Writes the given bytes at the cursor and moves it past them.
    pub fn write_bytes(&mut self, b: &Vec<u8>)
        requires
            old(self).pos <= old(self).data@.len(),
        ensures
            final(self).data@ == spliced(old(self).data@, old(self).pos as int, b@),
            final(self).pos == old(self).pos + b@.len(),
            final(self).pos <= final(self).data@.len(),
    {
        let n = b.len();
        let p = self.pos;
        let mut out: Vec<u8> = Vec::new();
        let mut i: usize = 0;
        while i < p
            invariant
                i <= p <= self.data@.len(),
                out@ == self.data@.subrange(0, i as int),
            decreases p - i,
        {
            out.push(self.data[i]);
            i = i + 1;
            assert(out@ =~= self.data@.subrange(0, i as int));
        }
        let mut j: usize = 0;
        while j < n
            invariant
                j <= n == b@.len(),
                p <= self.data@.len(),
                out@ == self.data@.subrange(0, p as int) + b@.subrange(0, j as int),
            decreases n - j,
        {
            out.push(b[j]);
            j = j + 1;
            assert(out@ =~= self.data@.subrange(0, p as int) + b@.subrange(0, j as int));
        }
        assert(b@.subrange(0, n as int) =~= b@);
        if n < self.data.len() - p {
            let mut k: usize = p + n;
            while k < self.data.len()
                invariant
                    p + n <= k <= self.data@.len(),
                    out@ == self.data@.subrange(0, p as int) + b@ + self.data@.subrange(
                        p + n,
                        k as int,
                    ),
                decreases self.data@.len() - k,
            {
                out.push(self.data[k]);
                k = k + 1;
                assert(out@ =~= self.data@.subrange(0, p as int) + b@ + self.data@.subrange(
                    p + n,
                    k as int,
                ));
            }
        }
        proof {
            if p + n <= self.data@.len() {
                assert(out@ =~= spliced(self.data@, p as int, b@));
            } else {
                assert(out@ =~= spliced(self.data@, p as int, b@));
            }
        }
        let l = out.len();
        assert(p + n <= l);
        self.data = out;
        self.pos = p + n;
    }

    /// Writes a little-endian two-byte integer at the cursor.
    pub fn write_u16le(&mut self, v: u16)
        requires
            old(self).pos <= old(self).data@.len(),
        ensures
            final(self).data@ == spliced(old(self).data@, old(self).pos as int, le16_bytes(v)),
            final(self).pos == old(self).pos + 2,
            final(self).pos <= final(self).data@.len(),
    {
        let mut b: Vec<u8> = Vec::new();
        b.push((v % 0x100) as u8);
        b.push(((v / 0x100) % 0x100) as u8);
        assert(b@ =~= le16_bytes(v));
        self.write_bytes(&b);
    }

    /// Writes a little-endian four-byte integer at the cursor.
    pub fn write_u32le(&mut self, v: u32)
        requires
            old(self).pos <= old(self).data@.len(),
        ensures
            final(self).data@ == spliced(old(self).data@, old(self).pos as int, le32_bytes(v)),
            final(self).pos == old(self).pos + 4,
            final(self).pos <= final(self).data@.len(),
    {
        let mut b: Vec<u8> = Vec::new();
        b.push((v % 0x100) as u8);
        b.push(((v / 0x100) % 0x100) as u8);
        b.push(((v / 0x10000) % 0x100) as u8);
        b.push(((v / 0x1000000) % 0x100) as u8);
        assert(b@ =~= le32_bytes(v));
        self.write_bytes(&b);
    }

    /// Writes a little-endian eight-byte integer at the cursor.
    pub fn write_u64le(&mut self, v: u64)
        requires
            old(self).pos <= old(self).data@.len(),
        ensures
            final(self).data@ == spliced(old(self).data@, old(self).pos as int, le64_bytes(v)),
            final(self).pos == old(self).pos + 8,
            final(self).pos <= final(self).data@.len(),
    {
        let mut b: Vec<u8> = Vec::new();
        b.push((v % 0x100) as u8);
        b.push(((v / 0x100) % 0x100) as u8);
        b.push(((v / 0x10000) % 0x100) as u8);
        b.push(((v / 0x1000000) % 0x100) as u8);
        b.push(((v / 0x100000000) % 0x100) as u8);
        b.push(((v / 0x10000000000) % 0x100) as u8);
        b.push(((v / 0x1000000000000) % 0x100) as u8);
        b.push(((v / 0x100000000000000) % 0x100) as u8);
        assert(b@ =~= le64_bytes(v));
        self.write_bytes(&b);
    }

    /// Writes a little-endian four-byte integer at an absolute position,
    /// leaving the cursor where it stood.
    pub fn write_u32le_at(&mut self, at: u64, v: u32) -> (r: Result<(), Error>)
        ensures
            r is Ok <==> at <= old(self).data@.len(),
            r matches Ok(u) ==> final(self).data@ == spliced(
                old(self).data@,
                at as int,
                le32_bytes(v),
            ) && final(self).pos == old(self).pos,
            r is Err ==> r == Result::<(), Error>::Err(Error::UnexpectedEof) && *final(self)
                == *old(self),
    {
        if at > self.data.len() as u64 {
            return Err(Error::UnexpectedEof);
        }
        let saved = self.pos;
        self.pos = at as usize;
        self.write_u32le(v);
        self.pos = saved;
        Ok(())
    }
}

} // verus!
