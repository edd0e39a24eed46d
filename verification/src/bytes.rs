//! Little-endian integer layouts and byte-sequence splicing, the ground the
//! container format is specified on.

use vstd::prelude::*;

verus! {

/// Value of the two bytes at `i` read as a little-endian integer.
pub open spec fn le16_val(d: Seq<u8>, i: int) -> int
    recommends
        0 <= i,
        i + 2 <= d.len(),
{
    d[i] + 0x100 * d[i + 1]
}

/// Value of the four bytes at `i` read as a little-endian integer.
pub open spec fn le32_val(d: Seq<u8>, i: int) -> int
    recommends
        0 <= i,
        i + 4 <= d.len(),
{
    le16_val(d, i) + 0x10000 * le16_val(d, i + 2)
}

/// Value of the eight bytes at `i` read as a little-endian integer.
pub open spec fn le64_val(d: Seq<u8>, i: int) -> int
    recommends
        0 <= i,
        i + 8 <= d.len(),
{
    le32_val(d, i) + 0x100000000 * le32_val(d, i + 4)
}

/// Value of the sixteen bytes at `i` read as a little-endian integer.
pub open spec fn le128_val(d: Seq<u8>, i: int) -> int
    recommends
        0 <= i,
        i + 16 <= d.len(),
{
    le64_val(d, i) + 0x10000000000000000 * le64_val(d, i + 8)
}

/// The two-byte little-endian encoding of `v`.
pub open spec fn le16_bytes(v: u16) -> Seq<u8> {
    seq![(v % 0x100) as u8, ((v / 0x100) % 0x100) as u8]
}

/// The four-byte little-endian encoding of `v`.
pub open spec fn le32_bytes(v: u32) -> Seq<u8> {
    seq![
        (v % 0x100) as u8,
        ((v / 0x100) % 0x100) as u8,
        ((v / 0x10000) % 0x100) as u8,
        ((v / 0x1000000) % 0x100) as u8,
    ]
}

/// The eight-byte little-endian encoding of `v`.
pub open spec fn le64_bytes(v: u64) -> Seq<u8> {
    seq![
        (v % 0x100) as u8,
        ((v / 0x100) % 0x100) as u8,
        ((v / 0x10000) % 0x100) as u8,
        ((v / 0x1000000) % 0x100) as u8,
        ((v / 0x100000000) % 0x100) as u8,
        ((v / 0x10000000000) % 0x100) as u8,
        ((v / 0x1000000000000) % 0x100) as u8,
        ((v / 0x100000000000000) % 0x100) as u8,
    ]
}

/// `n` zero bytes.
pub open spec fn zero_bytes(n: nat) -> Seq<u8> {
    Seq::new(n, |i: int| 0u8)
}

/// `d` with `w` written over it starting at `p`, growing the sequence when the
/// write runs past its end.
pub open spec fn spliced(d: Seq<u8>, p: int, w: Seq<u8>) -> Seq<u8>
    recommends
        0 <= p <= d.len(),
{
    if p + w.len() <= d.len() {
        d.take(p) + w + d.skip(p + w.len())
    } else {
        d.take(p) + w
    }
}

/// Writing at the very end of a sequence appends.
pub proof fn lemma_spliced_append(d: Seq<u8>, w: Seq<u8>)
    ensures
        spliced(d, d.len() as int, w) == d + w,
{
    assert(spliced(d, d.len() as int, w) =~= d + w);
}

/// Reading two bytes back after encoding yields the encoded value.
pub proof fn lemma_le16_roundtrip(v: u16)
    ensures
        le16_val(le16_bytes(v), 0) == v,
{
    assert(v % 0x100 + 0x100 * ((v / 0x100) % 0x100) == v) by (bit_vector);
}

/// Reading four bytes back after encoding yields the encoded value.
pub proof fn lemma_le32_roundtrip(v: u32)
    ensures
        le32_val(le32_bytes(v), 0) == v,
{
    assert(v % 0x100 + 0x100 * ((v / 0x100) % 0x100) + 0x10000 * ((v / 0x10000) % 0x100
        + 0x100 * ((v / 0x1000000) % 0x100)) == v) by (bit_vector);
}

/// Reading eight bytes back after encoding yields the encoded value.
pub proof fn lemma_le64_roundtrip(v: u64)
    ensures
        le64_val(le64_bytes(v), 0) == v,
{
    assert(v % 0x100 + 0x100 * ((v / 0x100) % 0x100) + 0x10000 * ((v / 0x10000) % 0x100
        + 0x100 * ((v / 0x1000000) % 0x100)) + 0x100000000 * ((v / 0x100000000) % 0x100
        + 0x100 * ((v / 0x10000000000) % 0x100) + 0x10000 * ((v / 0x1000000000000) % 0x100
        + 0x100 * ((v / 0x100000000000000) % 0x100))) == v) by (bit_vector);
}

/// A little-endian value read from a window equals the value read from any
/// sequence that carries the same bytes there.
pub proof fn lemma_le64_val_sub(d: Seq<u8>, i: int, e: Seq<u8>, j: int)
    requires
        0 <= i,
        i + 8 <= d.len(),
        0 <= j,
        j + 8 <= e.len(),
        forall|k: int| 0 <= k < 8 ==> d[i + k] == #[trigger] e[j + k],
    ensures
        le64_val(d, i) == le64_val(e, j),
{
    assert(d[i + 0] == e[j + 0]);
    assert(d[i + 1] == e[j + 1]);
    assert(d[i + 2] == e[j + 2]);
    assert(d[i + 3] == e[j + 3]);
    assert(d[i + 4] == e[j + 4]);
    assert(d[i + 5] == e[j + 5]);
    assert(d[i + 6] == e[j + 6]);
    assert(d[i + 7] == e[j + 7]);
}

/// Same-window equality for two-byte values.
pub proof fn lemma_le16_val_sub(d: Seq<u8>, i: int, e: Seq<u8>, j: int)
    requires
        0 <= i,
        i + 2 <= d.len(),
        0 <= j,
        j + 2 <= e.len(),
        forall|k: int| 0 <= k < 2 ==> d[i + k] == #[trigger] e[j + k],
    ensures
        le16_val(d, i) == le16_val(e, j),
{
    assert(d[i + 0] == e[j + 0]);
    assert(d[i + 1] == e[j + 1]);
}

/// The bounds of the little-endian readings.
pub proof fn lemma_le_val_bounds(d: Seq<u8>, i: int)
    requires
        0 <= i,
    ensures
        i + 2 <= d.len() ==> 0 <= le16_val(d, i) < 0x10000,
        i + 4 <= d.len() ==> 0 <= le32_val(d, i) < 0x100000000,
        i + 8 <= d.len() ==> 0 <= le64_val(d, i) < 0x10000000000000000,
        i + 16 <= d.len() ==> 0 <= le128_val(d, i) < 0x100000000000000000000000000000000,
{
}

} // verus!
