//! The general properties the library promises, proved over the reference
//! semantics: the write/read round trip, checksum integrity after the patch,
//! and the directory path encoding.

use vstd::prelude::*;
use vstd::utf8::{decode_utf8, encode_utf8, valid_utf8};
use crate::bytes::{le128_val, le16_bytes, le16_val, le32_bytes, le32_val, le64_bytes, le64_val, lemma_le16_roundtrip,
    lemma_le16_val_sub, lemma_le32_roundtrip, lemma_le64_roundtrip, lemma_le64_val_sub, spliced,
    zero_bytes};
use crate::checksum_seed;
use crate::crypto::murmur3_of;
use crate::format::{detected_version, enc_record, enc_records, has_dir_prefix, header_bytes,
    header_size, is_encrypted_header, magic_bytes, magic_v1, main_field_of, main_of_field,
    meta_spec, parse_records, stored_iv, stored_key_hash, stored_path_of, stripped_of, EncModel,
    MetaModel, MetaOutcome, ParsedEntry, RawEntry, TableParse};

verus! {

/// The entry table a reader recovers from a table written at `p`: each
/// entry's payload sits ten bytes past the record start plus the stored path,
/// the directory marker is stripped back off, and lengths carry over.
pub open spec fn expected_entries(raws: Seq<RawEntry>, p: int) -> Seq<ParsedEntry>
    decreases raws.len(),
{
    if raws.len() == 0 {
        seq![]
    } else {
        seq![
            ParsedEntry {
                path_bytes: stripped_of(raws[0].stored_path),
                directory: has_dir_prefix(raws[0].stored_path),
                offset: p + 10 + raws[0].stored_path.len(),
                length: raws[0].payload.len() as int,
            },
        ] + expected_entries(raws.skip(1), p + enc_record(raws[0]).len())
    }
}

/// Entries a writer can store and a reader recover: a non-empty stored path
/// that fits the two-byte length field and decodes after stripping, and a
/// payload whose length fits the eight-byte field.
pub open spec fn wf_raws(raws: Seq<RawEntry>) -> bool {
    forall|i: int| 0 <= i < raws.len() ==> {
        &&& 1 <= (#[trigger] raws[i]).stored_path.len() <= 0xFFFF
        &&& raws[i].payload.len() <= u64::MAX
        &&& valid_utf8(stripped_of(raws[i].stored_path))
    }
}

/// The left part of a concatenation, cut out again.
pub proof fn lemma_concat_sub_left(x: Seq<u8>, y: Seq<u8>, a: int, b: int)
    requires
        0 <= a <= b <= x.len(),
    ensures
        (x + y).subrange(a, b) == x.subrange(a, b),
{
    assert((x + y).subrange(a, b) =~= x.subrange(a, b));
}

/// The right part of a concatenation, cut out again.
pub proof fn lemma_concat_sub_right(x: Seq<u8>, y: Seq<u8>, a: int, b: int)
    requires
        0 <= a <= b <= y.len(),
    ensures
        (x + y).subrange(x.len() + a, x.len() + b) == y.subrange(a, b),
{
    assert((x + y).subrange(x.len() + a, x.len() + b) =~= y.subrange(a, b));
}

/// Where each field of one entry record lies in its bytes.
#[verifier::rlimit(100)]
pub proof fn lemma_enc_record_layout(e: RawEntry)
    ensures
        ({
            let rec = enc_record(e);
            let pl = e.stored_path.len() as int;
            let l = e.payload.len() as int;
            &&& rec.len() == 10 + l + 2 * pl
            &&& rec.subrange(0, 8) == le64_bytes(e.payload.len() as u64)
            &&& rec.subrange(8, 10) == le16_bytes(e.stored_path.len() as u16)
            &&& rec.subrange(10, 10 + pl) == e.stored_path
            &&& rec.subrange(10 + pl, 10 + pl + l) == e.payload
        }),
{
    let rec = enc_record(e);
    let pl = e.stored_path.len() as int;
    let l = e.payload.len() as int;
    assert(rec.subrange(0, 8) =~= le64_bytes(e.payload.len() as u64));
    assert(rec.subrange(8, 10) =~= le16_bytes(e.stored_path.len() as u16));
    assert(rec.subrange(10, 10 + pl) =~= e.stored_path);
    assert(rec.subrange(10 + pl, 10 + pl + l) =~= e.payload);
}

/// A recovered table has exactly one entry per written entry.
pub proof fn lemma_expected_entries_len(raws: Seq<RawEntry>, p: int)
    ensures
        expected_entries(raws, p).len() == raws.len(),
    decreases raws.len(),
{
    if raws.len() > 0 {
        lemma_expected_entries_len(raws.skip(1), p + enc_record(raws[0]).len());
    }
}

/// Round trip of the entry table: scanning a written table recovers every
/// entry — paths, directory flags, payload places and lengths — and ends
/// exactly at the table's end.
#[verifier::rlimit(100)]
#[verifier::spinoff_prover]
pub proof fn lemma_parse_encode_records(d: Seq<u8>, p: int, raws: Seq<RawEntry>)
    requires
        wf_raws(raws),
        0 <= p,
        p + enc_records(raws).len() <= d.len(),
        d.subrange(p, p + enc_records(raws).len() as int) == enc_records(raws),
    ensures
        parse_records(d, p, raws.len()) == TableParse::Done(
            expected_entries(raws, p),
            p + enc_records(raws).len(),
        ),
    decreases raws.len(),
{
    if raws.len() == 0 {
        assert(enc_records(raws).len() == 0);
    } else {
        let r0 = raws[0];
        let rec = enc_record(r0);
        let rest_recs = enc_records(raws.skip(1));
        assert(enc_records(raws) == rec + rest_recs);
        let all = enc_records(raws);
        let l = r0.payload.len() as int;
        let pl = r0.stored_path.len() as int;
        lemma_enc_record_layout(r0);
        assert(all.len() == rec.len() + rest_recs.len());
        let w = d.subrange(p, p + rec.len() as int);
        assert(w =~= all.subrange(0, rec.len() as int)) by {
            assert(forall|k: int|
                0 <= k < rec.len() ==> #[trigger] d.subrange(p, p + enc_records(raws).len() as int)[k]
                    == d[p + k]);
        }
        lemma_concat_sub_left(rec, rest_recs, 0, rec.len() as int);
        assert(rec.subrange(0, rec.len() as int) =~= rec);
        assert(w == rec);
        lemma_le64_roundtrip(r0.payload.len() as u64);
        assert(le64_val(d, p) == l) by {
            assert(forall|k: int|
                0 <= k < 8 ==> d[p + k] == #[trigger] le64_bytes(r0.payload.len() as u64)[k])
                by {
                assert(forall|k: int| 0 <= k < 8 ==> #[trigger] w[k] == d[p + k]);
                assert(forall|k: int|
                    0 <= k < 8 ==> #[trigger] rec.subrange(0, 8)[k] == rec[k] == w[k]);
            }
            lemma_le64_val_sub(le64_bytes(r0.payload.len() as u64), 0, d, p);
        }
        lemma_le16_roundtrip(r0.stored_path.len() as u16);
        assert(le16_val(d, p + 8) == pl) by {
            assert(forall|k: int|
                0 <= k < 2 ==> d[p + 8 + k] == #[trigger] le16_bytes(
                    r0.stored_path.len() as u16,
                )[k]) by {
                assert(forall|k: int| 0 <= k < 2 ==> #[trigger] w[8 + k] == d[p + 8 + k]);
                assert(forall|k: int|
                    0 <= k < 2 ==> #[trigger] rec.subrange(8, 10)[k] == rec[8 + k] == w[8 + k]);
            }
            lemma_le16_val_sub(le16_bytes(r0.stored_path.len() as u16), 0, d, p + 8);
        }
        let raw = d.subrange(p + 10, p + 10 + pl);
        assert(raw == r0.stored_path) by {
            assert(raw =~= rec.subrange(10, 10 + pl)) by {
                assert(forall|k: int| 0 <= k < pl ==> #[trigger] raw[k] == d[p + 10 + k]);
                assert(forall|k: int| 0 <= k < pl ==> #[trigger] w[10 + k] == d[p + 10 + k]);
                assert(forall|k: int|
                    0 <= k < pl ==> #[trigger] rec.subrange(10, 10 + pl)[k] == rec[10 + k] == w[
                        10 + k
                    ]);
            }
        }
        assert(valid_utf8(stripped_of(raw)));
        let off = p + 10 + pl;
        assert(off + l + pl == p + rec.len());
        let p2 = p + rec.len();
        assert(d.subrange(p2, p2 + rest_recs.len() as int) =~= rest_recs) by {
            assert(forall|k: int|
                0 <= k < rest_recs.len() ==> #[trigger] d.subrange(
                    p2,
                    p2 + rest_recs.len() as int,
                )[k] == d[p2 + k]);
            assert(forall|k: int|
                0 <= k < rest_recs.len() ==> #[trigger] d[p2 + k] == all[rec.len() + k]) by {
                assert(forall|k: int|
                    0 <= k < all.len() ==> #[trigger] d.subrange(
                        p,
                        p + enc_records(raws).len() as int,
                    )[k] == d[p + k]);
            }
            assert(forall|k: int|
                0 <= k < rest_recs.len() ==> #[trigger] all[rec.len() + k] == rest_recs[k]);
        }
        assert(wf_raws(raws.skip(1))) by {
            assert(forall|i: int|
                0 <= i < raws.skip(1).len() ==> #[trigger] raws.skip(1)[i] == raws[i + 1]);
        }
        lemma_parse_encode_records(d, p2, raws.skip(1));
        let pe0 = ParsedEntry {
            path_bytes: stripped_of(r0.stored_path),
            directory: has_dir_prefix(r0.stored_path),
            offset: off,
            length: l,
        };
        assert(parse_records(d, p, raws.len()) == TableParse::Done(
            seq![pe0] + expected_entries(raws.skip(1), p2),
            p2 + rest_recs.len(),
        ));
        assert(expected_entries(raws, p) == seq![pe0] + expected_entries(raws.skip(1), p2));
        assert(p2 + rest_recs.len() == p + enc_records(raws).len());
    }
}

/// Directory encoding: a directory's stored path starts with the two-byte
/// marker and strips back to the path's own bytes; a plain path is stored as
/// written. Stripping and decoding give the path back exactly.
pub proof fn lemma_stored_path_roundtrip(path: Seq<char>, directory: bool)
    requires
        !directory ==> !has_dir_prefix(encode_utf8(path)),
    ensures
        directory ==> stored_path_of(path, directory)[0] == 0x2F && stored_path_of(
            path,
            directory,
        )[1] == 0x2F,
        has_dir_prefix(stored_path_of(path, directory)) == directory,
        stripped_of(stored_path_of(path, directory)) == encode_utf8(path),
        valid_utf8(stripped_of(stored_path_of(path, directory))),
        decode_utf8(stripped_of(stored_path_of(path, directory))) == path,
{
    broadcast use vstd::utf8::encode_utf8_valid_utf8, vstd::utf8::encode_utf8_decode_utf8;

    if directory {
        let sp = stored_path_of(path, true);
        assert(sp.len() >= 2);
        assert(sp[0] == 0x2F && sp[1] == 0x2F);
        assert(sp.skip(2) =~= encode_utf8(path));
    }
}

/// Checksum integrity: patching the hash of the body over the placeholder
/// yields a header that stores that hash, leaves the body untouched, and so
/// recomputing the seeded hash over the body range matches the stored field.
pub proof fn lemma_write_hash_verifies(
    version: u8,
    count: u32,
    kh: Seq<u8>,
    iv: Seq<u8>,
    mainf: u32,
    body: Seq<u8>,
)
    requires
        kh.len() == 32,
        iv.len() == 16,
    ensures
        ({
            let h = murmur3_of(body, checksum_seed());
            let d0 = header_bytes(version, 0, count, kh, iv, mainf) + body;
            let d = spliced(d0, 4, le32_bytes(h));
            let hlen: int = if version > 2 {
                128
            } else {
                64
            };
            &&& d == header_bytes(version, h, count, kh, iv, mainf) + body
            &&& le32_val(d, 4) == h
            &&& d.skip(hlen) == body
            &&& murmur3_of(d.skip(hlen), checksum_seed()) == h
        }),
{
    let h = murmur3_of(body, checksum_seed());
    let d0 = header_bytes(version, 0, count, kh, iv, mainf) + body;
    let d = spliced(d0, 4, le32_bytes(h));
    let hlen: int = if version > 2 {
        128
    } else {
        64
    };
    assert(header_bytes(version, 0, count, kh, iv, mainf).len() == hlen);
    assert(d =~= header_bytes(version, h, count, kh, iv, mainf) + body);
    lemma_le32_roundtrip(h);
    assert(forall|k: int| 0 <= k < 4 ==> d[4 + k] == #[trigger] le32_bytes(h)[k]);
    lemma_le32_val_sub(le32_bytes(h), 0, d, 4);
    assert(d.skip(hlen) =~= body);
}

/// Same-window equality for four-byte values.
pub proof fn lemma_le32_val_sub(d: Seq<u8>, i: int, e: Seq<u8>, j: int)
    requires
        0 <= i,
        i + 4 <= d.len(),
        0 <= j,
        j + 4 <= e.len(),
        forall|k: int| 0 <= k < 4 ==> d[i + k] == #[trigger] e[j + k],
    ensures
        le32_val(d, i) == le32_val(e, j),
{
    assert(d[i + 0] == e[j + 0]);
    assert(d[i + 1] == e[j + 1]);
    assert(d[i + 2] == e[j + 2]);
    assert(d[i + 3] == e[j + 3]);
}


/// Where each field of a header lies in its bytes.
#[verifier::rlimit(100)]
pub proof fn lemma_header_layout(
    version: u8,
    checksum: u32,
    count: u32,
    kh: Seq<u8>,
    iv: Seq<u8>,
    mainf: u32,
)
    requires
        kh.len() == 32,
        iv.len() == 16,
    ensures
        ({
            let hdr = header_bytes(version, checksum, count, kh, iv, mainf);
            &&& hdr.len() == (if version > 2 { 128int } else { 64int })
            &&& hdr.subrange(0, 4) == magic_bytes(version)
            &&& hdr.subrange(4, 8) == le32_bytes(checksum)
            &&& hdr.subrange(8, 12) == le32_bytes(count)
            &&& hdr.subrange(12, 44) == kh
            &&& hdr.subrange(44, 60) == iv
            &&& hdr.subrange(60, 64) == le32_bytes(mainf)
            &&& version > 2 ==> hdr.subrange(64, 128) == zero_bytes(64)
        }),
{
    let hdr = header_bytes(version, checksum, count, kh, iv, mainf);
    assert(hdr.subrange(0, 4) =~= magic_bytes(version));
    assert(hdr.subrange(4, 8) =~= le32_bytes(checksum));
    assert(hdr.subrange(8, 12) =~= le32_bytes(count));
    assert(hdr.subrange(12, 44) =~= kh);
    assert(hdr.subrange(44, 60) =~= iv);
    assert(hdr.subrange(60, 64) =~= le32_bytes(mainf));
    if version > 2 {
        assert(hdr.subrange(64, 128) =~= zero_bytes(64));
    }
}

/// What a reader finds in an archive assembled from a header and a body:
/// every header field at its place, and the body right after the header.
#[verifier::rlimit(100)]
#[verifier::spinoff_prover]
pub proof fn lemma_archive_header_fields(
    version: u8,
    checksum: u32,
    count: u32,
    kh: Seq<u8>,
    iv: Seq<u8>,
    mainf: u32,
    body: Seq<u8>,
)
    requires
        kh.len() == 32,
        iv.len() == 16,
    ensures
        ({
            let d = header_bytes(version, checksum, count, kh, iv, mainf) + body;
            let hlen: int = if version > 2 { 128 } else { 64 };
            &&& d.len() == hlen + body.len()
            &&& d.subrange(0, 4) == magic_bytes(version)
            &&& le32_val(d, 4) == checksum
            &&& le32_val(d, 8) == count
            &&& stored_key_hash(d) == kh
            &&& stored_iv(d) == iv
            &&& le32_val(d, 60) == mainf
            &&& version > 2 ==> le128_val(d, 64) == 0 && le128_val(d, 80) == 0
            &&& d.subrange(hlen, d.len() as int) == body
        }),
{
    let hdr = header_bytes(version, checksum, count, kh, iv, mainf);
    let d = hdr + body;
    let hlen: int = if version > 2 { 128 } else { 64 };
    lemma_header_layout(version, checksum, count, kh, iv, mainf);
    assert(forall|k: int| 0 <= k < hlen ==> d[k] == #[trigger] hdr[k]);
    assert(d.subrange(0, 4) =~= magic_bytes(version)) by {
        assert(forall|k: int| 0 <= k < 4 ==> #[trigger] hdr.subrange(0, 4)[k] == hdr[k]);
    }
    assert(le32_val(d, 4) == checksum) by {
        assert(forall|k: int|
            0 <= k < 4 ==> d[4 + k] == #[trigger] le32_bytes(checksum)[k]) by {
            assert(forall|k: int| 0 <= k < 4 ==> #[trigger] hdr.subrange(4, 8)[k] == hdr[4 + k]);
        }
        lemma_le32_val_sub(le32_bytes(checksum), 0, d, 4);
        lemma_le32_roundtrip(checksum);
    }
    assert(le32_val(d, 8) == count) by {
        assert(forall|k: int| 0 <= k < 4 ==> d[8 + k] == #[trigger] le32_bytes(count)[k]) by {
            assert(forall|k: int|
                0 <= k < 4 ==> #[trigger] hdr.subrange(8, 12)[k] == hdr[8 + k]);
        }
        lemma_le32_val_sub(le32_bytes(count), 0, d, 8);
        lemma_le32_roundtrip(count);
    }
    assert(stored_key_hash(d) =~= kh) by {
        assert(forall|k: int| 0 <= k < 32 ==> #[trigger] hdr.subrange(12, 44)[k] == hdr[12 + k]);
        assert(forall|k: int| 0 <= k < 32 ==> #[trigger] d.subrange(12, 44)[k] == d[12 + k]);
    }
    assert(stored_iv(d) =~= iv) by {
        assert(forall|k: int| 0 <= k < 16 ==> #[trigger] hdr.subrange(44, 60)[k] == hdr[44 + k]);
        assert(forall|k: int| 0 <= k < 16 ==> #[trigger] d.subrange(44, 60)[k] == d[44 + k]);
    }
    assert(le32_val(d, 60) == mainf) by {
        assert(forall|k: int| 0 <= k < 4 ==> d[60 + k] == #[trigger] le32_bytes(mainf)[k]) by {
            assert(forall|k: int|
                0 <= k < 4 ==> #[trigger] hdr.subrange(60, 64)[k] == hdr[60 + k]);
        }
        lemma_le32_val_sub(le32_bytes(mainf), 0, d, 60);
        lemma_le32_roundtrip(mainf);
    }
    if version > 2 {
        assert(forall|k: int| 0 <= k < 64 ==> #[trigger] d[64 + k] == 0) by {
            assert(forall|k: int|
                0 <= k < 64 ==> #[trigger] hdr.subrange(64, 128)[k] == hdr[64 + k]);
            assert(forall|k: int| 0 <= k < 64 ==> #[trigger] zero_bytes(64)[k] == 0);
        }
        assert(le128_val(d, 64) == 0);
        assert(le128_val(d, 80) == 0);
    }
    assert(d.subrange(hlen, d.len() as int) =~= body);
}

/// Full write/read round trip of a plaintext archive: whatever checksum its
/// header carries, reading the archive back recovers the version, the
/// checksum field, every entry, and the main-file index.
#[verifier::rlimit(100)]
#[verifier::spinoff_prover]
pub proof fn lemma_archive_roundtrip(
    version: u8,
    checksum: u32,
    raws: Seq<RawEntry>,
    main_file: Option<u32>,
)
    requires
        wf_raws(raws),
        raws.len() <= 0xFFFFFFFF,
        (main_file matches Some(m) ==> m < 0xFFFFFFFF),
    ensures
        ({
            let d = header_bytes(
                version,
                checksum,
                raws.len() as u32,
                zero_bytes(32),
                zero_bytes(16),
                main_field_of(main_file),
            ) + enc_records(raws);
            let v: int = if version == 1 { 1 } else if version > 2 { 3 } else { 2 };
            meta_spec(d, None) == MetaOutcome::Parsed(
                MetaModel {
                    version: v,
                    checksum: checksum as int,
                    enc: None,
                    entries: expected_entries(raws, header_size(v)),
                    main: main_file,
                    end_pos: d.len() as int,
                },
            )
        }),
{
    let count: u32 = raws.len() as u32;
    let mainf = main_field_of(main_file);
    let all = enc_records(raws);
    let hdr = header_bytes(version, checksum, count, zero_bytes(32), zero_bytes(16), mainf);
    let d = hdr + all;
    let hlen: int = if version > 2 { 128 } else { 64 };
    let v: int = if version == 1 { 1 } else if version > 2 { 3 } else { 2 };
    lemma_archive_header_fields(
        version,
        checksum,
        count,
        zero_bytes(32),
        zero_bytes(16),
        mainf,
        all,
    );
    assert(magic_bytes(1)[0] == 0x53 && magic_bytes(2)[0] == 0x48);
    if version == 1 {
        assert(detected_version(d) == 1);
    } else if version > 2 {
        assert(d.subrange(0, 4) != magic_v1()) by {
            assert(d.subrange(0, 4)[0] == 0x48 && magic_v1()[0] == 0x53);
        }
        assert(d.len() >= 96);
        assert(detected_version(d) == 3);
    } else {
        assert(d.subrange(0, 4) != magic_v1()) by {
            assert(d.subrange(0, 4)[0] == 0x48 && magic_v1()[0] == 0x53);
        }
        if raws.len() == 0 {
            assert(all.len() == 0);
            assert(d.len() < 96);
        } else if d.len() >= 96 {
            let r0 = raws[0];
            let rec = enc_record(r0);
            let rest_recs = enc_records(raws.skip(1));
            assert(all == rec + rest_recs);
            lemma_enc_record_layout(r0);
            let pl = r0.stored_path.len() as int;
            assert(le16_val(d, 72) == pl) by {
                assert(forall|k: int|
                    0 <= k < 2 ==> d[72 + k] == #[trigger] le16_bytes(
                        r0.stored_path.len() as u16,
                    )[k]) by {
                    assert(forall|k: int| 0 <= k < 2 ==> #[trigger] d[64 + 8 + k] == all[8 + k]);
                    assert(forall|k: int| 0 <= k < 2 ==> #[trigger] all[8 + k] == rec[8 + k]);
                    assert(forall|k: int|
                        0 <= k < 2 ==> #[trigger] rec.subrange(8, 10)[k] == rec[8 + k]);
                }
                lemma_le16_val_sub(le16_bytes(r0.stored_path.len() as u16), 0, d, 72);
                lemma_le16_roundtrip(r0.stored_path.len() as u16);
            }
            assert(pl >= 1);
            assert(le128_val(d, 64) != 0) by {
                crate::bytes::lemma_le_val_bounds(d, 64);
                crate::bytes::lemma_le_val_bounds(d, 72);
                crate::bytes::lemma_le_val_bounds(d, 76);
                crate::bytes::lemma_le_val_bounds(d, 74);
                assert(le32_val(d, 72) >= le16_val(d, 72));
                assert(le64_val(d, 72) >= le32_val(d, 72));
                assert(le128_val(d, 64) == le64_val(d, 64) + 0x10000000000000000 * le64_val(
                    d,
                    72,
                ));
                assert(le64_val(d, 64) >= 0);
                assert(le64_val(d, 72) >= 1);
            }
        }
        assert(detected_version(d) == 2);
    }
    assert(header_size(v) == hlen);
    assert(!is_encrypted_header(d));
    assert(d.subrange(hlen, hlen + all.len() as int) == all) by {
        assert(d.subrange(hlen, d.len() as int) == all);
    }
    lemma_parse_encode_records(d, hlen, raws);
    assert(count as nat == raws.len());
    assert(main_of_field(mainf as int) == main_file);
    assert(meta_spec(d, None) == MetaOutcome::Parsed(
        MetaModel {
            version: v,
            checksum: checksum as int,
            enc: None,
            entries: expected_entries(raws, header_size(v)),
            main: main_file,
            end_pos: d.len() as int,
        },
    ));
}


/// Reading back an encrypted archive with the right password: the reader
/// detects encryption, accepts the key, and whenever decryption yields the
/// written table — which the cipher's round trip guarantees at the call —
/// recovers every entry from the plaintext body.
#[verifier::rlimit(100)]
#[verifier::spinoff_prover]
pub proof fn lemma_encrypted_archive_parse(
    version: u8,
    checksum: u32,
    raws: Seq<RawEntry>,
    kh: Seq<u8>,
    iv: Seq<u8>,
    main_file: Option<u32>,
    cipher: Seq<u8>,
    pw: Seq<char>,
)
    requires
        version == 1 || version > 2,
        kh.len() == 32,
        iv.len() == 16,
        !(kh == zero_bytes(32) && iv == zero_bytes(16)),
        kh == crate::crypto::sha256_of(crate::crypto::sha256_of(encode_utf8(pw))),
        wf_raws(raws),
        raws.len() <= 0xFFFFFFFF,
        (main_file matches Some(m) ==> m < 0xFFFFFFFF),
        version > 2 ==> cipher.len() > 0,
    ensures
        ({
            let d = header_bytes(
                version,
                checksum,
                raws.len() as u32,
                kh,
                iv,
                main_field_of(main_file),
            ) + cipher;
            let v: int = if version == 1 { 1 } else { 3 };
            let key = crate::crypto::sha256_of(encode_utf8(pw));
            let body = crate::crypto::aes256cbc_dec(cipher, key, iv);
            body == enc_records(raws) ==> meta_spec(d, Some(pw)) == MetaOutcome::Parsed(
                MetaModel {
                    version: v,
                    checksum: checksum as int,
                    enc: Some(EncModel { hash: kh, hash_expected: kh, iv, decrypted: body }),
                    entries: expected_entries(raws, 0),
                    main: main_file,
                    end_pos: d.len() as int,
                },
            )
        }),
{
    let count: u32 = raws.len() as u32;
    let mainf = main_field_of(main_file);
    let hdr = header_bytes(version, checksum, count, kh, iv, mainf);
    let d = hdr + cipher;
    let hlen: int = if version > 2 { 128 } else { 64 };
    let v: int = if version == 1 { 1 } else { 3 };
    lemma_archive_header_fields(version, checksum, count, kh, iv, mainf, cipher);
    assert(magic_bytes(1)[0] == 0x53 && magic_bytes(2)[0] == 0x48);
    if version == 1 {
        assert(detected_version(d) == 1);
    } else {
        assert(d.subrange(0, 4) != magic_v1()) by {
            assert(d.subrange(0, 4)[0] == 0x48 && magic_v1()[0] == 0x53);
        }
        assert(d.len() >= 96);
        assert(detected_version(d) == 3);
    }
    assert(header_size(v) == hlen);
    assert(is_encrypted_header(d));
    let key = crate::crypto::sha256_of(encode_utf8(pw));
    let body = crate::crypto::aes256cbc_dec(cipher, key, iv);
    assert(d.subrange(hlen, d.len() as int) == cipher);
    if body == enc_records(raws) {
        assert(body.subrange(0, body.len() as int) =~= body);
        lemma_parse_encode_records(body, 0, raws);
        assert(count as nat == raws.len());
        assert(main_of_field(mainf as int) == main_file);
    }
}


/// Checksum integrity end to end: an archive written with the placeholder
/// and patched with its body hash parses back with that hash as its
/// checksum, and the hash a reader recomputes over the body range equals it.
pub proof fn lemma_created_archive_verifies(
    version: u8,
    raws: Seq<RawEntry>,
    main_file: Option<u32>,
)
    requires
        wf_raws(raws),
        raws.len() <= 0xFFFFFFFF,
        (main_file matches Some(m) ==> m < 0xFFFFFFFF),
    ensures
        ({
            let body = enc_records(raws);
            let h = murmur3_of(body, checksum_seed());
            let d0 = header_bytes(
                version,
                0,
                raws.len() as u32,
                zero_bytes(32),
                zero_bytes(16),
                main_field_of(main_file),
            ) + body;
            let d = spliced(d0, 4, le32_bytes(h));
            let v: int = if version == 1 { 1 } else if version > 2 { 3 } else { 2 };
            &&& (match meta_spec(d, None) {
                MetaOutcome::Parsed(mm) => mm.checksum == h && mm.version == v && mm.entries
                    == expected_entries(raws, header_size(v)) && mm.main == main_file,
                _ => false,
            })
            &&& murmur3_of(d.skip(header_size(v)), checksum_seed()) == h
        }),
{
    let body = enc_records(raws);
    let h = murmur3_of(body, checksum_seed());
    let count: u32 = raws.len() as u32;
    let mainf = main_field_of(main_file);
    let v: int = if version == 1 { 1 } else if version > 2 { 3 } else { 2 };
    lemma_write_hash_verifies(version, count, zero_bytes(32), zero_bytes(16), mainf, body);
    lemma_archive_roundtrip(version, h, raws, main_file);
    assert(header_size(v) == (if version > 2 { 128int } else { 64int }));
}


/// The first written payload lies right after its record's lengths and path.
#[verifier::rlimit(100)]
#[verifier::spinoff_prover]
pub proof fn lemma_first_payload_window(d: Seq<u8>, p: int, raws: Seq<RawEntry>)
    requires
        0 <= p,
        p + enc_records(raws).len() <= d.len(),
        d.subrange(p, p + enc_records(raws).len() as int) == enc_records(raws),
        raws.len() > 0,
        raws[0].stored_path.len() <= 0xFFFF,
        raws[0].payload.len() <= u64::MAX,
    ensures
        ({
            let l = raws[0].payload.len() as int;
            let pl = raws[0].stored_path.len() as int;
            d.subrange(p + 10 + pl, p + 10 + pl + l) == raws[0].payload
        }),
{
    let r0 = raws[0];
    let rec = enc_record(r0);
    let rest_recs = enc_records(raws.skip(1));
    assert(enc_records(raws) == rec + rest_recs);
    let all = enc_records(raws);
    let l = r0.payload.len() as int;
    let pl = r0.stored_path.len() as int;
    lemma_enc_record_layout(r0);
    d.lemma_slice_of_slice(p, p + all.len() as int, 10 + pl, 10 + pl + l);
    lemma_concat_sub_left(rec, rest_recs, 10 + pl, 10 + pl + l);
    assert(d.subrange(p + 10 + pl, p + 10 + pl + l) == r0.payload);
}

/// Each written payload lies exactly at the offset the reader records for
/// its entry: extraction over that range gives the entry's bytes back.
#[verifier::rlimit(100)]
#[verifier::spinoff_prover]
pub proof fn lemma_payload_at_offset(d: Seq<u8>, p: int, raws: Seq<RawEntry>, i: int)
    requires
        wf_raws(raws),
        0 <= p,
        p + enc_records(raws).len() <= d.len(),
        d.subrange(p, p + enc_records(raws).len() as int) == enc_records(raws),
        0 <= i < raws.len(),
    ensures
        ({
            let es = expected_entries(raws, p);
            d.subrange(es[i].offset, es[i].offset + es[i].length) == raws[i].payload
        }),
    decreases raws.len(),
{
    let rec = enc_record(raws[0]);
    let rest_recs = enc_records(raws.skip(1));
    assert(enc_records(raws) == rec + rest_recs);
    let all = enc_records(raws);
    let p2 = p + rec.len();
    if i == 0 {
        lemma_first_payload_window(d, p, raws);
    } else {
        d.lemma_slice_of_slice(p, p + all.len() as int, rec.len() as int, all.len() as int);
        lemma_concat_sub_right(rec, rest_recs, 0, rest_recs.len() as int);
        assert(rest_recs.subrange(0, rest_recs.len() as int) =~= rest_recs);
        assert(d.subrange(p2, p2 + rest_recs.len() as int) == rest_recs);
        assert(wf_raws(raws.skip(1))) by {
            assert(forall|j: int|
                0 <= j < raws.skip(1).len() ==> #[trigger] raws.skip(1)[j] == raws[j + 1]);
        }
        lemma_payload_at_offset(d, p2, raws.skip(1), i - 1);
        lemma_expected_entries_len(raws, p);
        lemma_expected_entries_len(raws.skip(1), p2);
        assert(expected_entries(raws, p) == seq![expected_entries(raws, p)[0]]
            + expected_entries(raws.skip(1), p2));
        assert(expected_entries(raws, p)[i] == expected_entries(raws.skip(1), p2)[i - 1]);
        assert(raws.skip(1)[i - 1] == raws[i]);
    }
}

} // verus!
