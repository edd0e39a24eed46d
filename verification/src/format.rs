//! The mathematical model of the container format: header and entry-record
//! layout, version detection, and the reference semantics of parsing.

use vstd::prelude::*;
use vstd::utf8::{decode_utf8, valid_utf8};
use crate::bytes::{le128_val, le16_bytes, le16_val, le32_bytes, le32_val, le64_bytes, le64_val,
    zero_bytes};
use crate::crypto::{aes256cbc_dec, sha256_of};
use crate::types::{Encryption, Error, File, FileWithSource, Metadata};

verus! {

/// The magic of the historical first version.
pub open spec fn magic_v1() -> Seq<u8> {
    seq![0x53u8, 0x46u8, 0x41u8, 0x00u8]
}

/// The magic of the later versions.
pub open spec fn magic_hssp() -> Seq<u8> {
    seq![0x48u8, 0x53u8, 0x53u8, 0x50u8]
}

/// The magic a writer emits for the given version.
pub open spec fn magic_bytes(version: u8) -> Seq<u8> {
    if version == 1 {
        magic_v1()
    } else {
        magic_hssp()
    }
}

/// Bytes of a header with the given fields: magic, checksum, entry count,
/// key hash, IV, main-file field, and for versions past the second the
/// 64-byte reserved block.
pub open spec fn header_bytes(
    version: u8,
    checksum: u32,
    count: u32,
    kh: Seq<u8>,
    iv: Seq<u8>,
    mainf: u32,
) -> Seq<u8>
    recommends
        kh.len() == 32,
        iv.len() == 16,
{
    magic_bytes(version) + le32_bytes(checksum) + le32_bytes(count) + kh + iv + le32_bytes(mainf)
        + if version > 2 {
        zero_bytes(64)
    } else {
        Seq::<u8>::empty()
    }
}

/// Where the body starts for the given version.
pub open spec fn header_size(version: int) -> int {
    if version > 2 {
        128
    } else {
        64
    }
}

/// The version a reader detects: the first magic marks the first version;
/// otherwise two zero sixteen-byte words after the fixed header mark the
/// third, and anything else the second.
pub open spec fn detected_version(d: Seq<u8>) -> int
    recommends
        d.len() >= 64,
{
    if d.subrange(0, 4) == magic_v1() {
        1
    } else if d.len() >= 96 && le128_val(d, 64) == 0 && le128_val(d, 80) == 0 {
        3
    } else {
        2
    }
}

/// The stored key hash region of a header.
pub open spec fn stored_key_hash(d: Seq<u8>) -> Seq<u8> {
    d.subrange(12, 44)
}

/// The stored IV region of a header.
pub open spec fn stored_iv(d: Seq<u8>) -> Seq<u8> {
    d.subrange(44, 60)
}

/// An archive is deemed encrypted exactly when the 48 key-hash and IV bytes
/// are not all zero.
pub open spec fn is_encrypted_header(d: Seq<u8>) -> bool {
    !(stored_key_hash(d) == zero_bytes(32) && stored_iv(d) == zero_bytes(16))
}

/// The value the writer stores in the main-file field: one past the index,
/// zero for none, with the largest index spilling to zero.
pub open spec fn main_field_of(main_file: Option<u32>) -> u32 {
    match main_file {
        Some(m) => if m < 0xFFFFFFFFu32 {
            (m + 1) as u32
        } else {
            0u32
        },
        None => 0u32,
    }
}

/// The index a reader recovers from the main-file field.
pub open spec fn main_of_field(f: int) -> Option<u32>
    recommends
        0 <= f < 0x100000000,
{
    if f > 0 {
        Some((f - 1) as u32)
    } else {
        None
    }
}

/// An entry as it is laid out in the body: the stored path bytes (with the
/// directory prefix already applied) and the payload bytes.
pub ghost struct RawEntry {
    pub stored_path: Seq<u8>,
    pub payload: Seq<u8>,
}

/// The record bytes of one entry: payload length, path length, path bytes,
/// payload bytes, and a zero pad as long as the path.
pub open spec fn enc_record(e: RawEntry) -> Seq<u8>
    recommends
        e.stored_path.len() <= 0xFFFF,
        e.payload.len() <= u64::MAX,
{
    le64_bytes(e.payload.len() as u64) + le16_bytes(e.stored_path.len() as u16) + e.stored_path
        + e.payload + zero_bytes(e.stored_path.len())
}

/// The record bytes of a whole entry table, in order.
pub open spec fn enc_records(es: Seq<RawEntry>) -> Seq<u8>
    decreases es.len(),
{
    if es.len() == 0 {
        Seq::<u8>::empty()
    } else {
        enc_record(es[0]) + enc_records(es.skip(1))
    }
}

/// Appending one entry to a table appends its record bytes.
#[verifier::rlimit(50)]
pub proof fn lemma_enc_records_snoc(es: Seq<RawEntry>, e: RawEntry)
    ensures
        enc_records(es.push(e)) == enc_records(es) + enc_record(e),
    decreases es.len(),
{
    let se = es.push(e);
    if es.len() == 0 {
        assert(se[0] == e);
        assert(se.skip(1) =~= Seq::<RawEntry>::empty());
        assert(enc_records(se) == enc_record(e) + enc_records(se.skip(1)));
        assert(enc_record(e) + Seq::<u8>::empty() =~= enc_record(e));
        assert(Seq::<u8>::empty() + enc_record(e) =~= enc_record(e));
    } else {
        assert(se[0] == es[0]);
        assert(se.skip(1) =~= es.skip(1).push(e));
        lemma_enc_records_snoc(es.skip(1), e);
        assert(enc_records(se) == enc_record(es[0]) + (enc_records(es.skip(1)) + enc_record(e)));
        assert(enc_record(es[0]) + (enc_records(es.skip(1)) + enc_record(e)) =~= (enc_record(
            es[0],
        ) + enc_records(es.skip(1))) + enc_record(e));
    }
}

/// The path bytes a writer stores for an entry: a `//` prefix marks a
/// directory.
pub open spec fn stored_path_of(path: Seq<char>, directory: bool) -> Seq<u8> {
    if directory {
        seq![0x2Fu8, 0x2Fu8] + vstd::utf8::encode_utf8(path)
    } else {
        vstd::utf8::encode_utf8(path)
    }
}

/// The raw entry a writer derives from an entry description and the bytes of
/// its source stream.
pub open spec fn raw_of(f: File, src: Seq<u8>) -> RawEntry
    recommends
        f.offset + f.length <= src.len(),
{
    RawEntry {
        stored_path: stored_path_of(f.path@, f.directory),
        payload: src.subrange(f.offset as int, f.offset + f.length),
    }
}

/// The raw entries of a whole source list.
pub open spec fn raws_of(sources: Seq<FileWithSource>) -> Seq<RawEntry> {
    Seq::new(sources.len(), |i: int| raw_of(sources[i].0, sources[i].1.data@))
}

/// What the writer rejects, checked entry by entry: a stored path that
/// overflows the two-byte length field, then a payload range that runs past
/// its source.
pub open spec fn create_check(sources: Seq<FileWithSource>) -> Option<Error>
    decreases sources.len(),
{
    if sources.len() == 0 {
        None
    } else if stored_path_of(sources[0].0.path@, sources[0].0.directory).len() > 0xFFFF {
        Some(Error::PathTooLong)
    } else if sources[0].0.offset + sources[0].0.length > sources[0].1.data@.len() {
        Some(Error::UnexpectedEof)
    } else {
        create_check(sources.skip(1))
    }
}

/// Whether stored path bytes carry the directory marker.
pub open spec fn has_dir_prefix(sp: Seq<u8>) -> bool {
    sp.len() >= 2 && sp[0] == 0x2F && sp[1] == 0x2F
}

/// The stored path bytes with the directory marker removed.
pub open spec fn stripped_of(sp: Seq<u8>) -> Seq<u8> {
    if has_dir_prefix(sp) {
        sp.skip(2)
    } else {
        sp
    }
}

/// One entry as the parser records it: stripped path bytes, directory flag,
/// and the place of the payload in the stream the table was read from.
pub ghost struct ParsedEntry {
    pub path_bytes: Seq<u8>,
    pub directory: bool,
    pub offset: int,
    pub length: int,
}

/// The outcome of scanning an entry table.
pub ghost enum TableParse {
    /// All records parsed; carries the entries and the position after the
    /// last record.
    Done(Seq<ParsedEntry>, int),
    /// A read or skip ran past the end of the stream.
    Truncated,
    /// A stored path was not valid UTF-8.
    BadPath,
}

/// Reference semantics of scanning `count` entry records of `d` starting at
/// `p`: per record, read the payload length and the path length, take the
/// path bytes, strip a `//` prefix into the directory flag, record the
/// payload position, and skip the payload and the pad.
pub open spec fn parse_records(d: Seq<u8>, p: int, count: nat) -> TableParse
    decreases count,
{
    if count == 0 {
        TableParse::Done(seq![], p)
    } else if p + 10 > d.len() {
        TableParse::Truncated
    } else {
        let l = le64_val(d, p);
        let pl = le16_val(d, p + 8);
        if p + 10 + pl > d.len() {
            TableParse::Truncated
        } else {
            let raw = d.subrange(p + 10, p + 10 + pl);
            let dir = has_dir_prefix(raw);
            let stripped = stripped_of(raw);
            if !valid_utf8(stripped) {
                TableParse::BadPath
            } else {
                let off = p + 10 + pl;
                if off + l + pl > d.len() {
                    TableParse::Truncated
                } else {
                    match parse_records(d, off + l + pl, (count - 1) as nat) {
                        TableParse::Done(rest, end) => TableParse::Done(
                            seq![
                                ParsedEntry {
                                    path_bytes: stripped,
                                    directory: dir,
                                    offset: off,
                                    length: l,
                                },
                            ] + rest,
                            end,
                        ),
                        other => other,
                    }
                }
            }
        }
    }
}

/// Prefixes already-scanned entries onto the outcome of scanning the rest.
pub open spec fn table_prepend(es: Seq<ParsedEntry>, t: TableParse) -> TableParse {
    match t {
        TableParse::Done(rest, end) => TableParse::Done(es + rest, end),
        other => other,
    }
}

/// The encryption descriptor of the reference semantics.
pub ghost struct EncModel {
    pub hash: Seq<u8>,
    pub hash_expected: Seq<u8>,
    pub iv: Seq<u8>,
    pub decrypted: Seq<u8>,
}

/// A parsed archive of the reference semantics.
pub ghost struct MetaModel {
    pub version: int,
    pub checksum: int,
    pub enc: Option<EncModel>,
    pub entries: Seq<ParsedEntry>,
    pub main: Option<u32>,
    pub end_pos: int,
}

/// The outcome of reading an archive.
pub ghost enum MetaOutcome {
    Parsed(MetaModel),
    Truncated,
    BadPath,
}

/// Reference semantics of reading an archive from its first byte: parse the
/// header, detect the version, settle encryption from the key-hash and IV
/// regions and the supplied password, and scan the entry table from the
/// plain or the decrypted body.
pub open spec fn meta_spec(d: Seq<u8>, password: Option<Seq<char>>) -> MetaOutcome {
    if d.len() < 64 {
        MetaOutcome::Truncated
    } else {
        let v = detected_version(d);
        let checksum = le32_val(d, 4);
        let count = le32_val(d, 8);
        let kh = stored_key_hash(d);
        let iv = stored_iv(d);
        let mainf = le32_val(d, 60);
        let hs = header_size(v);
        if d.len() < hs {
            MetaOutcome::Truncated
        } else if !is_encrypted_header(d) {
            match parse_records(d, hs, count as nat) {
                TableParse::Done(entries, end) => MetaOutcome::Parsed(
                    MetaModel {
                        version: v,
                        checksum,
                        enc: None,
                        entries,
                        main: main_of_field(mainf),
                        end_pos: end,
                    },
                ),
                TableParse::Truncated => MetaOutcome::Truncated,
                TableParse::BadPath => MetaOutcome::BadPath,
            }
        } else {
            match password {
                None => MetaOutcome::Parsed(
                    MetaModel {
                        version: v,
                        checksum,
                        enc: Some(
                            EncModel {
                                hash: zero_bytes(32),
                                hash_expected: kh,
                                iv,
                                decrypted: Seq::<u8>::empty(),
                            },
                        ),
                        entries: seq![],
                        main: None,
                        end_pos: hs,
                    },
                ),
                Some(pw) => {
                    let key = sha256_of(vstd::utf8::encode_utf8(pw));
                    let computed = sha256_of(key);
                    if computed != kh {
                        MetaOutcome::Parsed(
                            MetaModel {
                                version: v,
                                checksum,
                                enc: Some(
                                    EncModel {
                                        hash: computed,
                                        hash_expected: kh,
                                        iv,
                                        decrypted: Seq::<u8>::empty(),
                                    },
                                ),
                                entries: seq![],
                                main: None,
                                end_pos: hs,
                            },
                        )
                    } else {
                        let body = aes256cbc_dec(d.subrange(hs, d.len() as int), key, iv);
                        match parse_records(body, 0, count as nat) {
                            TableParse::Done(entries, _end) => MetaOutcome::Parsed(
                                MetaModel {
                                    version: v,
                                    checksum,
                                    enc: Some(
                                        EncModel {
                                            hash: kh,
                                            hash_expected: kh,
                                            iv,
                                            decrypted: body,
                                        },
                                    ),
                                    entries,
                                    main: main_of_field(mainf),
                                    end_pos: d.len() as int,
                                },
                            ),
                            TableParse::Truncated => MetaOutcome::Truncated,
                            TableParse::BadPath => MetaOutcome::BadPath,
                        }
                    }
                },
            }
        }
    }
}

/// The character view of an optional password.
pub open spec fn password_view(p: Option<&str>) -> Option<Seq<char>> {
    match p {
        Some(s) => Some(s@),
        None => None,
    }
}

/// How a parsed entry shows up as a `File` value: the path is the decoded
/// stripped bytes.
pub open spec fn file_matches(f: File, e: ParsedEntry) -> bool {
    &&& valid_utf8(e.path_bytes)
    &&& f.path@ == decode_utf8(e.path_bytes)
    &&& f.directory == e.directory
    &&& f.offset as int == e.offset
    &&& f.length as int == e.length
}

/// How a file table shows up as `File` values, in order.
pub open spec fn files_match(fs: Seq<File>, es: Seq<ParsedEntry>) -> bool {
    &&& fs.len() == es.len()
    &&& forall|i: int| 0 <= i < es.len() ==> file_matches(#[trigger] fs[i], es[i])
}

/// How an encryption descriptor shows up as an `Encryption` value.
pub open spec fn enc_matches(e: Encryption, m: EncModel) -> bool {
    &&& e.hash@ == m.hash
    &&& e.hash_expected@ == m.hash_expected
    &&& e.iv@ == m.iv
    &&& e.decrypted@ == m.decrypted
}

/// How a parsed archive shows up as a `Metadata` value.
pub open spec fn meta_matches(m: Metadata, mm: MetaModel) -> bool {
    &&& m.version as int == mm.version
    &&& m.checksum as int == mm.checksum
    &&& match (m.encryption, mm.enc) {
        (Some(e), Some(em)) => enc_matches(e, em),
        (None, None) => true,
        _ => false,
    }
    &&& files_match(m.files@, mm.entries)
    &&& m.main_file == mm.main
}

} // verus!
