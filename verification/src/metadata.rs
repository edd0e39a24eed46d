//! Reading an archive: integrity verification and header/entry-table
//! parsing, verified against the reference semantics in `format`.

use vstd::prelude::*;
use vstd::string::StrSliceExecFns;
use vstd::utf8::encode_utf8;
use crate::bytes::{le16_val, le64_val};
use crate::checksum_seed;
use crate::crypto::{aes256cbc_enc, aes_decrypt, bytes_to_string, murmur3_of, sha256_digest,
    sha256_of};
use crate::format::{detected_version, files_match, header_size, is_encrypted_header, magic_v1,
    meta_matches, meta_spec, parse_records, password_view, stored_iv, stored_key_hash,
    table_prepend, MetaOutcome, ParsedEntry, TableParse};
use crate::hash::hash;
use crate::stream::{bytes_eq, copy_bytes, zero_vec, ByteStream};
use crate::types::{Encryption, Error, File, Metadata};

verus! {

/// Recomputes the seeded body hash of `reader` and compares it with the
/// checksum recorded in `meta`, leaving the cursor where it stood.
pub fn verify_integrity(reader: &mut ByteStream, meta: &Metadata) -> (r: Result<bool, Error>)
    requires
        old(reader).pos <= old(reader).data@.len(),
    ensures
        final(reader).data@ == old(reader).data@,
        final(reader).pos == old(reader).pos,
        r is Ok <==> header_size(meta.version as int) <= old(reader).data@.len(),
        r matches Ok(b) ==> b == (murmur3_of(
            old(reader).data@.skip(header_size(meta.version as int)),
            checksum_seed(),
        ) == meta.checksum),
        r is Err ==> r == Result::<bool, Error>::Err(Error::UnexpectedEof),
{
    let offset: u64 = if meta.version > 2 {
        128
    } else {
        64
    };
    let size = reader.size();
    if size < offset {
        return Err(Error::UnexpectedEof);
    }
    let calculated = match hash(reader, offset, size - offset) {
        Ok(h) => h,
        Err(e) => {
            return Err(e);
        },
    };
    proof {
        assert(old(reader).data@.subrange(offset as int, offset + (size - offset))
            =~= old(reader).data@.skip(header_size(meta.version as int)));
    }
    Ok(calculated == meta.checksum)
}

/// Scans `count` entry records from the cursor of `body`, building the file
/// table exactly as the reference semantics describe.
pub(crate) fn parse_entry_table(body: &mut ByteStream, count: u32) -> (r: Result<Vec<File>, Error>)
    ensures
        final(body).data@ == old(body).data@,
        (match r {
            Ok(files) => (match parse_records(
                old(body).data@,
                old(body).pos as int,
                count as nat,
            ) {
                TableParse::Done(es, end) => files_match(files@, es) && final(body).pos == end,
                _ => false,
            }),
            Err(e) => (match parse_records(old(body).data@, old(body).pos as int, count as nat) {
                TableParse::Done(_, _) => false,
                TableParse::Truncated => e == Error::UnexpectedEof,
                TableParse::BadPath => e == Error::InvalidUtf8,
            }),
        }),
{
    let ghost d = body.data@;
    let ghost p0 = body.pos as int;
    let ghost total = parse_records(d, p0, count as nat);
    let mut files: Vec<File> = Vec::new();
    let ghost mut done: Seq<ParsedEntry> = seq![];
    let mut i: u32 = 0;
    while i < count
        invariant
            body.data@ == d,
            d == old(body).data@,
            p0 == old(body).pos as int,
            i <= count,
            files_match(files@, done),
            total == parse_records(d, p0, count as nat),
            total == table_prepend(done, parse_records(d, body.pos as int, (count - i) as nat)),
        decreases count - i,
    {
        let ghost cur = body.pos as int;
        let ghost rem = (count - i) as nat;
        let ghost t_rem = parse_records(d, cur, rem);
        let sz = body.size();
        let l = match body.read_u64le() {
            Ok(x) => x,
            Err(_) => {
                assert(cur + 10 > d.len());
                assert(t_rem == TableParse::Truncated);
                return Err(Error::UnexpectedEof);
            },
        };
        let pl = match body.read_u16le() {
            Ok(x) => x,
            Err(_) => {
                assert(cur + 10 > d.len());
                assert(t_rem == TableParse::Truncated);
                return Err(Error::UnexpectedEof);
            },
        };
        let raw = match body.read_bytes(pl as u64) {
            Ok(x) => x,
            Err(_) => {
                assert(cur + 10 + le16_val(d, cur + 8) > d.len());
                assert(t_rem == TableParse::Truncated);
                return Err(Error::UnexpectedEof);
            },
        };
        assert(raw@ == d.subrange(cur + 10, cur + 10 + le16_val(d, cur + 8)));
        let directory = raw.len() >= 2 && raw[0] == 0x2F && raw[1] == 0x2F;
        let stripped: Vec<u8> = if directory {
            let mut s: Vec<u8> = Vec::new();
            let mut j: usize = 2;
            while j < raw.len()
                invariant
                    2 <= j <= raw@.len(),
                    s@ == raw@.subrange(2, j as int),
                decreases raw@.len() - j,
            {
                s.push(raw[j]);
                j = j + 1;
                assert(s@ =~= raw@.subrange(2, j as int));
            }
            assert(s@ =~= raw@.skip(2));
            s
        } else {
            raw
        };
        let path = match bytes_to_string(stripped) {
            Some(p) => p,
            None => {
                assert(t_rem == TableParse::BadPath);
                return Err(Error::InvalidUtf8);
            },
        };
        let offset = body.pos();
        let ghost off = cur + 10 + le16_val(d, cur + 8);
        assert(offset as int == off);
        let pl64 = pl as u64;
        if l > u64::MAX - pl64 {
            assert(d.len() == sz);
            assert(t_rem == TableParse::Truncated);
            return Err(Error::UnexpectedEof);
        }
        let skip_len = l + pl64;
        if skip_len > u64::MAX - offset {
            assert(d.len() == sz);
            assert(t_rem == TableParse::Truncated);
            return Err(Error::UnexpectedEof);
        }
        match body.to(offset + skip_len) {
            Ok(()) => {},
            Err(_) => {
                assert(off + le64_val(d, cur) + le16_val(d, cur + 8) > d.len());
                assert(t_rem == TableParse::Truncated);
                return Err(Error::UnexpectedEof);
            },
        }
        let ghost pe = ParsedEntry {
            path_bytes: if directory {
                d.subrange(cur + 10, off).skip(2)
            } else {
                d.subrange(cur + 10, off)
            },
            directory: directory,
            offset: off,
            length: l as int,
        };
        files.push(
            File { path, directory, offset, length: l },
        );
        proof {
            let t_next = parse_records(d, body.pos as int, (rem - 1) as nat);
            match t_next {
                TableParse::Done(rest, end) => {
                    assert(t_rem == TableParse::Done(seq![pe] + rest, end));
                    assert((done + seq![pe]) + rest =~= done + (seq![pe] + rest));
                },
                TableParse::Truncated => {
                    assert(t_rem == TableParse::Truncated);
                },
                TableParse::BadPath => {
                    assert(t_rem == TableParse::BadPath);
                },
            }
            done = done + seq![pe];
            assert(total == table_prepend(done, t_next));
            assert(files_match(files@, done));
        }
        i = i + 1;
    }
    proof {
        assert(parse_records(d, body.pos as int, 0) == TableParse::Done(
            seq![],
            body.pos as int,
        ));
        assert(total == table_prepend(done, parse_records(d, body.pos as int, 0)));
        assert(done + seq![] =~= done);
    }
    Ok(files)
}


/// Parses an archive from the start of `reader`: header, version detection,
/// encryption handling, and the entry table, exactly as the reference
/// semantics `meta_spec` describe. A wrong or missing password is not an
/// error: the returned descriptor says so and the file table stays empty.
pub fn metadata(reader: &mut ByteStream, password: Option<&str>) -> (r: Result<Metadata, Error>)
    requires
        old(reader).pos == 0,
    ensures
        final(reader).data@ == old(reader).data@,
        (match r {
            Ok(m) => (match meta_spec(old(reader).data@, password_view(password)) {
                MetaOutcome::Parsed(mm) => meta_matches(m, mm) && final(reader).pos == mm.end_pos,
                _ => false,
            }),
            Err(e) => (match meta_spec(old(reader).data@, password_view(password)) {
                MetaOutcome::Parsed(_) => false,
                MetaOutcome::Truncated => e == Error::UnexpectedEof,
                MetaOutcome::BadPath => e == Error::InvalidUtf8,
            }),
        }),
        (match r {
            Ok(m) => (match (password, m.encryption) {
                (Some(pw), Some(e)) => e.hash@ == e.hash_expected@ ==> (forall|pt: Seq<u8>|
                    old(reader).data@.subrange(
                        header_size(detected_version(old(reader).data@)),
                        old(reader).data@.len() as int,
                    ) == aes256cbc_enc(pt, sha256_of(encode_utf8(pw@)), e.iv@)
                        ==> e.decrypted@ == pt),
                _ => true,
            }),
            Err(_) => true,
        }),
{
    let ghost d = reader.data@;
    let magic = match reader.read_bytes(4) {
        Ok(x) => x,
        Err(_) => {
            return Err(Error::UnexpectedEof);
        },
    };
    let is_v1 = magic[0] == 0x53 && magic[1] == 0x46 && magic[2] == 0x41 && magic[3] == 0x00;
    proof {
        if is_v1 {
            assert(magic@ =~= magic_v1());
        } else {
            assert(magic@ != magic_v1());
        }
    }
    let checksum = match reader.read_u32le() {
        Ok(x) => x,
        Err(_) => {
            return Err(Error::UnexpectedEof);
        },
    };
    let file_count = match reader.read_u32le() {
        Ok(x) => x,
        Err(_) => {
            return Err(Error::UnexpectedEof);
        },
    };
    let pwd_hash = match reader.read_bytes(32) {
        Ok(x) => x,
        Err(_) => {
            return Err(Error::UnexpectedEof);
        },
    };
    let iv = match reader.read_bytes(16) {
        Ok(x) => x,
        Err(_) => {
            return Err(Error::UnexpectedEof);
        },
    };
    let main = match reader.read_u32le() {
        Ok(x) => x,
        Err(_) => {
            return Err(Error::UnexpectedEof);
        },
    };
    let mut version: u8 = if is_v1 {
        1
    } else {
        2
    };
    if version == 2 {
        let pos_before = reader.pos();
        let mut detected3 = false;
        match reader.read_u128le() {
            Ok(p1) => {
                if p1 == 0 {
                    match reader.read_u128le() {
                        Ok(p2) => {
                            if p2 == 0 {
                                detected3 = true;
                            }
                        },
                        Err(_) => {},
                    }
                }
            },
            Err(_) => {},
        }
        if detected3 {
            version = 3;
            match reader.to(128) {
                Ok(()) => {},
                Err(_) => {
                    return Err(Error::UnexpectedEof);
                },
            }
        } else {
            match reader.to(pos_before) {
                Ok(()) => {},
                Err(e) => {
                    return Err(e);
                },
            }
        }
    }
    proof {
        assert(version as int == detected_version(d));
        assert(reader.pos as int == header_size(version as int));
    }
    let zeros32 = zero_vec(32);
    let zeros16 = zero_vec(16);
    let encrypted = !(bytes_eq(&pwd_hash, &zeros32) && bytes_eq(&iv, &zeros16));
    proof {
        assert(pwd_hash@ == stored_key_hash(d));
        assert(iv@ == stored_iv(d));
        assert(encrypted == is_encrypted_header(d));
    }
    if !encrypted {
        let files = match parse_entry_table(reader, file_count) {
            Ok(fs) => fs,
            Err(e) => {
                return Err(e);
            },
        };
        return Ok(
            Metadata {
                version,
                checksum,
                encryption: None,
                files,
                main_file: if main > 0 {
                    Some(main - 1)
                } else {
                    None
                },
            },
        );
    }
    let pw = match password {
        None => {
            return Ok(
                Metadata {
                    version,
                    checksum,
                    encryption: Some(
                        Encryption {
                            hash: zeros32,
                            hash_expected: pwd_hash,
                            iv,
                            decrypted: Vec::new(),
                        },
                    ),
                    files: Vec::new(),
                    main_file: None,
                },
            );
        },
        Some(p) => p,
    };
    let pw_bytes = pw.as_bytes_vec();
    let key = sha256_digest(&pw_bytes);
    let computed = sha256_digest(&key);
    if !bytes_eq(&computed, &pwd_hash) {
        return Ok(
            Metadata {
                version,
                checksum,
                encryption: Some(
                    Encryption { hash: computed, hash_expected: pwd_hash, iv, decrypted: Vec::new() },
                ),
                files: Vec::new(),
                main_file: None,
            },
        );
    }
    let pos = reader.pos();
    let size = reader.size();
    let cipher = match reader.read_bytes(size - pos) {
        Ok(c) => c,
        Err(e) => {
            return Err(e);
        },
    };
    proof {
        assert(cipher@ == d.subrange(header_size(version as int), d.len() as int));
    }
    let plain = aes_decrypt(&cipher, &key, &iv);
    let mut body = ByteStream::from_vec(plain);
    let files = match parse_entry_table(&mut body, file_count) {
        Ok(fs) => fs,
        Err(e) => {
            return Err(e);
        },
    };
    let hash_copy = copy_bytes(&pwd_hash);
    Ok(
        Metadata {
            version,
            checksum,
            encryption: Some(
                Encryption {
                    hash: hash_copy,
                    hash_expected: pwd_hash,
                    iv,
                    decrypted: body.into_vec(),
                },
            ),
            files,
            main_file: if main > 0 {
                Some(main - 1)
            } else {
                None
            },
        },
    )
}

} // verus!
