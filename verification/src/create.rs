//! Writing an archive: header, entry records, optional whole-body
//! encryption, and the checksum patch.

use vstd::prelude::*;
use vstd::string::StrSliceExecFns;
use vstd::utf8::encode_utf8;
use crate::bytes::{lemma_spliced_append, le16_bytes, le32_bytes, le64_bytes, spliced, zero_bytes};
use crate::checksum_seed;
use crate::crypto::{aes256cbc_enc, aes_encrypt, murmur3_hash, murmur3_of, sha256_digest,
    sha256_of};
use crate::format::{create_check, enc_record, enc_records, header_bytes, lemma_enc_records_snoc,
    magic_bytes, main_field_of, raw_of, raws_of, stored_path_of, RawEntry};
use crate::stream::{zero_vec, ByteStream};
use crate::types::{Error, FileWithSource};

verus! {

/// Serializes the entry records of all sources, in order, into one byte
/// vector, checking each entry as the reference `create_check` describes.
#[verifier::rlimit(100)]
#[verifier::loop_isolation(false)]
fn build_records(sources: Vec<FileWithSource>) -> (r: Result<Vec<u8>, Error>)
    ensures
        (match create_check(sources@) {
            None => r is Ok,
            Some(e) => r == Result::<Vec<u8>, Error>::Err(e),
        }),
        r matches Ok(v) ==> v@ == enc_records(raws_of(sources@)),
{
    let ghost srcs = sources@;
    let ghost raws = raws_of(srcs);
    let mut rem = sources;
    let mut recs = ByteStream::new();
    let ghost mut k: int = 0;
    proof {
        assert(srcs.skip(0) =~= srcs);
        assert(raws.take(0) =~= Seq::<RawEntry>::empty());
    }
    while rem.len() > 0
        invariant
            0 <= k <= srcs.len(),
            rem@ == srcs.skip(k),
            raws == raws_of(srcs),
            create_check(srcs) == create_check(srcs.skip(k)),
            recs.data@ == enc_records(raws.take(k)),
            recs.pos == recs.data@.len(),
        decreases rem@.len(),
    {
        let fws = rem.remove(0);
        proof {
            assert(fws == srcs[k]);
            assert(rem@ =~= srcs.skip(k + 1));
        }
        let FileWithSource(f, mut src) = fws;
        let pb = f.path.as_str().as_bytes_vec();
        let mut sp: Vec<u8> = Vec::new();
        if f.directory {
            sp.push(0x2F);
            sp.push(0x2F);
        }
        let mut pb2 = pb;
        sp.append(&mut pb2);
        proof {
            assert(sp@ =~= stored_path_of(f.path@, f.directory));
        }
        if sp.len() > 0xFFFF {
            proof {
                assert(srcs.skip(k)[0] == srcs[k]);
                assert(create_check(srcs.skip(k)) == Some(Error::PathTooLong));
            }
            return Err(Error::PathTooLong);
        }
        if src.to(f.offset).is_err() {
            proof {
                assert(srcs.skip(k)[0] == srcs[k]);
                assert(create_check(srcs.skip(k)) == Some(Error::UnexpectedEof));
            }
            return Err(Error::UnexpectedEof);
        }
        let payload = match src.read_bytes(f.length) {
            Ok(p) => p,
            Err(_) => {
                proof {
                    assert(srcs.skip(k)[0] == srcs[k]);
                    assert(create_check(srcs.skip(k)) == Some(Error::UnexpectedEof));
                }
                return Err(Error::UnexpectedEof);
            },
        };
        let ghost prev = recs.data@;
        recs.write_u64le(f.length);
        proof {
            lemma_spliced_append(prev, le64_bytes(f.length));
        }
        let ghost d1 = recs.data@;
        recs.write_u16le(sp.len() as u16);
        proof {
            lemma_spliced_append(d1, le16_bytes(sp@.len() as u16));
        }
        let ghost d2 = recs.data@;
        recs.write_bytes(&sp);
        proof {
            lemma_spliced_append(d2, sp@);
        }
        let ghost d3 = recs.data@;
        recs.write_bytes(&payload);
        proof {
            lemma_spliced_append(d3, payload@);
        }
        let ghost d4 = recs.data@;
        let pad = zero_vec(sp.len());
        recs.write_bytes(&pad);
        proof {
            lemma_spliced_append(d4, zero_bytes(sp@.len()));
            let raw = raws[k];
            assert(raw == raw_of(f, src.data@));
            assert(payload@ == raw.payload);
            assert(sp@ == raw.stored_path);
            assert(recs.data@ =~= prev + enc_record(raw));
            lemma_enc_records_snoc(raws.take(k), raw);
            assert(raws.take(k).push(raw) =~= raws.take(k + 1));
            k = k + 1;
        }
    }
    proof {
        assert(srcs.skip(k) =~= Seq::<FileWithSource>::empty());
        assert(raws.take(k) =~= raws);
    }
    Ok(recs.into_vec())
}

/// Writes a whole archive after the current end of `target`: header with a
/// zero checksum placeholder, then every entry record in order, the body
/// encrypted as one block when a password and IV are given. Returns the
/// absolute offset of the checksum field and the seeded hash of the body as
/// written, for `write_hash` to patch in.
#[verifier::rlimit(100)]
pub fn create(
    version: u8,
    sources: Vec<FileWithSource>,
    encryption: Option<(&str, Vec<u8>)>,
    main_file: Option<u32>,
    target: &mut ByteStream,
    buffer_size: u64,
) -> (r: Result<(u64, u32), Error>)
    requires
        old(target).pos == old(target).data@.len(),
        sources@.len() <= 0xFFFFFFFF,
        (match encryption {
            Some(e) => e.1@.len() == 16,
            None => true,
        }),
    ensures
        (match create_check(sources@) {
            None => r is Ok,
            Some(e) => r == Result::<(u64, u32), Error>::Err(e) && final(target).data@ == old(
                target,
            ).data@ && final(target).pos == old(target).pos,
        }),
        r matches Ok(res) ==> (match encryption {
            None => ({
                let body = enc_records(raws_of(sources@));
                &&& final(target).data@ == old(target).data@ + header_bytes(
                    version,
                    0,
                    sources@.len() as u32,
                    zero_bytes(32),
                    zero_bytes(16),
                    main_field_of(main_file),
                ) + body
                &&& res.0 == old(target).data@.len() + 4
                &&& res.1 == murmur3_of(body, checksum_seed())
                &&& final(target).pos == final(target).data@.len()
            }),
            Some(e) => ({
                let key = sha256_of(encode_utf8(e.0@));
                let body = aes256cbc_enc(enc_records(raws_of(sources@)), key, e.1@);
                &&& final(target).data@ == old(target).data@ + header_bytes(
                    version,
                    0,
                    sources@.len() as u32,
                    sha256_of(key),
                    e.1@,
                    main_field_of(main_file),
                ) + body
                &&& res.0 == old(target).data@.len() + 4
                &&& res.1 == murmur3_of(body, checksum_seed())
                &&& final(target).pos == final(target).data@.len()
            }),
        }),
{
    let ghost srcs = sources@;
    let n = sources.len();
    let records = match build_records(sources) {
        Ok(v) => v,
        Err(e) => {
            return Err(e);
        },
    };
    let ghost kh_spec: Seq<u8> = (match &encryption {
        Some(e) => sha256_of(sha256_of(encode_utf8(e.0@))),
        None => zero_bytes(32),
    });
    let ghost iv_spec: Seq<u8> = (match &encryption {
        Some(e) => e.1@,
        None => zero_bytes(16),
    });
    let mut key_vec: Vec<u8> = Vec::new();
    let mut kh_vec: Vec<u8> = Vec::new();
    let mut iv_vec: Vec<u8> = Vec::new();
    let encrypted: bool = match encryption {
        Some(enc) => {
            let pw_bytes = enc.0.as_bytes_vec();
            key_vec = sha256_digest(&pw_bytes);
            kh_vec = sha256_digest(&key_vec);
            iv_vec = enc.1;
            true
        },
        None => false,
    };
    let ghost base = target.data@;
    let mut magic: Vec<u8> = Vec::new();
    if version == 1 {
        magic.push(0x53);
        magic.push(0x46);
        magic.push(0x41);
        magic.push(0x00);
    } else {
        magic.push(0x48);
        magic.push(0x53);
        magic.push(0x53);
        magic.push(0x50);
    }
    proof {
        assert(magic@ =~= magic_bytes(version));
    }
    target.write_bytes(&magic);
    proof {
        lemma_spliced_append(base, magic@);
    }
    let hash_pos = target.pos();
    let ghost h0 = target.data@;
    target.write_u32le(0);
    proof {
        lemma_spliced_append(h0, le32_bytes(0));
    }
    let ghost h1 = target.data@;
    target.write_u32le(n as u32);
    proof {
        lemma_spliced_append(h1, le32_bytes(n as u32));
    }
    let ghost h2 = target.data@;
    if encrypted {
        target.write_bytes(&kh_vec);
        proof {
            lemma_spliced_append(h2, kh_vec@);
        }
        let ghost h2a = target.data@;
        target.write_bytes(&iv_vec);
        proof {
            lemma_spliced_append(h2a, iv_vec@);
        }
    } else {
        let zeros = zero_vec(48);
        proof {
            assert(zeros@ =~= zero_bytes(32) + zero_bytes(16));
        }
        target.write_bytes(&zeros);
        proof {
            lemma_spliced_append(h2, zeros@);
        }
    }
    proof {
        assert(target.data@ =~= h2 + kh_spec + iv_spec);
    }
    let ghost h3 = target.data@;
    let mf: u32 = match main_file {
        Some(m) => {
            if m < 0xFFFFFFFF {
                m + 1
            } else {
                0
            }
        },
        None => 0,
    };
    proof {
        assert(mf == main_field_of(main_file));
    }
    target.write_u32le(mf);
    proof {
        lemma_spliced_append(h3, le32_bytes(mf));
    }
    let ghost h4 = target.data@;
    if version > 2 {
        let reserved = zero_vec(64);
        target.write_bytes(&reserved);
        proof {
            lemma_spliced_append(h4, reserved@);
        }
    }
    proof {
        assert(target.data@ =~= base + header_bytes(version, 0, n as u32, kh_spec, iv_spec, mf));
    }
    let ghost h5 = target.data@;
    let body: Vec<u8> = if encrypted {
        aes_encrypt(&records, &key_vec, &iv_vec)
    } else {
        records
    };
    target.write_bytes(&body);
    let h = murmur3_hash(&body, 0x31082007);
    proof {
        lemma_spliced_append(h5, body@);
        assert(checksum_seed() == 0x31082007u32);
        assert(target.data@ =~= base + header_bytes(version, 0, n as u32, kh_spec, iv_spec, mf)
            + body@);
    }
    Ok((hash_pos, h))
}

/// Patches the checksum `create` returned into its placeholder: a positioned
/// four-byte little-endian write that leaves the cursor where it stood.
pub fn write_hash(target: &mut ByteStream, create_result: (u64, u32)) -> (r: Result<(), Error>)
    ensures
        r is Ok <==> create_result.0 <= old(target).data@.len(),
        r matches Ok(u) ==> final(target).data@ == spliced(
            old(target).data@,
            create_result.0 as int,
            le32_bytes(create_result.1),
        ) && final(target).pos == old(target).pos,
        r is Err ==> final(target).data@ == old(target).data@ && final(target).pos == old(
            target,
        ).pos && r == Result::<(), Error>::Err(Error::UnexpectedEof),
{
    target.write_u32le_at(create_result.0, create_result.1)
}

} // verus!
