use hssp2::{create, extract, hash, metadata, verify_integrity, write_hash, ByteStream, Error,
    File, FileWithSource};

fn one_entry_sources() -> Vec<FileWithSource> {
    vec![FileWithSource(
        File {
            path: "test.txt".to_string(),
            directory: false,
            offset: 0,
            length: 13,
        },
        ByteStream::from_vec(b"Hello, world!".to_vec()),
    )]
}

#[test]
fn truncated_header_is_an_error() {
    let mut reader = ByteStream::from_vec(vec![0x53, 0x46, 0x41, 0x00, 1, 2, 3]);
    assert_eq!(metadata(&mut reader, None).unwrap_err(), Error::UnexpectedEof);
}

#[test]
fn truncated_record_is_an_error() {
    let mut target = ByteStream::new();
    let result = create(1, one_entry_sources(), None, None, &mut target, 1024).unwrap();
    write_hash(&mut target, result).unwrap();
    let mut data = target.into_vec();
    data.truncate(90);
    let mut reader = ByteStream::from_vec(data);
    assert_eq!(metadata(&mut reader, None).unwrap_err(), Error::UnexpectedEof);
}

#[test]
fn invalid_path_bytes_are_an_error() {
    let mut data: Vec<u8> = Vec::new();
    data.extend_from_slice(b"SFA\0");
    data.extend_from_slice(&0u32.to_le_bytes());
    data.extend_from_slice(&1u32.to_le_bytes());
    data.extend_from_slice(&[0u8; 48]);
    data.extend_from_slice(&0u32.to_le_bytes());
    data.extend_from_slice(&0u64.to_le_bytes());
    data.extend_from_slice(&1u16.to_le_bytes());
    data.push(0xFF);
    data.push(0x00);
    let mut reader = ByteStream::from_vec(data);
    assert_eq!(metadata(&mut reader, None).unwrap_err(), Error::InvalidUtf8);
}

#[test]
fn oversized_path_is_rejected() {
    let long_path: String = std::iter::repeat('a').take(0x10000).collect();
    let sources = vec![FileWithSource(
        File {
            path: long_path,
            directory: false,
            offset: 0,
            length: 0,
        },
        ByteStream::new(),
    )];
    let mut target = ByteStream::new();
    assert_eq!(
        create(1, sources, None, None, &mut target, 1024).unwrap_err(),
        Error::PathTooLong
    );
    assert_eq!(target.into_vec().len(), 0);
}

#[test]
fn short_source_is_an_error() {
    let sources = vec![FileWithSource(
        File {
            path: "a".to_string(),
            directory: false,
            offset: 4,
            length: 10,
        },
        ByteStream::from_vec(vec![1, 2, 3, 4, 5]),
    )];
    let mut target = ByteStream::new();
    assert_eq!(
        create(1, sources, None, None, &mut target, 1024).unwrap_err(),
        Error::UnexpectedEof
    );
}

#[test]
fn version_two_round_trip() {
    let mut target = ByteStream::new();
    let result = create(2, one_entry_sources(), None, None, &mut target, 1024).unwrap();
    write_hash(&mut target, result).unwrap();
    let mut reader = target;
    reader.rewind();
    let meta = metadata(&mut reader, None).unwrap();
    assert_eq!(meta.version, 2);
    assert_eq!(meta.files.len(), 1);
    assert_eq!(meta.files[0].offset, 82);
    assert!(verify_integrity(&mut reader, &meta).unwrap());
}

#[test]
fn version_three_round_trip() {
    let mut target = ByteStream::new();
    let result = create(3, one_entry_sources(), None, None, &mut target, 1024).unwrap();
    write_hash(&mut target, result).unwrap();
    let mut reader = target;
    reader.rewind();
    let meta = metadata(&mut reader, None).unwrap();
    assert_eq!(meta.version, 3);
    assert_eq!(meta.files.len(), 1);
    assert_eq!(meta.files[0].offset, 146);
    assert!(verify_integrity(&mut reader, &meta).unwrap());

    let mut extracted = ByteStream::new();
    extract(&mut reader, &meta.files[0], &mut extracted, 1024, 0).unwrap();
    assert_eq!(extracted.into_vec(), b"Hello, world!");
}

#[test]
fn checksum_offset_is_after_the_magic() {
    let mut target = ByteStream::new();
    let result = create(1, one_entry_sources(), None, None, &mut target, 1024).unwrap();
    assert_eq!(result.0, 4);
    assert_eq!(result.1, 2082363140);
}

#[test]
fn largest_main_index_is_dropped() {
    let mut target = ByteStream::new();
    let result = create(
        1,
        one_entry_sources(),
        None,
        Some(u32::MAX),
        &mut target,
        1024,
    )
    .unwrap();
    write_hash(&mut target, result).unwrap();
    let mut reader = target;
    reader.rewind();
    let meta = metadata(&mut reader, None).unwrap();
    assert!(meta.main_file.is_none());
}

#[test]
fn empty_archive_round_trip() {
    let mut target = ByteStream::new();
    let result = create(1, vec![], None, None, &mut target, 1024).unwrap();
    write_hash(&mut target, result).unwrap();
    let mut reader = target;
    reader.rewind();
    let meta = metadata(&mut reader, None).unwrap();
    assert_eq!(meta.version, 1);
    assert_eq!(meta.files.len(), 0);
    assert!(meta.main_file.is_none());
    assert!(verify_integrity(&mut reader, &meta).unwrap());
}

#[test]
fn metadata_is_repeatable_after_rewind() {
    let mut target = ByteStream::new();
    let result = create(1, one_entry_sources(), None, None, &mut target, 1024).unwrap();
    write_hash(&mut target, result).unwrap();
    let mut reader = target;
    reader.rewind();
    let first = metadata(&mut reader, None).unwrap();
    reader.rewind();
    let second = metadata(&mut reader, None).unwrap();
    assert_eq!(first.version, second.version);
    assert_eq!(first.checksum, second.checksum);
    assert_eq!(first.files.len(), second.files.len());
    assert_eq!(first.files[0].path, second.files[0].path);
    assert_eq!(first.files[0].offset, second.files[0].offset);
    assert_eq!(first.files[0].length, second.files[0].length);
    assert_eq!(first.main_file, second.main_file);
}

#[test]
fn verify_integrity_preserves_the_cursor() {
    let mut target = ByteStream::new();
    let result = create(1, one_entry_sources(), None, None, &mut target, 1024).unwrap();
    write_hash(&mut target, result).unwrap();
    let mut reader = target;
    reader.rewind();
    let meta = metadata(&mut reader, None).unwrap();
    let pos_before = reader.pos();
    assert!(verify_integrity(&mut reader, &meta).unwrap());
    assert_eq!(reader.pos(), pos_before);
    reader.rewind();
    assert!(verify_integrity(&mut reader, &meta).unwrap());
    assert_eq!(reader.pos(), 0);
}

#[test]
fn hash_matches_the_stored_checksum() {
    let mut target = ByteStream::new();
    let result = create(1, one_entry_sources(), None, None, &mut target, 1024).unwrap();
    write_hash(&mut target, result).unwrap();
    let mut reader = target;
    reader.rewind();
    let size = reader.size();
    let h = hash(&mut reader, 64, size - 64).unwrap();
    assert_eq!(h, 2082363140);
    assert_eq!(reader.pos(), 0);
}

#[test]
fn directory_entries_round_trip() {
    let sources = vec![FileWithSource(
        File {
            path: "docs".to_string(),
            directory: true,
            offset: 0,
            length: 0,
        },
        ByteStream::new(),
    )];
    let mut target = ByteStream::new();
    let result = create(1, sources, None, None, &mut target, 1024).unwrap();
    write_hash(&mut target, result).unwrap();
    let data = target.into_vec();
    assert_eq!(&data[74..80], b"//docs");
    let mut reader = ByteStream::from_vec(data);
    let meta = metadata(&mut reader, None).unwrap();
    assert_eq!(meta.files[0].path, "docs");
    assert!(meta.files[0].directory);
    assert_eq!(meta.files[0].length, 0);
}

#[test]
fn extract_copies_into_the_middle_of_a_sink() {
    let mut source = ByteStream::from_vec(b"abcdefgh".to_vec());
    let file = File {
        path: "x".to_string(),
        directory: false,
        offset: 2,
        length: 3,
    };
    let mut target = ByteStream::from_vec(b"XXXXXXXX".to_vec());
    extract(&mut source, &file, &mut target, 4, 1).unwrap();
    assert_eq!(target.into_vec(), b"XcdeXXXX");
    assert_eq!(source.pos(), 0);
}

#[test]
fn tampering_with_any_body_byte_fails_verification() {
    let mut target = ByteStream::new();
    let result = create(1, one_entry_sources(), None, None, &mut target, 1024).unwrap();
    write_hash(&mut target, result).unwrap();
    let data = target.into_vec();
    for i in [64usize, 75, 82, 94, data.len() - 1] {
        let mut tampered = data.clone();
        tampered[i] ^= 0x01;
        let mut reader = ByteStream::from_vec(tampered);
        let meta = metadata(&mut reader, None);
        if let Ok(meta) = meta {
            assert!(!verify_integrity(&mut reader, &meta).unwrap());
        }
    }
}

#[test]
fn wrong_password_lists_no_files() {
    let mut target = ByteStream::new();
    let result = create(
        1,
        one_entry_sources(),
        Some(("secret", vec![7u8; 16])),
        None,
        &mut target,
        1024,
    )
    .unwrap();
    write_hash(&mut target, result).unwrap();
    let mut reader = target;
    reader.rewind();
    let meta = metadata(&mut reader, Some("Secret")).unwrap();
    assert_eq!(meta.files.len(), 0);
    assert!(meta.main_file.is_none());
    let enc = meta.encryption.unwrap();
    assert_ne!(enc.hash, enc.hash_expected);
    assert_eq!(enc.decrypted.len(), 0);
    assert_eq!(enc.iv, [7u8; 16]);
}

#[test]
fn encrypted_v3_round_trip() {
    let mut target = ByteStream::new();
    let result = create(
        3,
        one_entry_sources(),
        Some(("pass phrase", vec![9u8; 16])),
        None,
        &mut target,
        1024,
    )
    .unwrap();
    write_hash(&mut target, result).unwrap();
    let mut reader = target;
    reader.rewind();
    let meta = metadata(&mut reader, Some("pass phrase")).unwrap();
    assert_eq!(meta.version, 3);
    assert!(verify_integrity(&mut reader, &meta).unwrap());
    assert_eq!(meta.files.len(), 1);
    assert_eq!(meta.files[0].offset, 18);
    let enc = meta.encryption.unwrap();
    assert_eq!(enc.hash, enc.hash_expected);
    let mut source = ByteStream::from_vec(enc.decrypted.clone());
    let mut out = ByteStream::new();
    extract(&mut source, &meta.files[0], &mut out, 1024, 0).unwrap();
    assert_eq!(out.into_vec(), b"Hello, world!");
}
