use hssp2::{create, extract, metadata, verify_integrity, write_hash, ByteStream, File,
    FileWithSource};

fn wfld_normal_bytes() -> Vec<u8> {
    let mut data: Vec<u8> = Vec::new();
    data.extend_from_slice(b"SFA\0");
    data.extend_from_slice(&2082363140u32.to_le_bytes());
    data.extend_from_slice(&1u32.to_le_bytes());
    data.extend_from_slice(&[0u8; 48]);
    data.extend_from_slice(&0u32.to_le_bytes());
    data.extend_from_slice(&13u64.to_le_bytes());
    data.extend_from_slice(&8u16.to_le_bytes());
    data.extend_from_slice(b"test.txt");
    data.extend_from_slice(b"Hello, world!");
    data.extend_from_slice(&[0u8; 8]);
    data
}

#[test]
fn wfld_normal() {
    let mut reader = ByteStream::from_vec(wfld_normal_bytes());
    let meta = metadata(&mut reader, None).unwrap();

    assert!(verify_integrity(&mut reader, &meta).unwrap());
    assert_eq!(meta.version, 1);
    assert_eq!(meta.checksum, 2082363140);
    assert!(meta.encryption.is_none());
    assert_eq!(meta.files.len(), 1);
    assert_eq!(meta.files[0].path, "test.txt");
    assert!(!meta.files[0].directory);
    assert_eq!(meta.files[0].offset, 82);
    assert_eq!(meta.files[0].length, 13);
    assert!(meta.main_file.is_none());

    let mut target = ByteStream::new();
    extract(&mut reader, &meta.files[0], &mut target, 1024, 0).unwrap();
    assert_eq!(target.into_vec(), b"Hello, world!");
}

#[test]
fn wfld_multiple() {
    let mut data: Vec<u8> = Vec::new();
    data.extend_from_slice(b"SFA\0");
    data.extend_from_slice(&183707333u32.to_le_bytes());
    data.extend_from_slice(&2u32.to_le_bytes());
    data.extend_from_slice(&[0u8; 48]);
    data.extend_from_slice(&0u32.to_le_bytes());
    data.extend_from_slice(&13u64.to_le_bytes());
    data.extend_from_slice(&8u16.to_le_bytes());
    data.extend_from_slice(b"test.txt");
    data.extend_from_slice(b"Hello, world!");
    data.extend_from_slice(&[0u8; 8]);
    data.extend_from_slice(&15u64.to_le_bytes());
    data.extend_from_slice(&9u16.to_le_bytes());
    data.extend_from_slice(b"test2.txt");
    data.extend_from_slice(b"Hello, world! 2");
    data.extend_from_slice(&[0u8; 9]);
    let mut reader = ByteStream::from_vec(data);
    let meta = metadata(&mut reader, None).unwrap();

    assert!(verify_integrity(&mut reader, &meta).unwrap());
    assert_eq!(meta.version, 1);
    assert_eq!(meta.checksum, 183707333);
    assert!(meta.encryption.is_none());
    assert_eq!(meta.files.len(), 2);
    assert_eq!(meta.files[0].path, "test.txt");
    assert!(!meta.files[0].directory);
    assert_eq!(meta.files[0].offset, 82);
    assert_eq!(meta.files[0].length, 13);
    assert_eq!(meta.files[1].path, "test2.txt");
    assert!(!meta.files[1].directory);
    assert_eq!(meta.files[1].offset, 122);
    assert_eq!(meta.files[1].length, 15);
    assert!(meta.main_file.is_none());

    let mut target = ByteStream::new();
    extract(&mut reader, &meta.files[0], &mut target, 1024, 0).unwrap();
    assert_eq!(target.into_vec(), b"Hello, world!");

    let mut target = ByteStream::new();
    extract(&mut reader, &meta.files[1], &mut target, 1024, 0).unwrap();
    assert_eq!(target.into_vec(), b"Hello, world! 2");
}

#[test]
fn wfld_folder() {
    let mut data: Vec<u8> = Vec::new();
    data.extend_from_slice(b"SFA\0");
    data.extend_from_slice(&2567700355u32.to_le_bytes());
    data.extend_from_slice(&2u32.to_le_bytes());
    data.extend_from_slice(&[0u8; 48]);
    data.extend_from_slice(&0u32.to_le_bytes());
    data.extend_from_slice(&0u64.to_le_bytes());
    data.extend_from_slice(&6u16.to_le_bytes());
    data.extend_from_slice(b"//test");
    data.extend_from_slice(&[0u8; 6]);
    data.extend_from_slice(&13u64.to_le_bytes());
    data.extend_from_slice(&13u16.to_le_bytes());
    data.extend_from_slice(b"test/test.txt");
    data.extend_from_slice(b"Hello, world!");
    data.extend_from_slice(&[0u8; 13]);
    let mut reader = ByteStream::from_vec(data);
    let meta = metadata(&mut reader, None).unwrap();

    assert!(verify_integrity(&mut reader, &meta).unwrap());
    assert_eq!(meta.version, 1);
    assert_eq!(meta.checksum, 2567700355);
    assert!(meta.encryption.is_none());
    assert_eq!(meta.files.len(), 2);
    assert_eq!(meta.files[0].path, "test");
    assert!(meta.files[0].directory);
    assert_eq!(meta.files[0].offset, 80);
    assert_eq!(meta.files[0].length, 0);
    assert_eq!(meta.files[1].path, "test/test.txt");
    assert!(!meta.files[1].directory);
    assert_eq!(meta.files[1].offset, 109);
    assert_eq!(meta.files[1].length, 13);
    assert!(meta.main_file.is_none());

    let mut target = ByteStream::new();
    extract(&mut reader, &meta.files[1], &mut target, 1024, 0).unwrap();
    assert_eq!(target.into_vec(), b"Hello, world!");
}

#[test]
fn wfld_withmain() {
    let mut data = wfld_normal_bytes();
    data[60..64].copy_from_slice(&1u32.to_le_bytes());
    let mut reader = ByteStream::from_vec(data);
    let meta = metadata(&mut reader, None).unwrap();

    assert!(verify_integrity(&mut reader, &meta).unwrap());
    assert_eq!(meta.version, 1);
    assert_eq!(meta.checksum, 2082363140);
    assert!(meta.encryption.is_none());
    assert_eq!(meta.files.len(), 1);
    assert_eq!(meta.files[0].path, "test.txt");
    assert!(!meta.files[0].directory);
    assert_eq!(meta.files[0].offset, 82);
    assert_eq!(meta.files[0].length, 13);
    assert_eq!(meta.main_file, Some(0));

    let mut target = ByteStream::new();
    extract(&mut reader, &meta.files[0], &mut target, 1024, 0).unwrap();
    assert_eq!(target.into_vec(), b"Hello, world!");
}

fn wfld_encrypted_bytes() -> Vec<u8> {
    let mut target = ByteStream::new();
    let test_txt = ByteStream::from_vec(b"Hello, world!".to_vec());

    let result = create(
        1,
        vec![FileWithSource(
            File {
                path: "test.txt".to_string(),
                directory: false,
                offset: 0,
                length: 13,
            },
            test_txt,
        )],
        Some(("Password", vec![0u8; 16])),
        None,
        &mut target,
        1024,
    )
    .unwrap();
    write_hash(&mut target, result).unwrap();
    target.into_vec()
}

#[test]
fn wfld_encrypted() {
    let mut reader = ByteStream::from_vec(wfld_encrypted_bytes());

    let meta = metadata(&mut reader, None).unwrap();
    let enc = meta.encryption.unwrap();
    assert_eq!(enc.hash, [0u8; 32]);
    reader.rewind();

    let meta = metadata(&mut reader, Some("password")).unwrap();
    let enc = meta.encryption.unwrap();
    assert_ne!(enc.hash, enc.hash_expected);
    reader.rewind();

    let meta = metadata(&mut reader, Some("Password")).unwrap();

    assert!(verify_integrity(&mut reader, &meta).unwrap());
    assert_eq!(meta.version, 1);
    assert_eq!(meta.checksum, 3583420655);
    assert!(meta.encryption.is_some());
    let enc = meta.encryption.unwrap();
    assert_eq!(enc.hash, enc.hash_expected);
    assert_eq!(meta.files.len(), 1);
    assert_eq!(meta.files[0].path, "test.txt");
    assert!(!meta.files[0].directory);
    assert_eq!(meta.files[0].offset, 18);
    assert_eq!(meta.files[0].length, 13);
    assert!(meta.main_file.is_none());

    let mut source = ByteStream::from_vec(enc.decrypted.clone());
    let mut target = ByteStream::new();
    extract(&mut source, &meta.files[0], &mut target, 1024, 0).unwrap();
    assert_eq!(target.into_vec(), b"Hello, world!");
}

#[test]
fn wfld_corrupted() {
    let mut data = wfld_normal_bytes();
    data[85] ^= 0xFF;
    let mut reader = ByteStream::from_vec(data);
    let meta = metadata(&mut reader, None).unwrap();

    assert!(!verify_integrity(&mut reader, &meta).unwrap());
}

#[test]
fn create_wfld_normal() {
    let mut target = ByteStream::new();
    let test_txt = ByteStream::from_vec(b"Hello, world!".to_vec());

    let result = create(
        1,
        vec![FileWithSource(
            File {
                path: "test.txt".to_string(),
                directory: false,
                offset: 0,
                length: 13,
            },
            test_txt,
        )],
        None,
        None,
        &mut target,
        1024,
    )
    .unwrap();

    write_hash(&mut target, result).unwrap();

    let mut reader = target;
    reader.rewind();
    let meta = metadata(&mut reader, None).unwrap();

    assert!(verify_integrity(&mut reader, &meta).unwrap());
    assert_eq!(meta.version, 1);
    assert_eq!(meta.checksum, 2082363140);
    assert!(meta.encryption.is_none());
    assert_eq!(meta.files.len(), 1);
    assert_eq!(meta.files[0].path, "test.txt");
    assert!(!meta.files[0].directory);
    assert_eq!(meta.files[0].offset, 82);
    assert_eq!(meta.files[0].length, 13);
    assert!(meta.main_file.is_none());

    let mut target = ByteStream::new();
    extract(&mut reader, &meta.files[0], &mut target, 1024, 0).unwrap();
    assert_eq!(target.into_vec(), b"Hello, world!");
}

#[test]
fn create_wfld_multiple() {
    let mut target = ByteStream::new();
    let test_txt = ByteStream::from_vec(b"Hello, world!".to_vec());
    let test2_txt = ByteStream::from_vec(b"Hello, world! 2".to_vec());

    let result = create(
        1,
        vec![
            FileWithSource(
                File {
                    path: "test.txt".to_string(),
                    directory: false,
                    offset: 0,
                    length: 13,
                },
                test_txt,
            ),
            FileWithSource(
                File {
                    path: "test2.txt".to_string(),
                    directory: false,
                    offset: 0,
                    length: 15,
                },
                test2_txt,
            ),
        ],
        None,
        None,
        &mut target,
        1024,
    )
    .unwrap();

    write_hash(&mut target, result).unwrap();

    let mut reader = target;
    reader.rewind();
    let meta = metadata(&mut reader, None).unwrap();

    assert!(verify_integrity(&mut reader, &meta).unwrap());
    assert_eq!(meta.version, 1);
    assert_eq!(meta.checksum, 183707333);
    assert!(meta.encryption.is_none());
    assert_eq!(meta.files.len(), 2);
    assert_eq!(meta.files[0].path, "test.txt");
    assert!(!meta.files[0].directory);
    assert_eq!(meta.files[0].offset, 82);
    assert_eq!(meta.files[0].length, 13);
    assert_eq!(meta.files[1].path, "test2.txt");
    assert!(!meta.files[1].directory);
    assert_eq!(meta.files[1].offset, 122);
    assert_eq!(meta.files[1].length, 15);
    assert!(meta.main_file.is_none());

    let mut target = ByteStream::new();
    extract(&mut reader, &meta.files[0], &mut target, 1024, 0).unwrap();
    assert_eq!(target.into_vec(), b"Hello, world!");

    let mut target = ByteStream::new();
    extract(&mut reader, &meta.files[1], &mut target, 1024, 0).unwrap();
    assert_eq!(target.into_vec(), b"Hello, world! 2");
}

#[test]
fn create_wfld_folder() {
    let mut target = ByteStream::new();
    let test = ByteStream::from_vec(vec![]);
    let test_txt = ByteStream::from_vec(b"Hello, world!".to_vec());

    let result = create(
        1,
        vec![
            FileWithSource(
                File {
                    path: "test".to_string(),
                    directory: true,
                    offset: 0,
                    length: 0,
                },
                test,
            ),
            FileWithSource(
                File {
                    path: "test/test.txt".to_string(),
                    directory: false,
                    offset: 0,
                    length: 13,
                },
                test_txt,
            ),
        ],
        None,
        None,
        &mut target,
        1024,
    )
    .unwrap();

    write_hash(&mut target, result).unwrap();

    let mut reader = target;
    reader.rewind();
    let meta = metadata(&mut reader, None).unwrap();

    assert!(verify_integrity(&mut reader, &meta).unwrap());
    assert_eq!(meta.version, 1);
    assert_eq!(meta.checksum, 2567700355);
    assert!(meta.encryption.is_none());
    assert_eq!(meta.files.len(), 2);
    assert_eq!(meta.files[0].path, "test");
    assert!(meta.files[0].directory);
    assert_eq!(meta.files[0].offset, 80);
    assert_eq!(meta.files[0].length, 0);
    assert_eq!(meta.files[1].path, "test/test.txt");
    assert!(!meta.files[1].directory);
    assert_eq!(meta.files[1].offset, 109);
    assert_eq!(meta.files[1].length, 13);
    assert!(meta.main_file.is_none());

    let mut target = ByteStream::new();
    extract(&mut reader, &meta.files[1], &mut target, 1024, 0).unwrap();
    assert_eq!(target.into_vec(), b"Hello, world!");
}

#[test]
fn create_wfld_withmain() {
    let mut target = ByteStream::new();
    let test_txt = ByteStream::from_vec(b"Hello, world!".to_vec());

    let result = create(
        1,
        vec![FileWithSource(
            File {
                path: "test.txt".to_string(),
                directory: false,
                offset: 0,
                length: 13,
            },
            test_txt,
        )],
        None,
        Some(0),
        &mut target,
        1024,
    )
    .unwrap();

    write_hash(&mut target, result).unwrap();

    let mut reader = target;
    reader.rewind();
    let meta = metadata(&mut reader, None).unwrap();

    assert!(verify_integrity(&mut reader, &meta).unwrap());
    assert_eq!(meta.version, 1);
    assert_eq!(meta.checksum, 2082363140);
    assert!(meta.encryption.is_none());
    assert_eq!(meta.files.len(), 1);
    assert_eq!(meta.files[0].path, "test.txt");
    assert!(!meta.files[0].directory);
    assert_eq!(meta.files[0].offset, 82);
    assert_eq!(meta.files[0].length, 13);
    assert_eq!(meta.main_file, Some(0));

    let mut target = ByteStream::new();
    extract(&mut reader, &meta.files[0], &mut target, 1024, 0).unwrap();
    assert_eq!(target.into_vec(), b"Hello, world!");
}

#[test]
fn create_wfld_encrypted() {
    let mut target = ByteStream::new();
    let test_txt = ByteStream::from_vec(b"Hello, world!".to_vec());

    let result = create(
        1,
        vec![FileWithSource(
            File {
                path: "test.txt".to_string(),
                directory: false,
                offset: 0,
                length: 13,
            },
            test_txt,
        )],
        Some(("Password", vec![0u8; 16])),
        None,
        &mut target,
        1024,
    )
    .unwrap();

    write_hash(&mut target, result).unwrap();

    let mut reader = target;
    reader.rewind();
    let meta = metadata(&mut reader, Some("Password")).unwrap();

    assert!(verify_integrity(&mut reader, &meta).unwrap());
    assert_eq!(meta.version, 1);
    assert_eq!(meta.checksum, 3583420655);
    assert!(meta.encryption.is_some());
    let enc = meta.encryption.unwrap();
    assert_eq!(enc.hash, enc.hash_expected);
    assert_eq!(meta.files.len(), 1);
    assert_eq!(meta.files[0].path, "test.txt");
    assert!(!meta.files[0].directory);
    assert_eq!(meta.files[0].offset, 18);
    assert_eq!(meta.files[0].length, 13);
    assert!(meta.main_file.is_none());

    let mut source = ByteStream::from_vec(enc.decrypted.clone());
    let mut target = ByteStream::new();
    extract(&mut source, &meta.files[0], &mut target, 1024, 0).unwrap();
    assert_eq!(target.into_vec(), b"Hello, world!");
}

#[test]
fn create_wfld_corrupted() {
    let mut target = ByteStream::new();
    let test_txt = ByteStream::from_vec(b"Hello, world!".to_vec());

    create(
        1,
        vec![FileWithSource(
            File {
                path: "test.txt".to_string(),
                directory: false,
                offset: 0,
                length: 13,
            },
            test_txt,
        )],
        None,
        None,
        &mut target,
        1024,
    )
    .unwrap();

    let mut reader = target;
    reader.rewind();
    let meta = metadata(&mut reader, None).unwrap();

    assert!(!verify_integrity(&mut reader, &meta).unwrap());
}
