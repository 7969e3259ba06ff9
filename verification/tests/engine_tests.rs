use rust_crypto::container::{read_frame, read_header, write_frame, write_header};
use rust_crypto::engine::{
    decrypt_container, decrypt_container_at_once, decrypt_file_internal,
    decrypt_file_to_memory_internal, encrypt_container, encrypt_file_internal, nonce_count,
};
use rust_crypto::error::CryptoError;
use rust_crypto::pipeline::{
    apply_cipher, collect_in_order, decrypt_batch, encrypt_batch, CipherOp,
};
use rust_crypto::primitives::{derive_key, open, seal};
use rust_crypto::tuner::{Tuning, MAX_CHUNK_SIZE};

fn numbered_nonces(count: usize) -> Vec<[u8; 12]> {
    (0..count).map(|i| [(i + 1) as u8; 12]).collect()
}

fn pattern(len: usize) -> Vec<u8> {
    (0..len).map(|i| (i * 31 + 7) as u8).collect()
}

fn encrypt_small(plaintext: &[u8], password: &[u8], hint: &[u8], tuning: Tuning) -> Vec<u8> {
    let nonces = numbered_nonces(nonce_count(plaintext.len(), tuning));
    encrypt_container(plaintext, &derive_key(password), hint, tuning, &nonces).unwrap()
}

#[test]
fn nonce_count_is_one_per_sealed_piece() {
    let eight = Tuning::new(8, 100, 2).unwrap();
    assert_eq!(nonce_count(0, eight), 1);
    assert_eq!(nonce_count(1, eight), 1);
    assert_eq!(nonce_count(8, eight), 1);
    assert_eq!(nonce_count(9, eight), 2);
    assert_eq!(nonce_count(16, eight), 2);
    assert_eq!(nonce_count(17, eight), 3);
    assert_eq!(nonce_count(300, Tuning::new(256, 1024, 6).unwrap()), 2);
    assert_eq!(nonce_count(10, Tuning::new(1, 100, 2).unwrap()), 10);
    let desktop = Tuning::for_device(false, 8);
    assert_eq!(nonce_count(300 * 1024 * 1024, desktop), 2);
    assert_eq!(nonce_count(256 * 1024 * 1024, desktop), 1);
    assert_eq!(nonce_count(1536 * 1024 * 1024, desktop), 6);
}

#[test]
fn apply_cipher_seals_and_opens() {
    let key = derive_key(b"p");
    let nonce = [5u8; 12];
    let sealed = apply_cipher(CipherOp::Seal, &key, &nonce, b"chunk").unwrap();
    assert_eq!(sealed, seal(&key, &nonce, b"chunk").unwrap());
    let opened = apply_cipher(CipherOp::Open, &key, &nonce, &sealed).unwrap();
    assert_eq!(opened, b"chunk".to_vec());
    assert_eq!(
        apply_cipher(CipherOp::Open, &key, &nonce, b"chunk"),
        Err(CryptoError::AuthFail)
    );
}

#[test]
fn collect_in_order_keeps_the_order() {
    let results = vec![Ok(vec![1u8]), Ok(vec![]), Ok(vec![2, 3])];
    assert_eq!(
        collect_in_order(results),
        Ok(vec![vec![1u8], vec![], vec![2, 3]])
    );
    assert_eq!(collect_in_order(vec![]), Ok(vec![]));
}

#[test]
fn collect_in_order_returns_the_error_of_the_lowest_index() {
    let results = vec![
        Ok(vec![1u8]),
        Err(CryptoError::AuthFail),
        Ok(vec![2]),
        Err(CryptoError::InternalFault),
    ];
    assert_eq!(collect_in_order(results), Err(CryptoError::AuthFail));
    let results = vec![
        Err(CryptoError::InternalFault),
        Err(CryptoError::AuthFail),
    ];
    assert_eq!(collect_in_order(results), Err(CryptoError::InternalFault));
}

#[test]
fn encrypt_batch_writes_one_frame_per_chunk_in_order() {
    let key = derive_key(b"p");
    let chunks = vec![b"first".to_vec(), b"".to_vec(), b"third chunk".to_vec()];
    let nonces = numbered_nonces(3);
    let mut out: Vec<u8> = b"head".to_vec();
    assert_eq!(encrypt_batch(&key, &chunks, &nonces, &mut out), Ok(()));
    let mut expected: Vec<u8> = b"head".to_vec();
    for i in 0..3 {
        write_frame(
            &mut expected,
            &nonces[i],
            &seal(&key, &nonces[i], &chunks[i]).unwrap(),
        );
    }
    assert_eq!(out, expected);
}

#[test]
fn encrypt_batch_keeps_order_over_many_chunks() {
    let key = derive_key(b"p");
    let chunks: Vec<Vec<u8>> = (0..200usize).map(|i| pattern(i % 37)).collect();
    let nonces: Vec<[u8; 12]> = (0..200usize)
        .map(|i| {
            let mut nonce = [0u8; 12];
            nonce[0] = i as u8;
            nonce[1] = (i / 256) as u8;
            nonce
        })
        .collect();
    let mut out: Vec<u8> = Vec::new();
    assert_eq!(encrypt_batch(&key, &chunks, &nonces, &mut out), Ok(()));
    let mut pos = 0usize;
    for i in 0..200 {
        let frame = read_frame(&out, pos).unwrap().unwrap();
        assert_eq!(frame.nonce, nonces[i]);
        assert_eq!(open(&key, &frame.nonce, &frame.ciphertext).unwrap(), chunks[i]);
        pos += 16 + frame.ciphertext.len();
    }
    assert_eq!(pos, out.len());
}

#[test]
fn encrypt_batch_refuses_vectors_of_different_length() {
    let key = derive_key(b"p");
    let mut out: Vec<u8> = b"head".to_vec();
    assert_eq!(
        encrypt_batch(&key, &vec![vec![1u8]], &numbered_nonces(2), &mut out),
        Err(CryptoError::InvalidArgument)
    );
    assert_eq!(
        encrypt_batch(&key, &vec![vec![1u8], vec![2u8]], &numbered_nonces(1), &mut out),
        Err(CryptoError::InvalidArgument)
    );
    assert_eq!(out, b"head".to_vec());
}

#[test]
fn encrypt_batch_of_nothing_writes_nothing() {
    let key = derive_key(b"p");
    let mut out: Vec<u8> = b"head".to_vec();
    assert_eq!(encrypt_batch(&key, &vec![], &vec![], &mut out), Ok(()));
    assert_eq!(out, b"head".to_vec());
}

#[test]
fn max_chunk_size_fits_the_length_field() {
    assert_eq!(MAX_CHUNK_SIZE, 0x7fff_ffef);
    assert!((MAX_CHUNK_SIZE as u64) + 16 <= u32::MAX as u64);
}

#[test]
fn decrypt_batch_appends_the_plaintexts_in_order() {
    let key = derive_key(b"p");
    let chunks = vec![b"first".to_vec(), b"".to_vec(), b"third chunk".to_vec()];
    let nonces = numbered_nonces(3);
    let sealed: Vec<Vec<u8>> = (0..3)
        .map(|i| seal(&key, &nonces[i], &chunks[i]).unwrap())
        .collect();
    let mut out: Vec<u8> = b"head".to_vec();
    assert_eq!(decrypt_batch(&key, &nonces, &sealed, &mut out), Ok(()));
    assert_eq!(out, b"headfirstthird chunk".to_vec());
}

#[test]
fn decrypt_batch_with_a_bad_frame_writes_nothing() {
    let key = derive_key(b"p");
    let nonces = numbered_nonces(3);
    let mut sealed: Vec<Vec<u8>> = (0..3)
        .map(|i| seal(&key, &nonces[i], b"chunk").unwrap())
        .collect();
    sealed[2][0] ^= 1;
    let mut out: Vec<u8> = b"head".to_vec();
    assert_eq!(
        decrypt_batch(&key, &nonces, &sealed, &mut out),
        Err(CryptoError::AuthFail)
    );
    assert_eq!(out, b"head".to_vec());
    assert_eq!(
        decrypt_batch(&key, &numbered_nonces(2), &sealed, &mut out),
        Err(CryptoError::InvalidArgument)
    );
    assert_eq!(out, b"head".to_vec());
}

#[test]
fn empty_plaintext_gives_a_nonce_and_a_tag() {
    let tuning = Tuning::new(8, 64, 2).unwrap();
    let file = encrypt_small(b"", b"p", b"", tuning);
    assert_eq!(file.len(), 15 + 12 + 16);
    assert_eq!(&file[15..27], &[1u8; 12]);
    assert_eq!(
        file[27..].to_vec(),
        seal(&derive_key(b"p"), &[1u8; 12], b"").unwrap()
    );
    assert_eq!(
        decrypt_container(&file, &derive_key(b"p"), tuning),
        Ok(vec![])
    );
}

#[test]
fn plaintext_of_exactly_one_chunk_has_a_single_shot_body() {
    let tuning = Tuning::new(8, 64, 2).unwrap();
    let plaintext = pattern(8);
    let file = encrypt_small(&plaintext, b"p", b"", tuning);
    let mut expected = write_header(b"");
    expected.extend_from_slice(&[1u8; 12]);
    expected.extend_from_slice(&seal(&derive_key(b"p"), &[1u8; 12], &plaintext).unwrap());
    assert_eq!(file, expected);
    assert_eq!(file.len(), 15 + 12 + 8 + 16);
    assert_eq!(
        decrypt_container(&file, &derive_key(b"p"), tuning),
        Ok(plaintext)
    );
}

#[test]
fn plaintext_of_one_chunk_and_a_byte_has_two_frames() {
    let tuning = Tuning::new(8, 64, 2).unwrap();
    let plaintext = pattern(9);
    let key = derive_key(b"p");
    let file = encrypt_small(&plaintext, b"p", b"", tuning);
    let mut expected = write_header(b"");
    write_frame(
        &mut expected,
        &[1u8; 12],
        &seal(&key, &[1u8; 12], &plaintext[..8]).unwrap(),
    );
    write_frame(
        &mut expected,
        &[2u8; 12],
        &seal(&key, &[2u8; 12], &plaintext[8..]).unwrap(),
    );
    assert_eq!(file, expected);
    assert_eq!(file.len(), 15 + (16 + 8 + 16) + (16 + 1 + 16));
    assert_eq!(decrypt_container(&file, &key, tuning), Ok(plaintext));
}

#[test]
fn plaintext_of_300_with_chunks_of_256_has_frames_of_256_and_44() {
    let tuning = Tuning::new(256, 1024, 6).unwrap();
    let plaintext = vec![0x5Au8; 300];
    let key = derive_key(b"p");
    let file = encrypt_small(&plaintext, b"p", b"", tuning);
    let header = read_header(&file).unwrap();
    let first = read_frame(&file, header.header_size).unwrap().unwrap();
    assert_eq!(first.ciphertext.len(), 256 + 16);
    let second = read_frame(&file, header.header_size + 16 + 256 + 16)
        .unwrap()
        .unwrap();
    assert_eq!(second.ciphertext.len(), 44 + 16);
    assert_eq!(
        file.len(),
        header.header_size + (16 + 256 + 16) + (16 + 44 + 16)
    );
    assert_eq!(decrypt_container(&file, &key, tuning), Ok(plaintext));
}

#[test]
fn flipped_byte_in_a_frame_is_auth_fail() {
    let tuning = Tuning::new(256, 1024, 6).unwrap();
    let plaintext = vec![0x5Au8; 300];
    let key = derive_key(b"p");
    let mut file = encrypt_small(&plaintext, b"p", b"", tuning);
    let header_size = read_header(&file).unwrap().header_size;
    file[header_size + 12 + 4 + 100] ^= 0x01;
    assert_eq!(
        decrypt_container(&file, &key, tuning),
        Err(CryptoError::AuthFail)
    );
    assert_eq!(
        decrypt_container_at_once(&file, &key, tuning),
        Err(CryptoError::AuthFail)
    );
}

#[test]
fn overwritten_magic_is_invalid_format_whatever_the_key() {
    let tuning = Tuning::new(256, 1024, 6).unwrap();
    let mut file = encrypt_small(&vec![0x5Au8; 300], b"p", b"", tuning);
    file[..10].copy_from_slice(b"NOPE______");
    assert_eq!(
        decrypt_container(&file, &derive_key(b"p"), tuning),
        Err(CryptoError::InvalidFormat)
    );
    assert_eq!(
        decrypt_container(&file, &derive_key(b"another"), tuning),
        Err(CryptoError::InvalidFormat)
    );
    assert_eq!(
        decrypt_container_at_once(&file, &derive_key(b"p"), tuning),
        Err(CryptoError::InvalidFormat)
    );
}

#[test]
fn changed_version_is_unsupported_version_whatever_the_key() {
    let tuning = Tuning::new(8, 64, 2).unwrap();
    let mut file = encrypt_small(b"payload", b"p", b"", tuning);
    file[10] = 2;
    assert_eq!(
        decrypt_container(&file, &derive_key(b"p"), tuning),
        Err(CryptoError::UnsupportedVersion)
    );
    assert_eq!(
        decrypt_container(&file, &derive_key(b"q"), tuning),
        Err(CryptoError::UnsupportedVersion)
    );
}

#[test]
fn streaming_and_one_pass_give_the_same_bytes() {
    let plaintext = pattern(1000);
    let key = derive_key(b"p");
    let nonces = numbered_nonces(nonce_count(1000, Tuning::new(16, 100, 1).unwrap()));
    let one_pass = Tuning::new(16, 1_000_000, 3).unwrap();
    let streaming = Tuning::new(16, 17, 3).unwrap();
    let single_batches = Tuning::new(16, 17, 1).unwrap();
    let wide_batches = Tuning::new(16, 17, 1000).unwrap();
    let first = encrypt_container(&plaintext, &key, b"h", one_pass, &nonces).unwrap();
    assert_eq!(
        encrypt_container(&plaintext, &key, b"h", streaming, &nonces).unwrap(),
        first
    );
    assert_eq!(
        encrypt_container(&plaintext, &key, b"h", single_batches, &nonces).unwrap(),
        first
    );
    assert_eq!(
        encrypt_container(&plaintext, &key, b"h", wide_batches, &nonces).unwrap(),
        first
    );
    for tuning in [one_pass, streaming, single_batches, wide_batches] {
        assert_eq!(decrypt_container(&first, &key, tuning), Ok(plaintext.clone()));
        assert_eq!(
            decrypt_container_at_once(&first, &key, tuning),
            Ok(plaintext.clone())
        );
    }
}

#[test]
fn same_nonces_give_the_same_container() {
    let tuning = Tuning::new(16, 64, 2).unwrap();
    let plaintext = pattern(100);
    let first = encrypt_small(&plaintext, b"p", b"hint", tuning);
    let second = encrypt_small(&plaintext, b"p", b"hint", tuning);
    assert_eq!(first, second);
}

#[test]
fn wrong_number_of_nonces_is_invalid_argument() {
    let tuning = Tuning::new(8, 64, 2).unwrap();
    let key = derive_key(b"p");
    assert_eq!(
        encrypt_container(b"123456789", &key, b"", tuning, &numbered_nonces(1)),
        Err(CryptoError::InvalidArgument)
    );
    assert_eq!(
        encrypt_container(b"123456789", &key, b"", tuning, &numbered_nonces(3)),
        Err(CryptoError::InvalidArgument)
    );
    assert_eq!(
        encrypt_container(b"12345678", &key, b"", tuning, &numbered_nonces(0)),
        Err(CryptoError::InvalidArgument)
    );
    assert_eq!(
        encrypt_container(b"12345678", &key, b"", tuning, &numbered_nonces(2)),
        Err(CryptoError::InvalidArgument)
    );
    assert!(encrypt_container(b"123456789", &key, b"", tuning, &numbered_nonces(2)).is_ok());
}

#[test]
fn round_trip_over_many_sizes() {
    let tuning = Tuning::new(16, 100, 3).unwrap();
    let key = derive_key(b"secret");
    for len in 0..130usize {
        let plaintext = pattern(len);
        let file = encrypt_small(&plaintext, b"secret", b"hint", tuning);
        assert_eq!(
            decrypt_container(&file, &key, tuning),
            Ok(plaintext.clone()),
            "len = {}",
            len
        );
        assert_eq!(
            decrypt_container_at_once(&file, &key, tuning),
            Ok(plaintext),
            "len = {}",
            len
        );
    }
}

#[test]
fn batch_size_and_threshold_of_the_reader_do_not_matter() {
    let writer = Tuning::new(16, 100, 3).unwrap();
    let key = derive_key(b"secret");
    let plaintext = pattern(500);
    let file = encrypt_small(&plaintext, b"secret", b"", writer);
    for (threshold, batch) in [(0usize, 1usize), (0, 2), (0, 7), (10_000, 1), (10_000, 64)] {
        let reader = Tuning::new(16, threshold, batch).unwrap();
        assert_eq!(decrypt_container(&file, &key, reader), Ok(plaintext.clone()));
    }
}

#[test]
fn reader_with_another_chunk_size_reads_bodies_it_classifies_alike() {
    let key = derive_key(b"secret");
    let small = Tuning::new(8, 100, 2).unwrap();
    let large = Tuning::new(16, 100, 2).unwrap();
    // at most the smaller chunk size: single-shot for both
    for len in [0usize, 1, 8] {
        let plaintext = pattern(len);
        let by_small = encrypt_small(&plaintext, b"secret", b"", small);
        let by_large = encrypt_small(&plaintext, b"secret", b"", large);
        assert_eq!(decrypt_container(&by_small, &key, large), Ok(plaintext.clone()));
        assert_eq!(decrypt_container(&by_large, &key, small), Ok(plaintext));
    }
    // more than the larger chunk size: framed for both
    for len in [17usize, 40, 200] {
        let plaintext = pattern(len);
        let by_small = encrypt_small(&plaintext, b"secret", b"", small);
        let by_large = encrypt_small(&plaintext, b"secret", b"", large);
        assert_eq!(decrypt_container(&by_small, &key, large), Ok(plaintext.clone()));
        assert_eq!(decrypt_container(&by_large, &key, small), Ok(plaintext));
    }
}

#[test]
fn reader_with_another_chunk_size_fails_on_sizes_in_between() {
    let key = derive_key(b"secret");
    let small = Tuning::new(8, 100, 2).unwrap();
    let large = Tuning::new(64, 100, 2).unwrap();
    let plaintext = pattern(12);
    // a single-shot body of 40 bytes, taken for frames by the smaller chunk size
    let by_large = encrypt_small(&plaintext, b"secret", b"", large);
    assert!(decrypt_container(&by_large, &key, small).is_err());
    // two frames, 76 bytes, taken for a single-shot body by the larger chunk size
    let by_small = encrypt_small(&plaintext, b"secret", b"", small);
    assert_eq!(
        decrypt_container(&by_small, &key, large),
        Err(CryptoError::AuthFail)
    );
}

#[test]
fn framed_body_too_long_for_a_single_shot_is_read_by_a_larger_chunk_size() {
    let key = derive_key(b"secret");
    let small = Tuning::new(8, 100, 2).unwrap();
    let large = Tuning::new(16, 100, 2).unwrap();
    let plaintext = pattern(12);
    // two frames, 76 bytes: more than a sealed chunk of 16 bytes and its nonce
    let by_small = encrypt_small(&plaintext, b"secret", b"", small);
    assert_eq!(decrypt_container(&by_small, &key, large), Ok(plaintext));
}

#[test]
fn wrong_password_is_auth_fail() {
    let tuning = Tuning::new(16, 100, 3).unwrap();
    for len in [0usize, 5, 16, 17, 200] {
        let file = encrypt_small(&pattern(len), b"right", b"", tuning);
        assert_eq!(
            decrypt_container(&file, &derive_key(b"wrong"), tuning),
            Err(CryptoError::AuthFail)
        );
    }
}

#[test]
fn any_flipped_byte_after_the_header_fails_decryption() {
    let tuning = Tuning::new(16, 1000, 3).unwrap();
    let key = derive_key(b"p");
    for len in [5usize, 40] {
        let file = encrypt_small(&pattern(len), b"p", b"hint", tuning);
        let header_size = read_header(&file).unwrap().header_size;
        for at in header_size..file.len() {
            let mut damaged = file.clone();
            damaged[at] ^= 0x80;
            assert!(
                decrypt_container(&damaged, &key, tuning).is_err(),
                "len = {}, at = {}",
                len,
                at
            );
        }
    }
}

#[test]
fn changed_hint_bytes_are_not_noticed_by_decryption() {
    let tuning = Tuning::new(16, 1000, 3).unwrap();
    let key = derive_key(b"p");
    let plaintext = pattern(40);
    let mut file = encrypt_small(&plaintext, b"p", b"hint", tuning);
    file[15] ^= 0x01;
    assert_eq!(decrypt_container(&file, &key, tuning), Ok(plaintext));
}

#[test]
fn body_shorter_than_a_nonce_is_an_io_error() {
    let tuning = Tuning::new(16, 1000, 3).unwrap();
    let key = derive_key(b"p");
    let header = write_header(b"hint");
    for extra in 0..12usize {
        let mut file = header.clone();
        file.extend_from_slice(&vec![0u8; extra]);
        assert_eq!(
            decrypt_container(&file, &key, tuning),
            Err(CryptoError::IoError)
        );
        assert_eq!(
            decrypt_container_at_once(&file, &key, tuning),
            Err(CryptoError::IoError)
        );
    }
}

#[test]
fn single_shot_body_without_a_whole_tag_is_auth_fail() {
    let tuning = Tuning::new(16, 1000, 3).unwrap();
    let key = derive_key(b"p");
    let mut file = write_header(b"");
    file.extend_from_slice(&[0u8; 12 + 15]);
    assert_eq!(
        decrypt_container(&file, &key, tuning),
        Err(CryptoError::AuthFail)
    );
}

#[test]
fn corrupted_length_prefix_is_truncated_frame() {
    let tuning = Tuning::new(16, 1000, 3).unwrap();
    let key = derive_key(b"p");
    let file = encrypt_small(&pattern(40), b"p", b"", tuning);
    let header_size = read_header(&file).unwrap().header_size;
    let mut damaged = file.clone();
    damaged[header_size + 12] = 0x7F;
    assert_eq!(
        decrypt_container(&damaged, &key, tuning),
        Err(CryptoError::TruncatedFrame)
    );
    assert_eq!(
        decrypt_container_at_once(&damaged, &key, tuning),
        Err(CryptoError::TruncatedFrame)
    );
    // the last frame announces one byte more than is left
    let mut damaged = file.clone();
    let last = header_size + 2 * (16 + 16 + 16);
    assert_eq!(damaged[last + 15], 8 + 16);
    damaged[last + 15] += 1;
    assert_eq!(
        decrypt_container(&damaged, &key, tuning),
        Err(CryptoError::TruncatedFrame)
    );
}

#[test]
fn file_cut_within_a_frame_is_truncated_frame() {
    let tuning = Tuning::new(16, 1000, 3).unwrap();
    let key = derive_key(b"p");
    let file = encrypt_small(&pattern(40), b"p", b"", tuning);
    let header_size = read_header(&file).unwrap().header_size;
    let second_frame = header_size + 16 + 16 + 16;
    for len in (second_frame + 12)..(second_frame + 48) {
        assert_eq!(
            decrypt_container(&file[..len], &key, tuning),
            Err(CryptoError::TruncatedFrame),
            "len = {}",
            len
        );
    }
}

#[test]
fn file_cut_within_a_nonce_loses_the_frames_that_follow() {
    let tuning = Tuning::new(16, 1000, 3).unwrap();
    let key = derive_key(b"p");
    let plaintext = pattern(40);
    let file = encrypt_small(&plaintext, b"p", b"", tuning);
    let header_size = read_header(&file).unwrap().header_size;
    let third_frame = header_size + 2 * (16 + 16 + 16);
    for len in third_frame..(third_frame + 12) {
        assert_eq!(
            decrypt_container(&file[..len], &key, tuning),
            Ok(plaintext[..32].to_vec()),
            "len = {}",
            len
        );
    }
}

#[test]
fn bad_frame_in_an_earlier_batch_is_found_before_a_truncated_frame() {
    let key = derive_key(b"p");
    let writer = Tuning::new(16, 1000, 2).unwrap();
    let file = encrypt_small(&pattern(16 * 5), b"p", b"", writer);
    let header_size = read_header(&file).unwrap().header_size;
    let mut damaged = file[..file.len() - 1].to_vec();
    damaged[header_size + 16] ^= 1;
    // batches of two: the first batch fails before the fifth frame is read
    let streaming = Tuning::new(16, 0, 2).unwrap();
    assert_eq!(
        decrypt_container(&damaged, &key, streaming),
        Err(CryptoError::AuthFail)
    );
    // one pass: all frames are read first
    let one_pass = Tuning::new(16, 1000, 2).unwrap();
    assert_eq!(
        decrypt_container(&damaged, &key, one_pass),
        Err(CryptoError::TruncatedFrame)
    );
    assert_eq!(
        decrypt_container_at_once(&damaged, &key, streaming),
        Err(CryptoError::TruncatedFrame)
    );
}

#[test]
fn bad_frame_in_the_truncated_batch_is_not_opened() {
    let key = derive_key(b"p");
    let writer = Tuning::new(16, 1000, 2).unwrap();
    let file = encrypt_small(&pattern(16 * 4), b"p", b"", writer);
    let header_size = read_header(&file).unwrap().header_size;
    let mut damaged = file[..file.len() - 1].to_vec();
    // the third frame is bad and the fourth is cut: both are in the second batch
    damaged[header_size + 2 * 48 + 16] ^= 1;
    let streaming = Tuning::new(16, 0, 2).unwrap();
    assert_eq!(
        decrypt_container(&damaged, &key, streaming),
        Err(CryptoError::TruncatedFrame)
    );
    // with batches of one the third frame is a batch of its own
    let one_by_one = Tuning::new(16, 0, 1).unwrap();
    assert_eq!(
        decrypt_container(&damaged, &key, one_by_one),
        Err(CryptoError::AuthFail)
    );
}

#[test]
fn encrypt_file_internal_round_trips() {
    let plaintext = b"Hello, World! This is a test message.";
    let file = encrypt_file_internal(plaintext, b"secure_password", Some("a hint"), false, 8)
        .unwrap();
    assert_eq!(&file[..10], b"KYRIE_LOCK");
    assert_eq!(file.len(), 15 + 6 + 12 + plaintext.len() + 16);
    assert_eq!(
        decrypt_file_internal(&file, b"secure_password", false, 8),
        Ok(plaintext.to_vec())
    );
    assert_eq!(
        decrypt_file_internal(&file, b"secure_password", true, 2),
        Ok(plaintext.to_vec())
    );
    assert_eq!(
        decrypt_file_to_memory_internal(&file, b"secure_password", true, 1),
        Ok(plaintext.to_vec())
    );
    assert_eq!(
        decrypt_file_internal(&file, b"another_password", false, 8),
        Err(CryptoError::AuthFail)
    );
    assert_eq!(
        decrypt_file_to_memory_internal(&file, b"another_password", false, 8),
        Err(CryptoError::AuthFail)
    );
}

#[test]
fn encrypt_file_internal_draws_fresh_nonces() {
    let first = encrypt_file_internal(b"same", b"p", None, false, 8).unwrap();
    let second = encrypt_file_internal(b"same", b"p", None, false, 8).unwrap();
    assert_eq!(first.len(), second.len());
    assert_ne!(first[15..27], second[15..27]);
    assert_ne!(first, second);
}

#[test]
fn encrypt_file_internal_cuts_the_hint_to_32_bytes() {
    let hint = "0123456789012345678901234567890123456789";
    let file = encrypt_file_internal(b"x", b"p", Some(hint), true, 4).unwrap();
    let header = read_header(&file).unwrap();
    assert_eq!(header.hint, hint.as_bytes()[..32].to_vec());
    let file = encrypt_file_internal(b"x", b"p", None, true, 4).unwrap();
    assert_eq!(read_header(&file).unwrap().hint, Vec::<u8>::new());
}

#[test]
fn plaintext_of_exactly_one_mobile_chunk_is_single_shot() {
    let chunk = 128 * 1024 * 1024;
    let plaintext = vec![0x5Au8; chunk];
    let file = encrypt_file_internal(&plaintext, b"p", None, true, 4).unwrap();
    assert_eq!(file.len(), 15 + 12 + chunk + 16);
    assert!(decrypt_file_internal(&file, b"p", true, 4).unwrap() == plaintext);
}

#[test]
fn plaintext_of_one_mobile_chunk_and_a_byte_has_two_frames() {
    let chunk = 128 * 1024 * 1024;
    let plaintext = vec![0x5Au8; chunk + 1];
    let file = encrypt_file_internal(&plaintext, b"p", None, true, 4).unwrap();
    assert_eq!(file.len(), 15 + (16 + chunk + 16) + (16 + 1 + 16));
    assert_eq!(file[15 + 12..15 + 16], ((chunk + 16) as u32).to_be_bytes());
    let second = 15 + 16 + chunk + 16;
    assert_eq!(file[second + 12..second + 16], [0, 0, 0, 17]);
    assert_ne!(file[15..15 + 12], file[second..second + 12]);
    assert!(decrypt_file_internal(&file, b"p", true, 4).unwrap() == plaintext);
}

#[test]
fn file_of_a_mobile_device_between_the_chunk_sizes_fails_on_a_desktop() {
    let chunk = 128 * 1024 * 1024;
    let plaintext = vec![0x5Au8; chunk + 1];
    let file = encrypt_file_internal(&plaintext, b"p", None, true, 4).unwrap();
    // two frames of 128 MiB and one byte: short enough for a desktop to take
    // them for a single-shot body
    assert_eq!(
        decrypt_file_internal(&file, b"p", false, 4),
        Err(CryptoError::AuthFail)
    );
}
