use rust_crypto::container::{read_header, write_frame};
use rust_crypto::facade::{
    accept_hint, decrypt_data, decrypt_data_parallel, decrypt_file, decrypt_file_to_memory,
    derive_key_ffi, encrypt_data, encrypt_data_parallel, encrypt_file, get_hint_from_file,
};
use rust_crypto::primitives::{derive_key, seal, NONCE_SIZE, TAG_SIZE};

#[test]
fn test_encrypt_decrypt() {
    let data = b"Hello, World! This is a test message.";
    let password = b"secure_password";
    let nonce = [0u8; NONCE_SIZE];

    let mut encrypted = vec![0u8; data.len() + TAG_SIZE];
    let result = encrypt_data(data, password, &nonce, &mut encrypted);

    assert_eq!(result, 0);
    assert_eq!(encrypted.len(), data.len() + TAG_SIZE);

    let mut decrypted = vec![0u8; encrypted.len()];
    let result = decrypt_data(&encrypted, password, &nonce, &mut decrypted);

    assert_eq!(result, 0);
    assert_eq!(decrypted, data);
}

#[test]
fn derive_key_ffi_writes_the_key() {
    let mut output = [0u8; 32];
    assert_eq!(derive_key_ffi(b"test_password", &mut output), 0);
    assert_eq!(output, derive_key(b"test_password"));
    assert_ne!(output, [0u8; 32]);
}

#[test]
fn encrypt_data_is_seal_under_the_key_of_the_password() {
    let mut output: Vec<u8> = Vec::new();
    assert_eq!(encrypt_data(b"payload", b"pw", &[8u8; 12], &mut output), 0);
    assert_eq!(output, seal(&derive_key(b"pw"), &[8u8; 12], b"payload").unwrap());
}

#[test]
fn decrypt_data_with_wrong_password_fails_and_keeps_the_buffer() {
    let mut sealed: Vec<u8> = Vec::new();
    assert_eq!(encrypt_data(b"payload", b"right", &[8u8; 12], &mut sealed), 0);
    let mut output: Vec<u8> = b"untouched".to_vec();
    assert_eq!(decrypt_data(&sealed, b"wrong", &[8u8; 12], &mut output), -2);
    assert_eq!(output, b"untouched".to_vec());
    assert_eq!(decrypt_data(&sealed, b"right", &[9u8; 12], &mut output), -2);
    assert_eq!(output, b"untouched".to_vec());
    assert_eq!(decrypt_data(&sealed, b"right", &[8u8; 12], &mut output), 0);
    assert_eq!(output, b"payload".to_vec());
}

#[test]
fn encrypt_data_parallel_seals_each_chunk_under_its_nonce() {
    let chunks = vec![b"zero".to_vec(), b"".to_vec(), b"two two".to_vec()];
    let mut nonces: Vec<u8> = Vec::new();
    nonces.extend_from_slice(&[1u8; 12]);
    nonces.extend_from_slice(&[2u8; 12]);
    nonces.extend_from_slice(&[3u8; 12]);
    let mut outputs: Vec<Vec<u8>> = Vec::new();
    assert_eq!(encrypt_data_parallel(&chunks, b"pw", &nonces, &mut outputs), 0);
    let key = derive_key(b"pw");
    assert_eq!(
        outputs,
        vec![
            seal(&key, &[1u8; 12], b"zero").unwrap(),
            seal(&key, &[2u8; 12], b"").unwrap(),
            seal(&key, &[3u8; 12], b"two two").unwrap(),
        ]
    );
    let mut opened: Vec<Vec<u8>> = Vec::new();
    assert_eq!(decrypt_data_parallel(&outputs, b"pw", &nonces, &mut opened), 0);
    assert_eq!(opened, chunks);
}

#[test]
fn parallel_operations_keep_order_over_many_chunks() {
    let chunks: Vec<Vec<u8>> = (0..300usize).map(|i| vec![i as u8; i % 50]).collect();
    let mut nonces: Vec<u8> = Vec::new();
    for i in 0..300usize {
        let mut nonce = [0u8; 12];
        nonce[0] = i as u8;
        nonce[1] = (i / 256) as u8;
        nonces.extend_from_slice(&nonce);
    }
    let mut sealed: Vec<Vec<u8>> = Vec::new();
    assert_eq!(encrypt_data_parallel(&chunks, b"pw", &nonces, &mut sealed), 0);
    assert_eq!(sealed.len(), 300);
    let key = derive_key(b"pw");
    for i in 0..300usize {
        let mut nonce = [0u8; 12];
        nonce.copy_from_slice(&nonces[12 * i..12 * i + 12]);
        assert_eq!(sealed[i], seal(&key, &nonce, &chunks[i]).unwrap());
    }
    let mut opened: Vec<Vec<u8>> = Vec::new();
    assert_eq!(decrypt_data_parallel(&sealed, b"pw", &nonces, &mut opened), 0);
    assert_eq!(opened, chunks);
}

#[test]
fn parallel_operations_refuse_nonces_of_the_wrong_length() {
    let chunks = vec![b"zero".to_vec(), b"one".to_vec()];
    let mut outputs: Vec<Vec<u8>> = vec![b"kept".to_vec()];
    for len in [0usize, 12, 23, 25, 36] {
        let nonces = vec![0u8; len];
        assert_eq!(encrypt_data_parallel(&chunks, b"pw", &nonces, &mut outputs), -1);
        assert_eq!(decrypt_data_parallel(&chunks, b"pw", &nonces, &mut outputs), -1);
        assert_eq!(outputs, vec![b"kept".to_vec()]);
    }
    assert_eq!(
        encrypt_data_parallel(&chunks, b"pw", &vec![0u8; 24], &mut outputs),
        0
    );
    assert_eq!(outputs.len(), 2);
}

#[test]
fn parallel_operations_on_no_chunks_give_no_outputs() {
    let mut outputs: Vec<Vec<u8>> = vec![b"old".to_vec()];
    assert_eq!(encrypt_data_parallel(&vec![], b"pw", &[], &mut outputs), 0);
    assert_eq!(outputs, Vec::<Vec<u8>>::new());
}

#[test]
fn decrypt_data_parallel_fails_as_a_whole_on_one_bad_chunk() {
    let chunks = vec![b"zero".to_vec(), b"one".to_vec(), b"two".to_vec()];
    let nonces: Vec<u8> = (0u8..36).collect();
    let mut sealed: Vec<Vec<u8>> = Vec::new();
    assert_eq!(encrypt_data_parallel(&chunks, b"pw", &nonces, &mut sealed), 0);
    sealed[1][0] ^= 1;
    let mut opened: Vec<Vec<u8>> = vec![b"kept".to_vec()];
    assert_eq!(decrypt_data_parallel(&sealed, b"pw", &nonces, &mut opened), -2);
    assert_eq!(opened, vec![b"kept".to_vec()]);
}

#[test]
fn encrypt_file_then_decrypt_file() {
    let plaintext = b"Hello, World! This is a test message.";
    let mut file: Vec<u8> = Vec::new();
    assert_eq!(
        encrypt_file(plaintext, b"secure_password", Some(b"hint"), false, 8, &mut file),
        0
    );
    let mut output: Vec<u8> = Vec::new();
    assert_eq!(decrypt_file(&file, b"secure_password", false, 8, &mut output), 0);
    assert_eq!(output, plaintext.to_vec());
    let mut output: Vec<u8> = Vec::new();
    assert_eq!(decrypt_file(&file, b"secure_password", true, 1, &mut output), 0);
    assert_eq!(output, plaintext.to_vec());
    let mut output: Vec<u8> = Vec::new();
    assert_eq!(
        decrypt_file_to_memory(&file, b"secure_password", true, 64, &mut output),
        0
    );
    assert_eq!(output, plaintext.to_vec());
}

#[test]
fn decrypt_file_fails_with_minus_two_and_keeps_the_buffer() {
    let mut file: Vec<u8> = Vec::new();
    assert_eq!(encrypt_file(b"payload", b"right", None, false, 8, &mut file), 0);
    let mut output: Vec<u8> = b"kept".to_vec();
    assert_eq!(decrypt_file(&file, b"wrong", false, 8, &mut output), -2);
    assert_eq!(decrypt_file_to_memory(&file, b"wrong", false, 8, &mut output), -2);
    let mut bad_magic = file.clone();
    bad_magic[..10].copy_from_slice(b"NOPE______");
    assert_eq!(decrypt_file(&bad_magic, b"right", false, 8, &mut output), -2);
    assert_eq!(get_hint_from_file(&bad_magic, &mut output), -2);
    assert_eq!(decrypt_file(&file[..20], b"right", false, 8, &mut output), -2);
    assert_eq!(decrypt_file(&[], b"right", false, 8, &mut output), -2);
    assert_eq!(output, b"kept".to_vec());
}

#[test]
fn hint_of_an_empty_plaintext_is_read_without_the_password() {
    let mut file: Vec<u8> = Vec::new();
    assert_eq!(
        encrypt_file(b"", b"p", Some(b"remember: dog name"), false, 8, &mut file),
        0
    );
    assert_eq!(file.len(), 15 + 18 + 12 + 16);
    let mut hint: Vec<u8> = Vec::new();
    assert_eq!(get_hint_from_file(&file, &mut hint), 0);
    assert_eq!(hint, b"remember: dog name".to_vec());
    let mut output: Vec<u8> = b"old".to_vec();
    assert_eq!(decrypt_file(&file, b"p", false, 8, &mut output), 0);
    assert_eq!(output, Vec::<u8>::new());
}

#[test]
fn hints_of_0_32_and_33_bytes() {
    for len in [0usize, 32, 33] {
        let given: Vec<u8> = (0..len).map(|i| b'a' + (i % 26) as u8).collect();
        let mut file: Vec<u8> = Vec::new();
        assert_eq!(
            encrypt_file(b"data", b"p", Some(&given), true, 4, &mut file),
            0
        );
        let mut hint: Vec<u8> = Vec::new();
        assert_eq!(get_hint_from_file(&file, &mut hint), 0);
        assert_eq!(hint, given[..len.min(32)].to_vec());
        assert_eq!(read_header(&file).unwrap().header_size, 15 + len.min(32));
    }
}

#[test]
fn absent_hint_is_an_empty_hint() {
    let mut file: Vec<u8> = Vec::new();
    assert_eq!(encrypt_file(b"data", b"p", None, true, 4, &mut file), 0);
    assert_eq!(file[14], 0);
    let mut hint: Vec<u8> = b"old".to_vec();
    assert_eq!(get_hint_from_file(&file, &mut hint), 0);
    assert_eq!(hint, Vec::<u8>::new());
}

#[test]
fn hint_that_is_not_utf8_is_dropped() {
    let mut file: Vec<u8> = Vec::new();
    assert_eq!(
        encrypt_file(b"data", b"p", Some(&[0x66, 0xFF, 0x6F]), true, 4, &mut file),
        0
    );
    assert_eq!(file[14], 0);
    let mut output: Vec<u8> = Vec::new();
    assert_eq!(decrypt_file(&file, b"p", true, 4, &mut output), 0);
    assert_eq!(output, b"data".to_vec());
}

#[test]
fn accept_hint_takes_valid_utf8_only() {
    assert_eq!(accept_hint(None), None);
    assert_eq!(accept_hint(Some(b"plain")), Some("plain"));
    assert_eq!(accept_hint(Some(b"")), Some(""));
    assert_eq!(accept_hint(Some("gr\u{fc}n".as_bytes())), Some("gr\u{fc}n"));
    assert_eq!(accept_hint(Some(&[0xC3])), None);
    assert_eq!(accept_hint(Some(&[0x80, 0x41])), None);
}

#[test]
fn hint_is_cut_at_32_bytes_even_within_a_character() {
    let text = "aaaaaaaaaaaaaaaaaaaaaaaaaaaaaaa\u{fc}";
    assert_eq!(text.len(), 33);
    let mut file: Vec<u8> = Vec::new();
    assert_eq!(
        encrypt_file(b"data", b"p", Some(text.as_bytes()), true, 4, &mut file),
        0
    );
    let mut hint: Vec<u8> = Vec::new();
    assert_eq!(get_hint_from_file(&file, &mut hint), 0);
    assert_eq!(hint, text.as_bytes()[..32].to_vec());
}

#[test]
fn nonces_of_a_framed_file_are_all_different() {
    // frames written by hand from nonces drawn for a batch, as the engine does
    let nonces = rust_crypto::primitives::generate_nonces(32);
    let key = derive_key(b"p");
    let chunks: Vec<Vec<u8>> = (0..32usize).map(|i| vec![i as u8; 4]).collect();
    let mut body: Vec<u8> = Vec::new();
    assert_eq!(
        rust_crypto::pipeline::encrypt_batch(&key, &chunks, &nonces, &mut body),
        Ok(())
    );
    let mut expected: Vec<u8> = Vec::new();
    for i in 0..32usize {
        write_frame(&mut expected, &nonces[i], &seal(&key, &nonces[i], &chunks[i]).unwrap());
        for j in 0..i {
            assert_ne!(body[36 * i..36 * i + 12], body[36 * j..36 * j + 12]);
        }
    }
    assert_eq!(body, expected);
}
