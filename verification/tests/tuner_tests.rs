use rust_crypto::error::CryptoError;
use rust_crypto::tuner::{
    get_chunk_size, get_parallel_batch_size, get_parallel_batch_threshold, Mode, Tuning,
    MAX_CHUNK_SIZE,
};

const MIB: usize = 1024 * 1024;

#[test]
fn chunk_size_is_128_mib_on_mobile_and_256_on_desktop() {
    assert_eq!(get_chunk_size(true), 128 * MIB);
    assert_eq!(get_chunk_size(false), 256 * MIB);
}

#[test]
fn threshold_is_512_mib_on_mobile_and_1_gib_on_desktop() {
    assert_eq!(get_parallel_batch_threshold(true), 512 * MIB);
    assert_eq!(get_parallel_batch_threshold(false), 1024 * MIB);
}

#[test]
fn mobile_batch_size_is_half_the_cores_within_2_and_8() {
    let expected = [
        (0usize, 2usize),
        (1, 2),
        (2, 2),
        (3, 2),
        (4, 2),
        (5, 3),
        (6, 3),
        (7, 4),
        (8, 4),
        (9, 5),
        (12, 6),
        (15, 8),
        (16, 8),
        (17, 8),
        (64, 8),
        (usize::MAX, 8),
    ];
    for (cores, batch) in expected {
        assert_eq!(get_parallel_batch_size(cores, true), batch, "cores = {}", cores);
    }
}

#[test]
fn desktop_batch_size_is_three_quarters_of_the_cores_within_4_and_16() {
    let expected = [
        (0usize, 4usize),
        (1, 4),
        (4, 4),
        (5, 4),
        (6, 5),
        (7, 5),
        (8, 6),
        (10, 8),
        (12, 9),
        (16, 12),
        (20, 15),
        (21, 16),
        (22, 16),
        (32, 16),
        (usize::MAX, 16),
    ];
    for (cores, batch) in expected {
        assert_eq!(get_parallel_batch_size(cores, false), batch, "cores = {}", cores);
    }
}

#[test]
fn batch_size_agrees_with_rounding_in_floating_point() {
    for cores in 0usize..200 {
        let mobile = ((cores as f32 * 0.5).round() as usize).clamp(2, 8);
        let desktop = ((cores as f32 * 0.75).round() as usize).clamp(4, 16);
        assert_eq!(get_parallel_batch_size(cores, true), mobile);
        assert_eq!(get_parallel_batch_size(cores, false), desktop);
    }
}

#[test]
fn tuning_for_device_holds_the_three_parameters() {
    let desktop = Tuning::for_device(false, 8);
    assert_eq!(desktop.chunk_size(), 256 * MIB);
    assert_eq!(desktop.parallel_threshold(), 1024 * MIB);
    assert_eq!(desktop.batch_size(), 6);
    let mobile = Tuning::for_device(true, 8);
    assert_eq!(mobile.chunk_size(), 128 * MIB);
    assert_eq!(mobile.parallel_threshold(), 512 * MIB);
    assert_eq!(mobile.batch_size(), 4);
}

#[test]
fn tuning_new_refuses_what_cannot_be_framed() {
    assert!(Tuning::new(0, 10, 1).is_none());
    assert!(Tuning::new(1, 10, 0).is_none());
    assert!(Tuning::new(MAX_CHUNK_SIZE + 1, 10, 1).is_none());
    let tuning = Tuning::new(MAX_CHUNK_SIZE, 0, 1).unwrap();
    assert_eq!(tuning.chunk_size(), MAX_CHUNK_SIZE);
    assert_eq!(tuning.parallel_threshold(), 0);
    assert_eq!(tuning.batch_size(), 1);
    let small = Tuning::new(8, 64, 3).unwrap();
    assert_eq!(small.chunk_size(), 8);
    assert_eq!(small.parallel_threshold(), 64);
    assert_eq!(small.batch_size(), 3);
}

#[test]
fn plaintext_of_exactly_one_chunk_is_single_shot() {
    for is_mobile in [true, false] {
        let tuning = Tuning::for_device(is_mobile, 4);
        assert_eq!(tuning.select_encrypt_mode(0), Mode::SingleShot);
        assert_eq!(tuning.select_encrypt_mode(1), Mode::SingleShot);
        assert_eq!(
            tuning.select_encrypt_mode(tuning.chunk_size() as u64),
            Mode::SingleShot
        );
    }
}

#[test]
fn plaintext_of_one_chunk_and_a_byte_is_in_memory_parallel() {
    for is_mobile in [true, false] {
        let tuning = Tuning::for_device(is_mobile, 4);
        assert_eq!(
            tuning.select_encrypt_mode(tuning.chunk_size() as u64 + 1),
            Mode::InMemoryParallel
        );
        assert_eq!(
            tuning.select_encrypt_mode(tuning.parallel_threshold() as u64),
            Mode::InMemoryParallel
        );
    }
}

#[test]
fn plaintext_of_the_threshold_and_a_byte_is_streaming_batched() {
    for is_mobile in [true, false] {
        let tuning = Tuning::for_device(is_mobile, 4);
        assert_eq!(
            tuning.select_encrypt_mode(tuning.parallel_threshold() as u64 + 1),
            Mode::StreamingBatched
        );
    }
}

#[test]
fn modes_of_sizes_beyond_four_gibibytes() {
    let tuning = Tuning::for_device(false, 8);
    assert_eq!(tuning.select_encrypt_mode(1 << 40), Mode::StreamingBatched);
    assert_eq!(tuning.select_encrypt_mode(u64::MAX), Mode::StreamingBatched);
    assert_eq!(tuning.select_decrypt_mode(1 << 40), Ok(Mode::StreamingBatched));
    assert_eq!(tuning.select_decrypt_mode(u64::MAX), Ok(Mode::StreamingBatched));
}

#[test]
fn decrypt_mode_follows_the_size_of_the_body() {
    let tuning = Tuning::new(100, 1000, 2).unwrap();
    assert_eq!(tuning.select_decrypt_mode(0), Err(CryptoError::IoError));
    assert_eq!(tuning.select_decrypt_mode(11), Err(CryptoError::IoError));
    assert_eq!(tuning.select_decrypt_mode(12), Ok(Mode::SingleShot));
    assert_eq!(tuning.select_decrypt_mode(12 + 100 + 16), Ok(Mode::SingleShot));
    assert_eq!(
        tuning.select_decrypt_mode(12 + 100 + 16 + 1),
        Ok(Mode::InMemoryParallel)
    );
    assert_eq!(tuning.select_decrypt_mode(1000), Ok(Mode::InMemoryParallel));
    assert_eq!(tuning.select_decrypt_mode(1001), Ok(Mode::StreamingBatched));
}

#[test]
fn decrypt_mode_of_a_body_made_by_encryption_matches_its_layout() {
    let tuning = Tuning::for_device(false, 8);
    let chunk = tuning.chunk_size() as u64;
    // single-shot body of a plaintext of exactly one chunk
    assert_eq!(
        tuning.select_decrypt_mode(12 + chunk + 16),
        Ok(Mode::SingleShot)
    );
    // two frames: a full chunk and one byte
    let framed = (12 + 4 + chunk + 16) + (12 + 4 + 1 + 16);
    assert_eq!(tuning.select_decrypt_mode(framed), Ok(Mode::InMemoryParallel));
}
