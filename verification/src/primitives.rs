//! Key derivation, nonce generation and the AEAD cipher.
//!
//! SHA-256 and AES-256-GCM are computed by outside crates. Their results are
//! known to the proofs only by name, together with the few facts that the
//! trusted declarations below state.

use crate::error::CryptoError;
use aes_gcm::aead::{Aead, KeyInit};
use rand::RngCore;
use sha2::Digest;
use vstd::prelude::*;

verus! {

/// Length of a key in bytes.
pub const KEY_SIZE: usize = 32;

/// Length of a nonce in bytes.
pub const NONCE_SIZE: usize = 12;

/// Length of the authentication tag that ends every sealed message.
pub const TAG_SIZE: usize = 16;

/// Longest plaintext the cipher accepts: 2^36 bytes.
pub const CIPHER_MAX_PLAINTEXT: u64 = 0x10_0000_0000;

/// The SHA-256 digest of `data`.
pub uninterp spec fn sha256_digest(data: Seq<u8>) -> Seq<u8>;

/// What AES-256-GCM, with no associated data, makes of `plaintext` under
/// `key` and `nonce`: the ciphertext followed by its tag.
pub uninterp spec fn aes256_gcm_sealed(key: Seq<u8>, nonce: Seq<u8>, plaintext: Seq<u8>) -> Seq<u8>;

/// What AES-256-GCM, with no associated data, recovers from `sealed` under
/// `key` and `nonce`: the plaintext, or nothing where the tag does not verify.
pub uninterp spec fn aes256_gcm_opened(key: Seq<u8>, nonce: Seq<u8>, sealed: Seq<u8>) -> Option<
    Seq<u8>,
>;

/// The error of the `aead` traits, as `aes_gcm` re-exports it. It carries no
/// information.
#[verifier::external_type_specification]
#[verifier::external_body]
pub struct ExAeadError(aes_gcm::Error);

/// The key that stands for a password: one pass of SHA-256 over its bytes.
pub open spec fn derived_key(password: Seq<u8>) -> Seq<u8> {
    sha256_digest(password)
}

/// Longest plaintext that `seal` accepts on this machine: the cipher's own
/// limit, and room for the tag in an allocation.
pub open spec fn max_plaintext_len() -> int {
    if CIPHER_MAX_PLAINTEXT <= isize::MAX - TAG_SIZE {
        CIPHER_MAX_PLAINTEXT as int
    } else {
        isize::MAX - TAG_SIZE
    }
}

/// The cipher gives back under `key` and `nonce` what it sealed under them:
/// the sealed message is sixteen bytes longer than `plaintext` and opens to
/// `plaintext`.
pub open spec fn opens_to(key: Seq<u8>, nonce: Seq<u8>, plaintext: Seq<u8>) -> bool {
    &&& aes256_gcm_sealed(key, nonce, plaintext).len() == plaintext.len() + TAG_SIZE
    &&& aes256_gcm_opened(key, nonce, aes256_gcm_sealed(key, nonce, plaintext)) == Some(plaintext)
}

/// Calls `sha2::Sha256::digest`. Trusted: the result is the SHA-256 digest of
/// `data`, a function of `data` alone.
#[verifier::external_body]
fn sha256(data: &[u8]) -> (digest: [u8; 32])
    ensures
        digest@ == sha256_digest(data@),
{
    sha2::Sha256::digest(data).into()
}

/// Calls `Aes256Gcm::new` and `Aead::encrypt` of `aes_gcm` with an empty
/// associated data. Trusted: the call fails exactly when the plaintext is
/// longer than 2^36 bytes; otherwise its result is a function of the three
/// arguments, sixteen bytes longer than the plaintext, and `Aead::decrypt`
/// under the same key and nonce recovers the plaintext from it. The buffer for
/// the result is allocated before that test, hence the bound on the length.
#[verifier::external_body]
fn aes256_gcm_encrypt(key: &[u8; 32], nonce: &[u8; 12], plaintext: &[u8]) -> (sealed: Result<
    Vec<u8>,
    aes_gcm::Error,
>)
    requires
        plaintext@.len() + TAG_SIZE <= isize::MAX,
    ensures
        sealed is Ok <==> plaintext@.len() <= CIPHER_MAX_PLAINTEXT,
        sealed matches Ok(bytes) ==> bytes@ == aes256_gcm_sealed(key@, nonce@, plaintext@)
            && opens_to(key@, nonce@, plaintext@),
{
    aes_gcm::Aes256Gcm::new(key.into()).encrypt(nonce.into(), plaintext)
}

/// Calls `Aes256Gcm::new` and `Aead::decrypt` of `aes_gcm` with an empty
/// associated data. Trusted: whether the call succeeds, and with what, is a
/// function of the three arguments; a message shorter than the tag is refused,
/// and a recovered plaintext is sixteen bytes shorter than the message.
#[verifier::external_body]
fn aes256_gcm_decrypt(key: &[u8; 32], nonce: &[u8; 12], sealed: &[u8]) -> (plaintext: Result<
    Vec<u8>,
    aes_gcm::Error,
>)
    ensures
        match plaintext {
            Ok(bytes) => aes256_gcm_opened(key@, nonce@, sealed@) == Some(bytes@) && bytes@.len()
                + TAG_SIZE == sealed@.len(),
            Err(_) => aes256_gcm_opened(key@, nonce@, sealed@) is None,
        },
        sealed@.len() < TAG_SIZE ==> plaintext is Err,
{
    aes_gcm::Aes256Gcm::new(key.into()).decrypt(nonce.into(), sealed)
}

/// Calls `rand::thread_rng` and `RngCore::fill_bytes`. Nothing is promised of
/// the twelve bytes: they come from the operating system's generator. The
/// call does not return if that generator cannot be seeded.
#[verifier::external_body]
pub(crate) fn generate_nonce() -> (nonce: [u8; 12]) {
    let mut nonce = [0u8; 12];
    rand::thread_rng().fill_bytes(&mut nonce);
    nonce
}

/// Derives the 32-byte key of a password. The same password always gives the
/// same key.
pub fn derive_key(password: &[u8]) -> (key: [u8; 32])
    ensures
        key@ == derived_key(password@),
{
    sha256(password)
}

/// Seals `plaintext` under `key` and `nonce`. The result is the ciphertext
/// followed by its 16-byte tag. Using a nonce twice under one key is the
/// caller's responsibility to avoid.
pub fn seal(key: &[u8; 32], nonce: &[u8; 12], plaintext: &[u8]) -> (sealed: Result<
    Vec<u8>,
    CryptoError,
>)
    ensures
        sealed is Ok <==> plaintext@.len() <= max_plaintext_len(),
        sealed matches Ok(bytes) ==> bytes@ == aes256_gcm_sealed(key@, nonce@, plaintext@)
            && bytes@.len() == plaintext@.len() + TAG_SIZE && opens_to(
            key@,
            nonce@,
            plaintext@,
        ),
        sealed matches Err(e) ==> e == CryptoError::InternalFault,
{
    if plaintext.len() > isize::MAX as usize - TAG_SIZE {
        return Err(CryptoError::InternalFault);
    }
    match aes256_gcm_encrypt(key, nonce, plaintext) {
        Ok(bytes) => Ok(bytes),
        Err(_) => Err(CryptoError::InternalFault),
    }
}

/// What `open` returns for a sealed message.
pub open spec fn opened(key: Seq<u8>, nonce: Seq<u8>, sealed: Seq<u8>) -> Result<
    Seq<u8>,
    CryptoError,
> {
    match aes256_gcm_opened(key, nonce, sealed) {
        Some(plaintext) => Ok(plaintext),
        None => Err(CryptoError::AuthFail),
    }
}

/// Opens a sealed message. The tag is always checked: on any mismatch the
/// result is `AuthFail` and no plaintext is produced.
pub fn open(key: &[u8; 32], nonce: &[u8; 12], sealed: &[u8]) -> (plaintext: Result<
    Vec<u8>,
    CryptoError,
>)
    ensures
        match plaintext {
            Ok(bytes) => opened(key@, nonce@, sealed@) == Ok::<Seq<u8>, CryptoError>(bytes@)
                && bytes@.len() + TAG_SIZE == sealed@.len(),
            Err(e) => opened(key@, nonce@, sealed@) == Err::<Seq<u8>, CryptoError>(e),
        },
        sealed@.len() < TAG_SIZE ==> plaintext is Err,
{
    match aes256_gcm_decrypt(key, nonce, sealed) {
        Ok(bytes) => Ok(bytes),
        Err(_) => Err(CryptoError::AuthFail),
    }
}

/// Draws `count` fresh nonces, one after the other.
pub fn generate_nonces(count: usize) -> (nonces: Vec<[u8; 12]>)
    ensures
        nonces@.len() == count,
{
    let mut nonces: Vec<[u8; 12]> = Vec::new();
    while nonces.len() < count
        invariant
            nonces@.len() <= count,
        decreases count - nonces@.len(),
    {
        nonces.push(generate_nonce());
    }
    nonces
}

} // verus!
