//! The operations offered to a host, over plain buffers: each returns a
//! status code and hands its result over through an output buffer.
//!
//! `0` is success, `-1` a rejected argument, `-2` every other failure. On
//! failure the output buffer is left as it was.

use crate::container::{get_hint_from_file_internal, parsed_hint, read_nonce};
use crate::engine::{
    decrypt_file_internal, decrypt_file_to_memory_internal, decrypted, decrypted_at_once,
    encrypt_file_internal, hint_bytes, is_container_of,
};
use crate::error::{error_code, status_of_error, CryptoError, STATUS_OK};
use crate::pipeline::{
    apply_cipher, apply_to_all, cipher_applied, collect_in_order, outcome, CipherOp,
};
use crate::primitives::{derive_key, derived_key, opens_to, NONCE_SIZE};
use crate::tuner::{batch_size_for, chunk_size_for, parallel_threshold_for};
use vstd::prelude::*;
use vstd::string::StringSliceAdditionalSpecFns;
use vstd::utf8::valid_utf8;

verus! {

/// The error of `core::str::from_utf8`.
#[verifier::external_type_specification]
#[verifier::external_body]
pub struct ExUtf8Error(core::str::Utf8Error);

/// `core::str::from_utf8` succeeds exactly on valid UTF-8, and the text it
/// returns has the bytes it was given.
pub assume_specification[ core::str::from_utf8 ](v: &[u8]) -> (text: Result<
    &str,
    core::str::Utf8Error,
>)
    ensures
        text is Ok <==> valid_utf8(v@),
        text matches Ok(s) ==> s.spec_bytes() == v@,
;

/// The status code of a result.
pub open spec fn status_of<T>(result: Result<T, CryptoError>) -> i32 {
    match result {
        Ok(_) => STATUS_OK,
        Err(e) => status_of_error(e),
    }
}

/// What an operation leaves in its output buffer: its result on success, the
/// previous content on failure.
pub open spec fn delivered<T>(result: Result<T, CryptoError>, before: T) -> T {
    match result {
        Ok(value) => value,
        Err(_) => before,
    }
}

/// Hands a result over to the host: the bytes replace the content of
/// `output` on success, and the status code is returned.
fn deliver(result: Result<Vec<u8>, CryptoError>, output: &mut Vec<u8>) -> (code: i32)
    ensures
        code == status_of(outcome(result)),
        final(output)@ == delivered(outcome(result), old(output)@),
{
    match result {
        Ok(bytes) => {
            *output = bytes;
            STATUS_OK
        },
        Err(e) => error_code(e),
    }
}

/// The hint that encryption stores for what the host passed: the bytes of a
/// text that is valid UTF-8, and nothing where the hint is absent or is not
/// valid UTF-8.
pub open spec fn accepted_hint(hint: Option<&[u8]>) -> Seq<u8> {
    match hint {
        Some(bytes) => if valid_utf8(bytes@) {
            bytes@
        } else {
            Seq::empty()
        },
        None => Seq::empty(),
    }
}

/// The text of a hint as the host passed it: nothing where the hint is absent
/// or is not valid UTF-8.
pub fn accept_hint(hint: Option<&[u8]>) -> (text: Option<&str>)
    ensures
        hint_bytes(text) == accepted_hint(hint),
        text is Some <==> (hint matches Some(bytes) && valid_utf8(bytes@)),
{
    match hint {
        None => None,
        Some(bytes) => match core::str::from_utf8(bytes) {
            Ok(text) => Some(text),
            Err(_) => None,
        },
    }
}

/// Writes the key derived from `password` to `output`. Always succeeds.
pub fn derive_key_ffi(password: &[u8], output: &mut [u8; 32]) -> (code: i32)
    ensures
        code == STATUS_OK,
        final(output)@ == derived_key(password@),
{
    *output = derive_key(password);
    STATUS_OK
}

/// Seals `data` under the key of `password` and the nonce given, and writes
/// the ciphertext and its tag to `output`. The caller answers for never
/// using a nonce twice under one password.
pub fn encrypt_data(data: &[u8], password: &[u8], nonce: &[u8; 12], output: &mut Vec<u8>) -> (code:
    i32)
    ensures
        code == status_of(cipher_applied(CipherOp::Seal, derived_key(password@), nonce@, data@)),
        final(output)@ == delivered(
            cipher_applied(CipherOp::Seal, derived_key(password@), nonce@, data@),
            old(output)@,
        ),
        code == STATUS_OK ==> opens_to(derived_key(password@), nonce@, data@),
{
    let key = derive_key(password);
    deliver(apply_cipher(CipherOp::Seal, &key, nonce, data), output)
}

/// Opens `encrypted`, a ciphertext followed by its tag, under the key of
/// `password` and the nonce given, and writes the plaintext to `output`.
pub fn decrypt_data(encrypted: &[u8], password: &[u8], nonce: &[u8; 12], output: &mut Vec<u8>) -> (
    code: i32)
    ensures
        code == status_of(
            cipher_applied(CipherOp::Open, derived_key(password@), nonce@, encrypted@),
        ),
        final(output)@ == delivered(
            cipher_applied(CipherOp::Open, derived_key(password@), nonce@, encrypted@),
            old(output)@,
        ),
{
    let key = derive_key(password);
    deliver(apply_cipher(CipherOp::Open, &key, nonce, encrypted), output)
}

/// The nonce of the chunk at index `i` among concatenated nonces.
pub open spec fn nonce_at(nonces: Seq<u8>, i: int) -> Seq<u8> {
    nonces.subrange(NONCE_SIZE * i, NONCE_SIZE * i + NONCE_SIZE)
}

/// The error with which an operation of the cipher fails.
pub open spec fn failure_of(op: CipherOp) -> CryptoError {
    match op {
        CipherOp::Seal => CryptoError::InternalFault,
        CipherOp::Open => CryptoError::AuthFail,
    }
}

/// What applying the cipher to each chunk, under the nonce at its index,
/// gives: one output per chunk in the order of the chunks; the error of the
/// cipher where a chunk fails; `InvalidArgument` where the nonces are not
/// twelve bytes per chunk.
pub open spec fn applied_to_each(op: CipherOp, key: Seq<u8>, nonces: Seq<u8>, chunks: Seq<Seq<u8>>)
    -> Result<Seq<Seq<u8>>, CryptoError> {
    if nonces.len() != NONCE_SIZE * chunks.len() {
        Err(CryptoError::InvalidArgument)
    } else if forall|i: int|
        0 <= i < chunks.len() ==> (#[trigger] cipher_applied(
            op,
            key,
            nonce_at(nonces, i),
            chunks[i],
        )) is Ok {
        Ok(
            Seq::new(
                chunks.len(),
                |i: int| cipher_applied(op, key, nonce_at(nonces, i), chunks[i])->Ok_0,
            ),
        )
    } else {
        Err(failure_of(op))
    }
}

/// The outputs of a parallel operation, each as a sequence.
pub open spec fn output_views(outputs: Seq<Vec<u8>>) -> Seq<Seq<u8>> {
    outputs.map_values(|output: Vec<u8>| output@)
}

/// Cuts concatenated nonces into one nonce per chunk.
fn split_nonces(nonces: &[u8], count: usize) -> (split: Vec<[u8; 12]>)
    requires
        nonces@.len() == NONCE_SIZE * count,
    ensures
        split@.len() == count,
        forall|i: int| 0 <= i < count ==> (#[trigger] split@[i])@ == nonce_at(nonces@, i),
{
    let mut split: Vec<[u8; 12]> = Vec::new();
    let mut i: usize = 0;
    assert(nonces@.len() == nonces.len());
    while i < count
        invariant
            i <= count,
            nonces@.len() <= usize::MAX,
            nonces@.len() == NONCE_SIZE * count,
            split@.len() == i,
            forall|j: int| 0 <= j < i ==> (#[trigger] split@[j])@ == nonce_at(nonces@, j),
        decreases count - i,
    {
        split.push(read_nonce(nonces, NONCE_SIZE * i));
        i += 1;
    }
    split
}

/// Applies the cipher to every chunk in one parallel pass and hands the
/// outputs over in the order of the chunks.
fn apply_to_each(
    op: CipherOp,
    chunks: &Vec<Vec<u8>>,
    password: &[u8],
    nonces: &[u8],
    outputs: &mut Vec<Vec<u8>>,
) -> (code: i32)
    ensures
        code == status_of(
            applied_to_each(op, derived_key(password@), nonces@, output_views(chunks@)),
        ),
        output_views(final(outputs)@) == delivered(
            applied_to_each(op, derived_key(password@), nonces@, output_views(chunks@)),
            output_views(old(outputs)@),
        ),
        op == CipherOp::Seal && code == STATUS_OK ==> forall|i: int|
            0 <= i < chunks@.len() ==> opens_to(
                derived_key(password@),
                #[trigger] nonce_at(nonces@, i),
                output_views(chunks@)[i],
            ),
{
    let count = chunks.len();
    if nonces.len() / NONCE_SIZE != count || nonces.len() % NONCE_SIZE != 0 {
        return error_code(CryptoError::InvalidArgument);
    }
    let key = derive_key(password);
    let split = split_nonces(nonces, count);
    let results = apply_to_all(op, &key, &split, chunks);
    let ghost inputs = output_views(chunks@);
    let ghost expected = |i: int| cipher_applied(op, key@, nonce_at(nonces@, i), inputs[i]);
    assert forall|i: int| 0 <= i < count implies outcome(#[trigger] results@[i]) == expected(
        i,
    ) by {}
    match collect_in_order(results) {
        Ok(collected) => {
            proof {
                assert forall|i: int| 0 <= i < count implies (#[trigger] cipher_applied(
                    op,
                    key@,
                    nonce_at(nonces@, i),
                    inputs[i],
                )) is Ok by {
                    assert(results@[i] == Ok::<Vec<u8>, CryptoError>(collected@[i]));
                }
                assert forall|i: int| 0 <= i < count && op == CipherOp::Seal implies opens_to(
                    key@,
                    #[trigger] nonce_at(nonces@, i),
                    inputs[i],
                ) by {
                    assert(results@[i] == Ok::<Vec<u8>, CryptoError>(collected@[i]));
                }
                assert(output_views(collected@) =~= Seq::new(
                    inputs.len(),
                    |i: int| cipher_applied(op, key@, nonce_at(nonces@, i), inputs[i])->Ok_0,
                ));
            }
            *outputs = collected;
            STATUS_OK
        },
        Err(e) => error_code(e),
    }
}

/// Seals every chunk under the key of `password`, the chunk at index `i`
/// under the twelve bytes of `nonces` that start at `12 * i`, in one parallel
/// pass, and writes one output per chunk to `outputs`, in the order of the
/// chunks.
pub fn encrypt_data_parallel(
    chunks: &Vec<Vec<u8>>,
    password: &[u8],
    nonces: &[u8],
    outputs: &mut Vec<Vec<u8>>,
) -> (code: i32)
    ensures
        code == status_of(
            applied_to_each(
                CipherOp::Seal,
                derived_key(password@),
                nonces@,
                output_views(chunks@),
            ),
        ),
        output_views(final(outputs)@) == delivered(
            applied_to_each(
                CipherOp::Seal,
                derived_key(password@),
                nonces@,
                output_views(chunks@),
            ),
            output_views(old(outputs)@),
        ),
        code == STATUS_OK ==> forall|i: int|
            0 <= i < chunks@.len() ==> opens_to(
                derived_key(password@),
                #[trigger] nonce_at(nonces@, i),
                output_views(chunks@)[i],
            ),
{
    apply_to_each(CipherOp::Seal, chunks, password, nonces, outputs)
}

/// Opens every chunk under the key of `password`, the chunk at index `i`
/// under the twelve bytes of `nonces` that start at `12 * i`, in one parallel
/// pass, and writes one plaintext per chunk to `outputs`, in the order of the
/// chunks. Nothing is written where a chunk does not open.
pub fn decrypt_data_parallel(
    chunks: &Vec<Vec<u8>>,
    password: &[u8],
    nonces: &[u8],
    outputs: &mut Vec<Vec<u8>>,
) -> (code: i32)
    ensures
        code == status_of(
            applied_to_each(
                CipherOp::Open,
                derived_key(password@),
                nonces@,
                output_views(chunks@),
            ),
        ),
        output_views(final(outputs)@) == delivered(
            applied_to_each(
                CipherOp::Open,
                derived_key(password@),
                nonces@,
                output_views(chunks@),
            ),
            output_views(old(outputs)@),
        ),
{
    apply_to_each(CipherOp::Open, chunks, password, nonces, outputs)
}

/// Encrypts the content of a file for a device class and writes the
/// container to `output`. A hint that is absent or is not valid UTF-8 is
/// stored as an empty hint. Always succeeds.
pub fn encrypt_file(
    input: &[u8],
    password: &[u8],
    hint: Option<&[u8]>,
    is_mobile: bool,
    cpu_cores: usize,
    output: &mut Vec<u8>,
) -> (code: i32)
    ensures
        code == STATUS_OK,
        is_container_of(
            final(output)@,
            input@,
            derived_key(password@),
            accepted_hint(hint),
            chunk_size_for(is_mobile) as nat,
        ),
{
    deliver(encrypt_file_internal(input, password, accept_hint(hint), is_mobile, cpu_cores), output)
}

/// Decrypts the content of an encrypted file for a device class and writes
/// the plaintext to `output`.
pub fn decrypt_file(
    data: &[u8],
    password: &[u8],
    is_mobile: bool,
    cpu_cores: usize,
    output: &mut Vec<u8>,
) -> (code: i32)
    ensures
        code == status_of(
            decrypted(
                data@,
                derived_key(password@),
                chunk_size_for(is_mobile) as int,
                parallel_threshold_for(is_mobile) as int,
                batch_size_for(cpu_cores as nat, is_mobile) as nat,
            ),
        ),
        final(output)@ == delivered(
            decrypted(
                data@,
                derived_key(password@),
                chunk_size_for(is_mobile) as int,
                parallel_threshold_for(is_mobile) as int,
                batch_size_for(cpu_cores as nat, is_mobile) as nat,
            ),
            old(output)@,
        ),
{
    deliver(decrypt_file_internal(data, password, is_mobile, cpu_cores), output)
}

/// Decrypts the content of an encrypted file into the caller's buffer. A
/// framed body is opened in one pass whatever its size.
pub fn decrypt_file_to_memory(
    data: &[u8],
    password: &[u8],
    is_mobile: bool,
    cpu_cores: usize,
    output: &mut Vec<u8>,
) -> (code: i32)
    ensures
        code == status_of(
            decrypted_at_once(data@, derived_key(password@), chunk_size_for(is_mobile) as int),
        ),
        final(output)@ == delivered(
            decrypted_at_once(data@, derived_key(password@), chunk_size_for(is_mobile) as int),
            old(output)@,
        ),
{
    deliver(decrypt_file_to_memory_internal(data, password, is_mobile, cpu_cores), output)
}

/// Reads the hint of an encrypted file into the caller's buffer, without a
/// key and without touching the body.
pub fn get_hint_from_file(data: &[u8], hint: &mut Vec<u8>) -> (code: i32)
    ensures
        code == status_of(parsed_hint(data@)),
        final(hint)@ == delivered(parsed_hint(data@), old(hint)@),
{
    deliver(get_hint_from_file_internal(data), hint)
}

} // verus!
