//! Whole containers: the choice between the single-shot and the chunked body,
//! and encryption and decryption of a file held in memory.

use crate::bytes::{append_bytes, copy_range};
use crate::chunking::{chunk_count, chunks_of, lemma_chunk_count_grows};
use crate::container::{
    first_frame, frames_bytes, header_bytes, holds_frame, parsed_header, read_header, read_nonce,
    scan_frames, write_header, FRAME_PREFIX_SIZE,
};
use crate::error::CryptoError;
use crate::pipeline::{nonce_views, opened_frames, outcome, sealed_frames};
use crate::primitives::{
    aes256_gcm_sealed, derive_key, derived_key, generate_nonces, open, opened, opens_to, seal,
    NONCE_SIZE,
};
use crate::stream::{Action, OpenStream, SealStream};
use crate::tuner::{
    batch_size_for, chunk_size_for, decrypt_mode_for, parallel_threshold_for, reads_as_single_shot,
    Mode, Tuning, MAX_CHUNK_SIZE,
};
use vstd::prelude::*;
use vstd::string::StringSliceAdditionalSpecFns;

verus! {

/// What is sealed under one nonce each: the whole plaintext where it fits one
/// chunk, else its chunks.
pub open spec fn pieces_of(plaintext: Seq<u8>, chunk_size: nat) -> Seq<Seq<u8>> {
    if plaintext.len() <= chunk_size {
        seq![plaintext]
    } else {
        chunks_of(plaintext, chunk_size)
    }
}

/// Number of nonces that encrypting a plaintext of `len` bytes takes.
pub open spec fn nonces_needed(len: nat, chunk_size: nat) -> nat {
    if len <= chunk_size {
        1
    } else {
        chunk_count(len, chunk_size)
    }
}

/// The body of a container. A plaintext of at most `chunk_size` bytes gives a
/// single-shot body, a nonce followed by the sealed plaintext; a longer one
/// gives one frame per chunk.
pub open spec fn body_bytes(
    plaintext: Seq<u8>,
    key: Seq<u8>,
    chunk_size: nat,
    nonces: Seq<Seq<u8>>,
) -> Seq<u8> {
    if plaintext.len() <= chunk_size {
        nonces[0] + aes256_gcm_sealed(key, nonces[0], plaintext)
    } else {
        frames_bytes(sealed_frames(key, nonces, chunks_of(plaintext, chunk_size)))
    }
}

/// The container of a plaintext: header, then body.
pub open spec fn container_bytes(
    plaintext: Seq<u8>,
    key: Seq<u8>,
    hint: Seq<u8>,
    chunk_size: nat,
    nonces: Seq<Seq<u8>>,
) -> Seq<u8> {
    header_bytes(hint) + body_bytes(plaintext, key, chunk_size, nonces)
}

/// `file` is the container that encryption makes of `plaintext` with the
/// given nonces, and the cipher gives back every piece that it sealed.
pub open spec fn made_with(
    file: Seq<u8>,
    plaintext: Seq<u8>,
    key: Seq<u8>,
    hint: Seq<u8>,
    chunk_size: nat,
    nonces: Seq<Seq<u8>>,
) -> bool {
    &&& nonces.len() == nonces_needed(plaintext.len(), chunk_size)
    &&& forall|i: int| 0 <= i < nonces.len() ==> (#[trigger] nonces[i]).len() == NONCE_SIZE
    &&& forall|i: int|
        0 <= i < nonces.len() ==> opens_to(
            key,
            #[trigger] nonces[i],
            pieces_of(plaintext, chunk_size)[i],
        )
    &&& file == container_bytes(plaintext, key, hint, chunk_size, nonces)
}

/// `file` is a container that encryption can make of `plaintext`, whatever
/// nonces were drawn for it.
pub open spec fn is_container_of(
    file: Seq<u8>,
    plaintext: Seq<u8>,
    key: Seq<u8>,
    hint: Seq<u8>,
    chunk_size: nat,
) -> bool {
    exists|nonces: Seq<Seq<u8>>| #[trigger] made_with(file, plaintext, key, hint, chunk_size, nonces)
}

/// What decrypting a body in a given mode gives.
pub open spec fn decrypted_body(body: Seq<u8>, key: Seq<u8>, mode: Mode, batch_size: nat)
    -> Result<Seq<u8>, CryptoError> {
    match mode {
        Mode::SingleShot => opened(key, body.take(NONCE_SIZE as int), body.skip(NONCE_SIZE as int)),
        Mode::InMemoryParallel => opened_frames(body, key, None),
        Mode::StreamingBatched => opened_frames(body, key, Some(batch_size)),
    }
}

/// What decrypting a container gives: the header is parsed, the mode is
/// inferred from the size of the body, and the body is decrypted in that
/// mode. A body too short to hold a nonce is an `IoError`.
pub open spec fn decrypted(
    data: Seq<u8>,
    key: Seq<u8>,
    chunk_size: int,
    parallel_threshold: int,
    batch_size: nat,
) -> Result<Seq<u8>, CryptoError> {
    match parsed_header(data) {
        Err(e) => Err(e),
        Ok(header) => {
            let body = data.skip(header.header_size as int);
            if body.len() < NONCE_SIZE {
                Err(CryptoError::IoError)
            } else {
                decrypted_body(
                    body,
                    key,
                    decrypt_mode_for(body.len() as int, chunk_size, parallel_threshold),
                    batch_size,
                )
            }
        },
    }
}

/// What decrypting a container into memory gives: as `decrypted`, but a
/// framed body is always processed in one pass.
pub open spec fn decrypted_at_once(data: Seq<u8>, key: Seq<u8>, chunk_size: int) -> Result<
    Seq<u8>,
    CryptoError,
> {
    match parsed_header(data) {
        Err(e) => Err(e),
        Ok(header) => {
            let body = data.skip(header.header_size as int);
            if body.len() < NONCE_SIZE {
                Err(CryptoError::IoError)
            } else if reads_as_single_shot(body.len() as int, chunk_size) {
                decrypted_body(body, key, Mode::SingleShot, 0)
            } else {
                decrypted_body(body, key, Mode::InMemoryParallel, 0)
            }
        },
    }
}

/// Number of nonces that encrypting a plaintext of `plaintext_len` bytes
/// takes: one for a single-shot body, else one per chunk.
pub fn nonce_count(plaintext_len: usize, tuning: Tuning) -> (count: usize)
    ensures
        count == nonces_needed(plaintext_len as nat, tuning.spec_chunk_size() as nat),
        count >= 1,
{
    let chunk_size = tuning.chunk_size();
    let mut left: usize = plaintext_len;
    let mut count: usize = 1;
    while left > chunk_size
        invariant
            chunk_size >= 1,
            count >= 1,
            count + left <= plaintext_len + 1,
            nonces_needed(plaintext_len as nat, chunk_size as nat) == count - 1 + nonces_needed(
                left as nat,
                chunk_size as nat,
            ),
        decreases left,
    {
        proof {
            let rest = (left - chunk_size) as nat;
            assert(chunk_count(left as nat, chunk_size as nat) == 1 + chunk_count(
                rest,
                chunk_size as nat,
            ));
        }
        left = left - chunk_size;
        count = count + 1;
    }
    count
}

/// The bytes of a hint that may be absent.
pub open spec fn hint_bytes(hint: Option<&str>) -> Seq<u8> {
    match hint {
        Some(text) => text.spec_bytes(),
        None => Seq::empty(),
    }
}

/// A copy of the nonces from `from` up to `to`.
fn copy_nonces(nonces: &Vec<[u8; 12]>, from: usize, to: usize) -> (copy: Vec<[u8; 12]>)
    requires
        from <= to <= nonces@.len(),
    ensures
        copy@ == nonces@.subrange(from as int, to as int),
{
    let mut copy: Vec<[u8; 12]> = Vec::new();
    let mut i: usize = from;
    while i < to
        invariant
            from <= i <= to,
            to <= nonces@.len(),
            copy@ == nonces@.subrange(from as int, i as int),
        decreases to - i,
    {
        copy.push(nonces[i]);
        i += 1;
    }
    copy
}

/// Seals a plaintext into frames and appends them to `out`: chunks are cut
/// from the plaintext and gathered into batches; each batch is sealed in one
/// parallel pass before the next is cut.
fn seal_frames(
    plaintext: &[u8],
    key: &[u8; 32],
    chunk_size: usize,
    batch_size: usize,
    nonces: &Vec<[u8; 12]>,
    out: &mut Vec<u8>,
) -> (done: Result<(), CryptoError>)
    requires
        1 <= chunk_size <= MAX_CHUNK_SIZE,
        batch_size >= 1,
        nonces@.len() == chunk_count(plaintext@.len(), chunk_size as nat),
    ensures
        done is Ok,
        final(out)@ == old(out)@ + frames_bytes(
            sealed_frames(
                key@,
                nonce_views(nonces@),
                chunks_of(plaintext@, chunk_size as nat),
            ),
        ),
        forall|i: int|
            0 <= i < nonces@.len() ==> opens_to(
                key@,
                #[trigger] nonce_views(nonces@)[i],
                chunks_of(plaintext@, chunk_size as nat)[i],
            ),
{
    let mut stream = SealStream::with_sizes(*key, chunk_size, batch_size);
    let mut pos: usize = 0;
    let mut used: usize = 0;
    let ghost nv = nonce_views(nonces@);
    proof {
        assert(nonces@.len() == nonces.len());
    }
    loop
        invariant
            stream.wf(),
            stream.key() == key@,
            stream.chunk_size() == chunk_size,
            stream.batch_size() == batch_size,
            nv == nonce_views(nonces@),
            nonces@.len() == chunk_count(plaintext@.len(), chunk_size as nat),
            pos <= plaintext@.len(),
            stream.seen() == plaintext@.take(pos as int),
            stream.ended() ==> pos == plaintext@.len(),
            used <= nonces@.len(),
            nonces@.len() <= usize::MAX,
            stream.nonces() == nv.take(used as int),
            out@ == old(out)@ + stream.written(),
        decreases plaintext@.len() - pos, stream.rank(),
    {
        match stream.next_action() {
            Action::Finish => {
                proof {
                    stream.lemma_finished();
                    stream.lemma_chunk_total();
                    assert(plaintext@.take(pos as int) =~= plaintext@);
                    assert(nv.take(used as int) =~= nv);
                }
                return Ok(());
            },
            Action::Flush => {
                let count = stream.pending_chunks();
                proof {
                    stream.lemma_chunk_total();
                    lemma_chunk_count_grows(pos as nat, plaintext@.len(), chunk_size as nat);
                }
                let batch_nonces = copy_nonces(nonces, used, used + count);
                let ghost before = out@;
                match stream.flush(&batch_nonces, out) {
                    Ok(()) => {
                        proof {
                            assert(out@ =~= before + out@.skip(before.len() as int));
                        }
                        used = used + count;
                    },
                    Err(e) => {
                        return Err(e);
                    },
                }
            },
            Action::Read(n) => {
                let left: usize = plaintext.len() - pos;
                let take: usize = if left < n {
                    left
                } else {
                    n
                };
                let bytes = copy_range(plaintext, pos, pos + take);
                stream.on_bytes(bytes);
                pos = pos + take;
            },
        }
    }
}

/// Encrypts `plaintext` into a container with the nonces given: the header
/// for `hint`, then a single-shot body where the plaintext is no longer than
/// one chunk, else one frame per chunk, sealed batch by batch where the
/// plaintext is larger than the parallel threshold and in one pass where it is
/// not. The same arguments always give the same bytes. Refused with
/// `InvalidArgument` where the number of nonces is not the one the plaintext
/// takes.
pub fn encrypt_container(
    plaintext: &[u8],
    key: &[u8; 32],
    hint: &[u8],
    tuning: Tuning,
    nonces: &Vec<[u8; 12]>,
) -> (file: Result<Vec<u8>, CryptoError>)
    ensures
        file is Ok <==> nonces@.len() == nonces_needed(
            plaintext@.len(),
            tuning.spec_chunk_size() as nat,
        ),
        file matches Ok(bytes) ==> made_with(
            bytes@,
            plaintext@,
            key@,
            hint@,
            tuning.spec_chunk_size() as nat,
            nonce_views(nonces@),
        ),
        file matches Err(e) ==> e == CryptoError::InvalidArgument,
{
    let chunk_size = tuning.chunk_size();
    if nonces.len() != nonce_count(plaintext.len(), tuning) {
        return Err(CryptoError::InvalidArgument);
    }
    let ghost nv = nonce_views(nonces@);
    let ghost cs = chunk_size as nat;
    let mut out = write_header(hint);
    match tuning.select_encrypt_mode(plaintext.len() as u64) {
        Mode::SingleShot => {
            append_bytes(&mut out, nonces[0].as_slice());
            match seal(key, &nonces[0], plaintext) {
                Ok(sealed) => {
                    append_bytes(&mut out, sealed.as_slice());
                    proof {
                        assert(out@ =~= container_bytes(plaintext@, key@, hint@, cs, nv));
                    }
                },
                Err(e) => {
                    return Err(e);
                },
            }
        },
        mode => {
            let batch_size: usize = match mode {
                Mode::StreamingBatched => tuning.batch_size(),
                _ => usize::MAX,
            };
            match seal_frames(plaintext, key, chunk_size, batch_size, nonces, &mut out) {
                Ok(()) => {},
                Err(e) => {
                    return Err(e);
                },
            }
        },
    }
    Ok(out)
}

/// Decrypts a container under `key`. The header is parsed, the mode is
/// inferred from the size of the body, and the body is decrypted in that
/// mode: a single-shot body is opened whole; a framed body is opened in one
/// pass, or batch by batch where it is larger than the parallel threshold.
pub fn decrypt_container(data: &[u8], key: &[u8; 32], tuning: Tuning) -> (plaintext: Result<
    Vec<u8>,
    CryptoError,
>)
    ensures
        outcome(plaintext) == decrypted(
            data@,
            key@,
            tuning.spec_chunk_size() as int,
            tuning.spec_parallel_threshold() as int,
            tuning.spec_batch_size() as nat,
        ),
{
    let header = match read_header(data) {
        Ok(header) => header,
        Err(e) => {
            return Err(e);
        },
    };
    let body = vstd::slice::slice_subrange(data, header.header_size, data.len());
    match tuning.select_decrypt_mode(body.len() as u64) {
        Err(e) => Err(e),
        Ok(Mode::SingleShot) => open_single_shot(body, key),
        Ok(Mode::InMemoryParallel) => open_frames_at_once(body, key),
        Ok(Mode::StreamingBatched) => open_frames_batched(body, key, tuning.batch_size()),
    }
}

/// Decrypts a container under `key` for a caller that wants the plaintext in
/// memory: as `decrypt_container`, but a framed body is opened in one pass
/// whatever its size.
pub fn decrypt_container_at_once(data: &[u8], key: &[u8; 32], tuning: Tuning) -> (plaintext:
    Result<Vec<u8>, CryptoError>)
    ensures
        outcome(plaintext) == decrypted_at_once(data@, key@, tuning.spec_chunk_size() as int),
{
    let header = match read_header(data) {
        Ok(header) => header,
        Err(e) => {
            return Err(e);
        },
    };
    let body = vstd::slice::slice_subrange(data, header.header_size, data.len());
    match tuning.select_decrypt_mode(body.len() as u64) {
        Err(e) => Err(e),
        Ok(Mode::SingleShot) => open_single_shot(body, key),
        Ok(_) => open_frames_at_once(body, key),
    }
}

/// Opens a framed body batch by batch: the frames of a batch are read, opened
/// in one parallel pass and their plaintexts appended, before the next batch
/// is read.
fn open_frames_batched(body: &[u8], key: &[u8; 32], batch_size: usize) -> (plaintext:
    Result<Vec<u8>, CryptoError>)
    requires
        batch_size >= 1,
    ensures
        outcome(plaintext) == opened_frames(body@, key@, Some(batch_size as nat)),
{
    let mut stream = OpenStream::with_batch_size(*key, batch_size);
    let mut out: Vec<u8> = Vec::new();
    let mut pos: usize = 0;
    loop
        invariant
            stream.wf(),
            stream.key() == key@,
            stream.batch_size() == batch_size,
            pos <= body@.len(),
            stream.seen() == body@.take(pos as int),
            stream.ended() ==> pos == body@.len(),
            out@ == stream.written(),
        decreases body@.len() - pos, stream.rank(),
    {
        match stream.next_action() {
            Action::Finish => {
                proof {
                    stream.lemma_finished();
                    assert(body@.take(pos as int) =~= body@);
                }
                return Ok(out);
            },
            Action::Flush => {
                match stream.flush(&mut out) {
                    Ok(()) => {},
                    Err(e) => {
                        assert(body@.take(pos as int) + body@.skip(pos as int) =~= body@);
                        return Err(e);
                    },
                }
            },
            Action::Read(n) => {
                let left: usize = body.len() - pos;
                let take: usize = if left < n {
                    left
                } else {
                    n
                };
                let bytes = copy_range(body, pos, pos + take);
                proof {
                    assert(body@.take(pos as int) + bytes@ =~= body@.take(pos + take));
                }
                match stream.on_bytes(bytes) {
                    Ok(()) => {},
                    Err(e) => {
                        proof {
                            assert(body@.take(pos + take) =~= body@);
                        }
                        return Err(e);
                    },
                }
                pos = pos + take;
            },
        }
    }
}

/// Opens a framed body in one pass: all frames are read into one batch, then
/// opened in parallel.
fn open_frames_at_once(body: &[u8], key: &[u8; 32]) -> (plaintext: Result<Vec<u8>, CryptoError>)
    ensures
        outcome(plaintext) == opened_frames(body@, key@, None),
{
    proof {
        assert(body@.len() == body.len());
        lemma_batch_without_limit(body@, key@, usize::MAX as nat);
    }
    open_frames_batched(body, key, usize::MAX)
}

/// Opens a single-shot body: a nonce, then the sealed payload up to the end.
fn open_single_shot(body: &[u8], key: &[u8; 32]) -> (plaintext: Result<Vec<u8>, CryptoError>)
    requires
        body@.len() >= NONCE_SIZE,
    ensures
        outcome(plaintext) == decrypted_body(body@, key@, Mode::SingleShot, 0),
{
    let nonce = read_nonce(body, 0);
    let sealed = vstd::slice::slice_subrange(body, NONCE_SIZE, body.len());
    open(key, &nonce, sealed)
}

/// Encrypts the content of a file for a device class: derives the key from
/// the password, draws one fresh nonce per sealed piece, and builds the
/// container. Only the first 32 bytes of the hint are kept. Never fails.
pub fn encrypt_file_internal(
    input: &[u8],
    password: &[u8],
    hint: Option<&str>,
    is_mobile: bool,
    cpu_cores: usize,
) -> (file: Result<Vec<u8>, CryptoError>)
    ensures
        file is Ok,
        file matches Ok(bytes) ==> is_container_of(
            bytes@,
            input@,
            derived_key(password@),
            hint_bytes(hint),
            chunk_size_for(is_mobile) as nat,
        ),
{
    let tuning = Tuning::for_device(is_mobile, cpu_cores);
    let key = derive_key(password);
    let nonces = generate_nonces(nonce_count(input.len(), tuning));
    let no_hint: Vec<u8> = Vec::new();
    let hint_slice: &[u8] = match hint {
        Some(text) => text.as_bytes(),
        None => no_hint.as_slice(),
    };
    encrypt_container(input, &key, hint_slice, tuning, &nonces)
}

/// Decrypts the content of an encrypted file for a device class: derives the
/// key from the password and decrypts the container in the mode that the size
/// of its body selects.
pub fn decrypt_file_internal(
    data: &[u8],
    password: &[u8],
    is_mobile: bool,
    cpu_cores: usize,
) -> (plaintext: Result<Vec<u8>, CryptoError>)
    ensures
        outcome(plaintext) == decrypted(
            data@,
            derived_key(password@),
            chunk_size_for(is_mobile) as int,
            parallel_threshold_for(is_mobile) as int,
            batch_size_for(cpu_cores as nat, is_mobile) as nat,
        ),
{
    let tuning = Tuning::for_device(is_mobile, cpu_cores);
    let key = derive_key(password);
    decrypt_container(data, &key, tuning)
}

/// Decrypts the content of an encrypted file into memory: as
/// `decrypt_file_internal`, but a framed body is opened in one pass whatever
/// its size. The number of cores plays no part.
pub fn decrypt_file_to_memory_internal(
    data: &[u8],
    password: &[u8],
    is_mobile: bool,
    cpu_cores: usize,
) -> (plaintext: Result<Vec<u8>, CryptoError>)
    ensures
        outcome(plaintext) == decrypted_at_once(
            data@,
            derived_key(password@),
            chunk_size_for(is_mobile) as int,
        ),
{
    let tuning = Tuning::for_device(is_mobile, cpu_cores);
    let key = derive_key(password);
    decrypt_container_at_once(data, &key, tuning)
}

/// A body has at most one frame per sixteen bytes.
pub proof fn lemma_frame_count(body: Seq<u8>)
    ensures
        FRAME_PREFIX_SIZE * scan_frames(body).frames.len() <= body.len(),
    decreases body.len(),
{
    if body.len() >= NONCE_SIZE && holds_frame(body) {
        lemma_frame_count(body.skip(first_frame(body).size()));
    }
}

/// A batch size that a body has too few bytes to fill is no limit: all
/// frames are read before any is opened.
pub proof fn lemma_batch_without_limit(body: Seq<u8>, key: Seq<u8>, batch_size: nat)
    requires
        FRAME_PREFIX_SIZE * batch_size > body.len(),
    ensures
        opened_frames(body, key, Some(batch_size)) == opened_frames(body, key, None),
{
    let frames = scan_frames(body).frames;
    lemma_frame_count(body);
    vstd::arithmetic::div_mod::lemma_small_mod(frames.len(), batch_size);
}

} // verus!
