//! The pipeline: chunks go to a worker pool and come back in the order in
//! which they were handed out.

use crate::bytes::append_bytes;
use crate::chunking::chunk_views;
use crate::container::{frames_bytes, lemma_frames_bytes_push, scan_frames, write_frame, FrameView};
use crate::error::CryptoError;
use crate::primitives::{
    aes256_gcm_opened, aes256_gcm_sealed, max_plaintext_len, open, opened, opens_to, seal, TAG_SIZE,
};
use crate::tuner::MAX_CHUNK_SIZE;
use rayon::iter::{IndexedParallelIterator, IntoParallelRefIterator, ParallelIterator};
use vstd::prelude::*;

verus! {

/// The two things a worker does to a chunk.
#[derive(Clone, Copy, Debug, PartialEq, Eq, Structural)]
pub enum CipherOp {
    /// Seal a plaintext chunk.
    Seal,
    /// Open a sealed chunk.
    Open,
}

/// What a worker returns for one chunk.
pub open spec fn cipher_applied(op: CipherOp, key: Seq<u8>, nonce: Seq<u8>, input: Seq<u8>)
    -> Result<Seq<u8>, CryptoError> {
    match op {
        CipherOp::Seal => if input.len() <= max_plaintext_len() {
            Ok(aes256_gcm_sealed(key, nonce, input))
        } else {
            Err(CryptoError::InternalFault)
        },
        CipherOp::Open => opened(key, nonce, input),
    }
}

/// A result with its bytes as a sequence.
pub open spec fn outcome(result: Result<Vec<u8>, CryptoError>) -> Result<Seq<u8>, CryptoError> {
    match result {
        Ok(bytes) => Ok(bytes@),
        Err(e) => Err(e),
    }
}

/// `result` is what a worker returns for `input`. A sealed chunk also opens
/// again to `input`; an opened chunk is sixteen bytes shorter than `input`.
pub open spec fn is_cipher_result(
    op: CipherOp,
    key: Seq<u8>,
    nonce: Seq<u8>,
    input: Seq<u8>,
    result: Result<Vec<u8>, CryptoError>,
) -> bool {
    &&& outcome(result) == cipher_applied(op, key, nonce, input)
    &&& result matches Ok(bytes) ==> match op {
        CipherOp::Seal => opens_to(key, nonce, input),
        CipherOp::Open => bytes@.len() + TAG_SIZE == input.len(),
    }
}

/// The work of one task: builds a cipher from the shared key and performs one
/// seal or one open.
pub fn apply_cipher(op: CipherOp, key: &[u8; 32], nonce: &[u8; 12], input: &[u8]) -> (result:
    Result<Vec<u8>, CryptoError>)
    ensures
        is_cipher_result(op, key@, nonce@, input@, result),
{
    match op {
        CipherOp::Seal => seal(key, nonce, input),
        CipherOp::Open => open(key, nonce, input),
    }
}

/// Runs `apply_cipher` on every chunk, each with the nonce at its index, on
/// `rayon`'s worker pool: `par_iter`, `zip`, `map` and `collect` into a
/// `Vec`. Trusted: the pool may run the tasks in any order, but the collected
/// vector holds one result per chunk, at the chunk's place, and each is what
/// `apply_cipher` returns for that chunk.
#[verifier::external_body]
pub(crate) fn apply_to_all(
    op: CipherOp,
    key: &[u8; 32],
    nonces: &Vec<[u8; 12]>,
    inputs: &Vec<Vec<u8>>,
) -> (results: Vec<Result<Vec<u8>, CryptoError>>)
    requires
        nonces@.len() == inputs@.len(),
    ensures
        results@.len() == inputs@.len(),
        forall|i: int|
            0 <= i < inputs@.len() ==> is_cipher_result(
                op,
                key@,
                nonces@[i]@,
                inputs@[i]@,
                #[trigger] results@[i],
            ),
{
    inputs.par_iter().zip(nonces.par_iter()).map(
        |(input, nonce)| apply_cipher(op, key, nonce, input),
    ).collect()
}

/// Gathers the results of a batch in submission order: all outputs, or the
/// error of the task with the lowest index that failed.
pub fn collect_in_order(results: Vec<Result<Vec<u8>, CryptoError>>) -> (collected: Result<
    Vec<Vec<u8>>,
    CryptoError,
>)
    ensures
        match collected {
            Ok(outputs) => outputs@.len() == results@.len() && forall|i: int|
                0 <= i < results@.len() ==> results@[i] == Ok::<Vec<u8>, CryptoError>(
                    #[trigger] outputs@[i],
                ),
            Err(e) => exists|k: int|
                0 <= k < results@.len() && #[trigger] results@[k] == Err::<Vec<u8>, CryptoError>(
                    e,
                ) && forall|j: int| 0 <= j < k ==> results@[j] is Ok,
        },
{
    let mut outputs: Vec<Vec<u8>> = Vec::new();
    let ghost all = results@;
    for result in it: results
        invariant
            it.seq() == all,
            outputs@.len() == it.index(),
            forall|i: int| 0 <= i < it.index() ==> (#[trigger] all[i]) is Ok,
            forall|i: int|
                0 <= i < it.index() ==> all[i] == Ok::<Vec<u8>, CryptoError>(
                    #[trigger] outputs@[i],
                ),
    {
        match result {
            Ok(bytes) => {
                outputs.push(bytes);
            },
            Err(e) => {
                return Err(e);
            },
        }
    }
    Ok(outputs)
}

/// The nonces of a vector, each as a sequence.
pub open spec fn nonce_views(nonces: Seq<[u8; 12]>) -> Seq<Seq<u8>> {
    nonces.map_values(|nonce: [u8; 12]| nonce@)
}

/// The frame that carries `chunk` sealed under `nonce`.
pub open spec fn sealed_frame(key: Seq<u8>, nonce: Seq<u8>, chunk: Seq<u8>) -> FrameView {
    FrameView { nonce: nonce, ciphertext: aes256_gcm_sealed(key, nonce, chunk) }
}

/// The frames that carry `chunks`, the chunk at each index sealed under the
/// nonce at that index.
pub open spec fn sealed_frames(key: Seq<u8>, nonces: Seq<Seq<u8>>, chunks: Seq<Seq<u8>>) -> Seq<
    FrameView,
> {
    Seq::new(chunks.len(), |i: int| sealed_frame(key, nonces[i], chunks[i]))
}

/// Whether `frame` opens under `key`.
pub open spec fn opens(key: Seq<u8>, frame: FrameView) -> bool {
    aes256_gcm_opened(key, frame.nonce, frame.ciphertext) is Some
}

/// The plaintext of a frame that opens under `key`.
pub open spec fn plaintext_of(key: Seq<u8>, frame: FrameView) -> Seq<u8> {
    aes256_gcm_opened(key, frame.nonce, frame.ciphertext)->0
}

/// The plaintexts of `frames` joined in the order of the frames.
pub open spec fn plaintexts(key: Seq<u8>, frames: Seq<FrameView>) -> Seq<u8> {
    frames.map_values(|frame: FrameView| plaintext_of(key, frame)).flatten()
}

/// The plaintexts of `frames`, in order, where every frame opens; `AuthFail`
/// where one does not.
pub open spec fn open_all(key: Seq<u8>, frames: Seq<FrameView>) -> Result<Seq<u8>, CryptoError> {
    if forall|i: int| 0 <= i < frames.len() ==> opens(key, #[trigger] frames[i]) {
        Ok(plaintexts(key, frames))
    } else {
        Err(CryptoError::AuthFail)
    }
}

/// The frames whose nonces and sealed bytes stand in two vectors.
pub open spec fn frames_of(nonces: Seq<[u8; 12]>, chunks: Seq<Vec<u8>>) -> Seq<FrameView> {
    Seq::new(chunks.len(), |i: int| FrameView { nonce: nonces[i]@, ciphertext: chunks[i]@ })
}

/// Seals one batch of chunks in a parallel pass, each chunk under the nonce
/// at its index, and appends the frames to `out` in the order of the chunks.
/// Refused with `InvalidArgument`, and `out` left as it was, where the two
/// vectors differ in length or a chunk is longer than `MAX_CHUNK_SIZE`.
pub fn encrypt_batch(
    key: &[u8; 32],
    chunks: &Vec<Vec<u8>>,
    nonces: &Vec<[u8; 12]>,
    out: &mut Vec<u8>,
) -> (done: Result<(), CryptoError>)
    ensures
        done is Ok <==> nonces@.len() == chunks@.len() && forall|i: int|
            0 <= i < chunks@.len() ==> (#[trigger] chunks@[i])@.len() <= MAX_CHUNK_SIZE,
        done is Ok ==> final(out)@ == old(out)@ + frames_bytes(
            sealed_frames(key@, nonce_views(nonces@), chunk_views(chunks@)),
        ),
        done is Ok ==> forall|i: int|
            0 <= i < chunks@.len() ==> opens_to(key@, nonces@[i]@, (#[trigger] chunks@[i])@),
        done matches Err(e) ==> e == CryptoError::InvalidArgument && final(out)@ == old(out)@,
{
    if nonces.len() != chunks.len() {
        return Err(CryptoError::InvalidArgument);
    }
    let mut i: usize = 0;
    while i < chunks.len()
        invariant
            i <= chunks@.len(),
            forall|j: int| 0 <= j < i ==> (#[trigger] chunks@[j])@.len() <= MAX_CHUNK_SIZE,
        decreases chunks@.len() - i,
    {
        if chunks[i].len() > MAX_CHUNK_SIZE {
            return Err(CryptoError::InvalidArgument);
        }
        i += 1;
    }
    let results = apply_to_all(CipherOp::Seal, key, nonces, chunks);
    let ghost frames = sealed_frames(key@, nonce_views(nonces@), chunk_views(chunks@));
    assert forall|i: int| 0 <= i < chunks@.len() implies opens_to(
        key@,
        nonces@[i]@,
        (#[trigger] chunks@[i])@,
    ) by {
        assert(results@[i] is Ok);
    }
    match collect_in_order(results) {
        Err(e) => Err(e),
        Ok(sealed) => {
            let mut i: usize = 0;
            while i < sealed.len()
                invariant
                    i <= sealed@.len(),
                    sealed@.len() == nonces@.len(),
                    frames.len() == sealed@.len(),
                    forall|j: int|
                        0 <= j < sealed@.len() ==> (#[trigger] sealed@[j])@ == frames[j].ciphertext
                            && nonces@[j]@ == frames[j].nonce && sealed@[j]@.len() <= u32::MAX,
                    out@ == old(out)@ + frames_bytes(frames.take(i as int)),
                decreases sealed@.len() - i,
            {
                write_frame(out, &nonces[i], sealed[i].as_slice());
                proof {
                    lemma_frames_bytes_push(frames.take(i as int), frames[i as int]);
                    assert(frames.take(i as int).push(frames[i as int]) =~= frames.take(i + 1));
                }
                i += 1;
            }
            proof {
                assert(frames.take(i as int) =~= frames);
            }
            Ok(())
        },
    }
}

/// Opens one batch of frames in a parallel pass and appends the plaintexts to
/// `out` in the order of the frames. Where a frame does not open, the batch is
/// abandoned with `AuthFail` and `out` is left as it was; so it is, with
/// `InvalidArgument`, where the two vectors differ in length.
pub fn decrypt_batch(
    key: &[u8; 32],
    nonces: &Vec<[u8; 12]>,
    chunks: &Vec<Vec<u8>>,
    out: &mut Vec<u8>,
) -> (done: Result<(), CryptoError>)
    ensures
        nonces@.len() != chunks@.len() ==> done == Err::<(), CryptoError>(
            CryptoError::InvalidArgument,
        ) && final(out)@ == old(out)@,
        nonces@.len() == chunks@.len() ==> match open_all(key@, frames_of(nonces@, chunks@)) {
            Ok(plaintext) => done is Ok && final(out)@ == old(out)@ + plaintext,
            Err(e) => done == Err::<(), CryptoError>(e) && final(out)@ == old(out)@,
        },
{
    if nonces.len() != chunks.len() {
        return Err(CryptoError::InvalidArgument);
    }
    let results = apply_to_all(CipherOp::Open, key, nonces, chunks);
    let ghost frames = frames_of(nonces@, chunks@);
    let ghost texts = frames.map_values(|frame: FrameView| plaintext_of(key@, frame));
    match collect_in_order(results) {
        Err(e) => {
            proof {
                let k = choose|k: int|
                    0 <= k < results@.len() && #[trigger] results@[k] == Err::<
                        Vec<u8>,
                        CryptoError,
                    >(e);
                assert(!opens(key@, frames[k]));
            }
            Err(e)
        },
        Ok(opened_chunks) => {
            proof {
                assert forall|i: int| 0 <= i < frames.len() implies opens(
                    key@,
                    #[trigger] frames[i],
                ) && texts[i] == opened_chunks@[i]@ by {
                    assert(results@[i] == Ok::<Vec<u8>, CryptoError>(opened_chunks@[i]));
                }
            }
            let mut i: usize = 0;
            while i < opened_chunks.len()
                invariant
                    i <= opened_chunks@.len(),
                    opened_chunks@.len() == texts.len(),
                    forall|j: int|
                        0 <= j < texts.len() ==> texts[j] == (#[trigger] opened_chunks@[j])@,
                    out@ == old(out)@ + texts.take(i as int).flatten(),
                decreases opened_chunks@.len() - i,
            {
                append_bytes(out, opened_chunks[i].as_slice());
                proof {
                    texts.take(i as int).lemma_flatten_push(texts[i as int]);
                    assert(texts.take(i as int).push(texts[i as int]) =~= texts.take(i + 1));
                }
                i += 1;
            }
            proof {
                assert(texts.take(i as int) =~= texts);
            }
            Ok(())
        },
    }
}

/// What opening a framed body gives. Where the body ends cleanly: the
/// plaintexts of its frames in order, or `AuthFail`. Where it ends within a
/// frame: `TruncatedFrame`, unless a frame of a batch that was read in full
/// before that point does not open, which is found first. With no batch limit
/// all frames are read before any is opened.
pub open spec fn opened_frames(body: Seq<u8>, key: Seq<u8>, batch: Option<nat>) -> Result<
    Seq<u8>,
    CryptoError,
> {
    let scan = scan_frames(body);
    if !scan.truncated {
        open_all(key, scan.frames)
    } else {
        match open_all(key, whole_batches(scan.frames, batch)) {
            Ok(_) => Err(CryptoError::TruncatedFrame),
            Err(e) => Err(e),
        }
    }
}

/// The frames of the batches that are complete when `frames` have been read:
/// the longest prefix whose length is a multiple of the batch size.
pub open spec fn whole_batches(frames: Seq<FrameView>, batch: Option<nat>) -> Seq<FrameView> {
    match batch {
        Some(n) => if n > 0 {
            frames.take(frames.len() - frames.len() % n)
        } else {
            Seq::empty()
        },
        None => Seq::empty(),
    }
}

/// Adding less than `n` to a multiple of `n` leaves that much as remainder.
pub proof fn lemma_remainder_after_multiple(m: int, j: int, n: int)
    requires
        n > 0,
        m >= 0,
        m % n == 0,
        0 <= j < n,
    ensures
        (m + j) % n == j,
        (m + n) % n == 0,
{
    vstd::arithmetic::div_mod::lemma_fundamental_div_mod(m, n);
    vstd::arithmetic::div_mod::lemma_mod_multiples_vanish(m / n, j, n);
    vstd::arithmetic::div_mod::lemma_small_mod(j as nat, n as nat);
    vstd::arithmetic::div_mod::lemma_mod_add_multiples_vanish(m, n);
}

/// A multiple of `n` that is at most `f` is at most the largest multiple of
/// `n` that is.
pub proof fn lemma_multiple_below(m: int, f: int, n: int)
    requires
        n > 0,
        0 <= m <= f,
        m % n == 0,
    ensures
        m <= f - f % n,
        0 <= f % n < n,
{
    vstd::arithmetic::div_mod::lemma_fundamental_div_mod(m, n);
    vstd::arithmetic::div_mod::lemma_fundamental_div_mod(f, n);
    vstd::arithmetic::div_mod::lemma_div_is_ordered(m, f, n);
    vstd::arithmetic::mul::lemma_mul_inequality(m / n, f / n, n);
    vstd::arithmetic::mul::lemma_mul_is_commutative(m / n, n);
    vstd::arithmetic::mul::lemma_mul_is_commutative(f / n, n);
    vstd::arithmetic::div_mod::lemma_mod_pos_bound(f, n);
}

/// The plaintexts of two runs of frames, one after the other.
pub proof fn lemma_plaintexts_concat(key: Seq<u8>, a: Seq<FrameView>, b: Seq<FrameView>)
    ensures
        plaintexts(key, a + b) == plaintexts(key, a) + plaintexts(key, b),
{
    let f = |frame: FrameView| plaintext_of(key, frame);
    assert((a + b).map_values(f) =~= a.map_values(f) + b.map_values(f));
    vstd::seq_lib::lemma_flatten_concat(a.map_values(f), b.map_values(f));
}

} // verus!
