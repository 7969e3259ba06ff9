//! What holds of encryption and decryption together.

use crate::bytes::lemma_u32_value_round_trip;
use crate::chunking::{chunk_count, chunks_of, lemma_chunks_of};
use crate::container::{
    frames_bytes, header_bytes, lemma_frames_bytes_first, lemma_frames_round_trip,
    lemma_header_round_trip, magic, parsed_header, parsed_hint, stored_hint, FrameView, HEADER_SIZE,
    MAGIC_SIZE, MAX_HINT_LENGTH, VERSION,
};
use crate::engine::{body_bytes, decrypted, decrypted_at_once, is_container_of, made_with};
use crate::error::CryptoError;
use crate::facade::{applied_to_each, nonce_at};
use crate::pipeline::{cipher_applied, plaintext_of, sealed_frames, CipherOp};
use crate::primitives::{aes256_gcm_sealed, derived_key, opens_to, NONCE_SIZE, TAG_SIZE};
use crate::stream::{Action, SealStream};
use crate::tuner::{
    batch_size_for, chunk_size_for, parallel_threshold_for, reads_as_single_shot,
    DESKTOP_CHUNK_SIZE, MAX_CHUNK_SIZE, MOBILE_CHUNK_SIZE,
};
use vstd::prelude::*;

verus! {

/// The key is a function of the password: the same password gives the same
/// key.
pub proof fn lemma_same_password_same_key(first: Seq<u8>, second: Seq<u8>)
    requires
        first == second,
    ensures
        derived_key(first) == derived_key(second),
{
}

/// Opening undoes sealing: what was sealed under a key and a nonce opens
/// under them to the plaintext.
pub proof fn lemma_open_inverts_seal(key: Seq<u8>, nonce: Seq<u8>, plaintext: Seq<u8>)
    requires
        opens_to(key, nonce, plaintext),
    ensures
        cipher_applied(CipherOp::Open, key, nonce, aes256_gcm_sealed(key, nonce, plaintext)) == Ok::<
            Seq<u8>,
            CryptoError,
        >(plaintext),
{
}

/// Opening every chunk undoes sealing every chunk, each under the nonce at
/// its index.
pub proof fn lemma_open_each_inverts_seal_each(
    key: Seq<u8>,
    nonces: Seq<u8>,
    chunks: Seq<Seq<u8>>,
)
    requires
        applied_to_each(CipherOp::Seal, key, nonces, chunks) is Ok,
        forall|i: int|
            0 <= i < chunks.len() ==> opens_to(key, #[trigger] nonce_at(nonces, i), chunks[i]),
    ensures
        applied_to_each(
            CipherOp::Open,
            key,
            nonces,
            applied_to_each(CipherOp::Seal, key, nonces, chunks)->Ok_0,
        ) == Ok::<Seq<Seq<u8>>, CryptoError>(chunks),
{
    let sealed = applied_to_each(CipherOp::Seal, key, nonces, chunks)->Ok_0;
    assert(Seq::new(
        sealed.len(),
        |i: int| cipher_applied(CipherOp::Open, key, nonce_at(nonces, i), sealed[i])->Ok_0,
    ) =~= chunks);
}

/// A framed body is longer than the chunks it carries by 32 bytes per frame:
/// nonce, length field and tag.
pub proof fn lemma_framed_length(key: Seq<u8>, nonces: Seq<Seq<u8>>, chunks: Seq<Seq<u8>>)
    requires
        nonces.len() == chunks.len(),
        forall|i: int| 0 <= i < nonces.len() ==> (#[trigger] nonces[i]).len() == NONCE_SIZE,
        forall|i: int| 0 <= i < nonces.len() ==> opens_to(key, #[trigger] nonces[i], chunks[i]),
    ensures
        frames_bytes(sealed_frames(key, nonces, chunks)).len() == chunks.flatten().len() + 32
            * chunks.len(),
    decreases chunks.len(),
{
    let frames = sealed_frames(key, nonces, chunks);
    if chunks.len() > 0 {
        lemma_frames_bytes_first(frames);
        assert(frames.skip(1) =~= sealed_frames(key, nonces.skip(1), chunks.skip(1)));
        lemma_framed_length(key, nonces.skip(1), chunks.skip(1));
    }
}

/// A single-shot body is 28 bytes longer than the plaintext; a framed body is
/// longer than the plaintext by 32 bytes per chunk, and has at least two
/// chunks.
pub proof fn lemma_body_length(
    file: Seq<u8>,
    plaintext: Seq<u8>,
    key: Seq<u8>,
    hint: Seq<u8>,
    chunk_size: nat,
    nonces: Seq<Seq<u8>>,
)
    requires
        chunk_size >= 1,
        made_with(file, plaintext, key, hint, chunk_size, nonces),
    ensures
        file.len() == header_bytes(hint).len() + body_bytes(plaintext, key, chunk_size, nonces).len(),
        plaintext.len() <= chunk_size ==> body_bytes(plaintext, key, chunk_size, nonces).len()
            == plaintext.len() + NONCE_SIZE + TAG_SIZE,
        plaintext.len() > chunk_size ==> body_bytes(plaintext, key, chunk_size, nonces).len()
            == plaintext.len() + 32 * nonces.len() && nonces.len() >= 2,
{
    if plaintext.len() > chunk_size {
        let chunks = chunks_of(plaintext, chunk_size);
        lemma_chunks_of(plaintext, chunk_size);
        assert forall|i: int| 0 <= i < nonces.len() implies opens_to(
            key,
            #[trigger] nonces[i],
            chunks[i],
        ) by {}
        lemma_framed_length(key, nonces, chunks);
    }
}

/// Decryption recovers the plaintext of a container, byte for byte, under the
/// key it was encrypted with, whenever the chunk size of the reading side
/// takes the body for what it is: single-shot or framed. The parallel
/// threshold and the batch size of the reading side play no part.
pub proof fn lemma_decrypt_recovers_plaintext(
    file: Seq<u8>,
    plaintext: Seq<u8>,
    key: Seq<u8>,
    hint: Seq<u8>,
    chunk_size: nat,
    reader_chunk_size: int,
    reader_threshold: int,
    reader_batch_size: nat,
)
    requires
        1 <= chunk_size <= MAX_CHUNK_SIZE,
        reader_batch_size >= 1,
        is_container_of(file, plaintext, key, hint, chunk_size),
        (plaintext.len() <= chunk_size) == reads_as_single_shot(
            file.len() - header_bytes(hint).len(),
            reader_chunk_size,
        ),
    ensures
        decrypted(file, key, reader_chunk_size, reader_threshold, reader_batch_size) == Ok::<
            Seq<u8>,
            CryptoError,
        >(plaintext),
        decrypted_at_once(file, key, reader_chunk_size) == Ok::<Seq<u8>, CryptoError>(plaintext),
{
    let nonces = choose|nonces: Seq<Seq<u8>>|
        #[trigger] made_with(file, plaintext, key, hint, chunk_size, nonces);
    let body = body_bytes(plaintext, key, chunk_size, nonces);
    lemma_header_round_trip(hint, body);
    lemma_body_length(file, plaintext, key, hint, chunk_size, nonces);
    if plaintext.len() <= chunk_size {
        let sealed = aes256_gcm_sealed(key, nonces[0], plaintext);
        assert(body.take(NONCE_SIZE as int) =~= nonces[0]);
        assert(body.skip(NONCE_SIZE as int) =~= sealed);
    } else {
        let chunks = chunks_of(plaintext, chunk_size);
        let frames = sealed_frames(key, nonces, chunks);
        lemma_chunks_of(plaintext, chunk_size);
        lemma_frames_round_trip(frames);
        assert(frames.map_values(|frame: FrameView| plaintext_of(key, frame)) =~= chunks);
    }
}

/// Decrypting what encryption made, under the same key and with the same
/// tuning, gives back the plaintext byte for byte.
pub proof fn lemma_decrypt_inverts_encrypt(
    file: Seq<u8>,
    plaintext: Seq<u8>,
    key: Seq<u8>,
    hint: Seq<u8>,
    chunk_size: nat,
    parallel_threshold: int,
    batch_size: nat,
)
    requires
        1 <= chunk_size <= MAX_CHUNK_SIZE,
        batch_size >= 1,
        is_container_of(file, plaintext, key, hint, chunk_size),
    ensures
        decrypted(file, key, chunk_size as int, parallel_threshold, batch_size) == Ok::<
            Seq<u8>,
            CryptoError,
        >(plaintext),
        decrypted_at_once(file, key, chunk_size as int) == Ok::<Seq<u8>, CryptoError>(plaintext),
{
    let nonces = choose|nonces: Seq<Seq<u8>>|
        #[trigger] made_with(file, plaintext, key, hint, chunk_size, nonces);
    lemma_body_length(file, plaintext, key, hint, chunk_size, nonces);
    lemma_decrypt_recovers_plaintext(
        file,
        plaintext,
        key,
        hint,
        chunk_size,
        chunk_size as int,
        parallel_threshold,
        batch_size,
    );
}

/// Whether the device class that reads takes the body of a plaintext of
/// `plaintext_len` bytes for the layout that the device class that wrote gave
/// it. The two classes differ only on plaintexts of more than 128 MiB and at
/// most 256 MiB: single-shot on a desktop, two frames on a mobile device. A
/// mobile device takes such a single-shot body for frames; a desktop takes
/// such frames, 64 bytes longer than the plaintext, for a single-shot body
/// unless they are too long for one.
pub open spec fn devices_agree(plaintext_len: nat, is_mobile: bool, reader_is_mobile: bool)
    -> bool {
    ||| is_mobile == reader_is_mobile
    ||| plaintext_len <= MOBILE_CHUNK_SIZE
    ||| plaintext_len > DESKTOP_CHUNK_SIZE
    ||| is_mobile && plaintext_len + 36 > DESKTOP_CHUNK_SIZE
}

/// `devices_agree` holds exactly where the reading device class takes the
/// body of a container for the layout it was written in.
pub proof fn lemma_devices_agree(
    file: Seq<u8>,
    plaintext: Seq<u8>,
    key: Seq<u8>,
    hint: Seq<u8>,
    is_mobile: bool,
    reader_is_mobile: bool,
)
    requires
        is_container_of(file, plaintext, key, hint, chunk_size_for(is_mobile) as nat),
    ensures
        devices_agree(plaintext.len(), is_mobile, reader_is_mobile) <==> ((plaintext.len()
            <= chunk_size_for(is_mobile)) == reads_as_single_shot(
            file.len() - header_bytes(hint).len(),
            chunk_size_for(reader_is_mobile) as int,
        )),
{
    let chunk_size = chunk_size_for(is_mobile) as nat;
    let nonces = choose|nonces: Seq<Seq<u8>>|
        #[trigger] made_with(file, plaintext, key, hint, chunk_size, nonces);
    lemma_body_length(file, plaintext, key, hint, chunk_size, nonces);
    let len = plaintext.len();
    if len > chunk_size {
        assert(chunk_count(len, chunk_size) == 1 + chunk_count(
            (len - chunk_size) as nat,
            chunk_size,
        ));
        if len - chunk_size > chunk_size {
            lemma_chunks_of(plaintext.skip(chunk_size as int), chunk_size);
        }
    }
}

/// A file encrypted for one device class decrypts to the same plaintext for
/// any device class and any number of cores, wherever the two classes agree
/// on the layout of its body.
pub proof fn lemma_device_flags_do_not_matter(
    file: Seq<u8>,
    plaintext: Seq<u8>,
    key: Seq<u8>,
    hint: Seq<u8>,
    is_mobile: bool,
    reader_is_mobile: bool,
    reader_cpu_cores: nat,
)
    requires
        is_container_of(file, plaintext, key, hint, chunk_size_for(is_mobile) as nat),
        devices_agree(plaintext.len(), is_mobile, reader_is_mobile),
    ensures
        decrypted(
            file,
            key,
            chunk_size_for(reader_is_mobile) as int,
            parallel_threshold_for(reader_is_mobile) as int,
            batch_size_for(reader_cpu_cores, reader_is_mobile) as nat,
        ) == Ok::<Seq<u8>, CryptoError>(plaintext),
        decrypted_at_once(file, key, chunk_size_for(reader_is_mobile) as int) == Ok::<
            Seq<u8>,
            CryptoError,
        >(plaintext),
{
    lemma_devices_agree(file, plaintext, key, hint, is_mobile, reader_is_mobile);
    lemma_decrypt_recovers_plaintext(
        file,
        plaintext,
        key,
        hint,
        chunk_size_for(is_mobile) as nat,
        chunk_size_for(reader_is_mobile) as int,
        parallel_threshold_for(reader_is_mobile) as int,
        batch_size_for(reader_cpu_cores, reader_is_mobile) as nat,
    );
}

/// Every container starts with the magic and its header parses: version 1,
/// a hint of at most 32 bytes, and the body right after it.
pub proof fn lemma_container_parses(
    file: Seq<u8>,
    plaintext: Seq<u8>,
    key: Seq<u8>,
    hint: Seq<u8>,
    chunk_size: nat,
)
    requires
        is_container_of(file, plaintext, key, hint, chunk_size),
    ensures
        file.len() >= MAGIC_SIZE,
        file.take(MAGIC_SIZE as int) == magic(),
        parsed_header(file) matches Ok(header) && header.version == VERSION && header.hint.len()
            <= MAX_HINT_LENGTH && header.header_size == HEADER_SIZE + 1 + header.hint.len(),
{
    let nonces = choose|nonces: Seq<Seq<u8>>|
        #[trigger] made_with(file, plaintext, key, hint, chunk_size, nonces);
    lemma_header_round_trip(hint, body_bytes(plaintext, key, chunk_size, nonces));
}

/// The same plaintext, key, hint, chunk size and nonces always give the same
/// container.
pub proof fn lemma_same_nonces_same_container(
    first: Seq<u8>,
    second: Seq<u8>,
    plaintext: Seq<u8>,
    key: Seq<u8>,
    hint: Seq<u8>,
    chunk_size: nat,
    nonces: Seq<Seq<u8>>,
)
    requires
        made_with(first, plaintext, key, hint, chunk_size, nonces),
        made_with(second, plaintext, key, hint, chunk_size, nonces),
    ensures
        first == second,
{
}

/// What a sealing stream has handed out when nothing is left to do is,
/// after the header, a container of the plaintext that was handed over,
/// provided the plaintext is longer than one chunk.
pub proof fn lemma_streamed_container(stream: SealStream, hint: Seq<u8>)
    requires
        stream.wf(),
        stream.next() == Action::Finish,
        stream.seen().len() > stream.chunk_size(),
    ensures
        is_container_of(
            header_bytes(hint) + stream.written(),
            stream.seen(),
            stream.key(),
            hint,
            stream.chunk_size(),
        ),
{
    stream.lemma_finished();
    assert(made_with(
        header_bytes(hint) + stream.written(),
        stream.seen(),
        stream.key(),
        hint,
        stream.chunk_size(),
        stream.nonces(),
    ));
}

/// The hint of a container is read back without a key: it is the hint that
/// was given to encryption, cut to its first 32 bytes.
pub proof fn lemma_hint_is_read_back(
    file: Seq<u8>,
    plaintext: Seq<u8>,
    key: Seq<u8>,
    hint: Seq<u8>,
    chunk_size: nat,
)
    requires
        is_container_of(file, plaintext, key, hint, chunk_size),
    ensures
        parsed_hint(file) == Ok::<Seq<u8>, CryptoError>(stored_hint(hint)),
        stored_hint(hint) == hint.take(
            if hint.len() <= MAX_HINT_LENGTH {
                hint.len() as int
            } else {
                MAX_HINT_LENGTH as int
            },
        ),
{
    let nonces = choose|nonces: Seq<Seq<u8>>|
        #[trigger] made_with(file, plaintext, key, hint, chunk_size, nonces);
    lemma_header_round_trip(hint, body_bytes(plaintext, key, chunk_size, nonces));
}

/// Changing any byte of the magic or of the version of a file whose header
/// parses makes every reading of it fail on the format, whatever the key and
/// the tuning: a changed magic is `InvalidFormat`, a changed version is
/// `UnsupportedVersion`.
pub proof fn lemma_damaged_magic_or_version(
    file: Seq<u8>,
    at: int,
    byte: u8,
    key: Seq<u8>,
    chunk_size: int,
    parallel_threshold: int,
    batch_size: nat,
)
    requires
        parsed_header(file) is Ok,
        0 <= at < HEADER_SIZE,
        byte != file[at],
    ensures
        ({
            let damaged = file.update(at, byte);
            let failure = if at < MAGIC_SIZE {
                CryptoError::InvalidFormat
            } else {
                CryptoError::UnsupportedVersion
            };
            &&& parsed_hint(damaged) == Err::<Seq<u8>, CryptoError>(failure)
            &&& decrypted(damaged, key, chunk_size, parallel_threshold, batch_size) == Err::<
                Seq<u8>,
                CryptoError,
            >(failure)
            &&& decrypted_at_once(damaged, key, chunk_size) == Err::<Seq<u8>, CryptoError>(failure)
        }),
{
    let damaged = file.update(at, byte);
    if at >= MAGIC_SIZE {
        assert(damaged.take(MAGIC_SIZE as int) =~= file.take(MAGIC_SIZE as int));
        let before = file.subrange(MAGIC_SIZE as int, HEADER_SIZE as int);
        let after = damaged.subrange(MAGIC_SIZE as int, HEADER_SIZE as int);
        lemma_u32_value_round_trip(before);
        lemma_u32_value_round_trip(after);
    }
}

/// The hint is not authenticated: changing one of its bytes changes the hint
/// that is read back and nothing else. Decryption gives what it gave before.
pub proof fn lemma_changed_hint_is_not_noticed(
    file: Seq<u8>,
    at: int,
    byte: u8,
    key: Seq<u8>,
    chunk_size: int,
    parallel_threshold: int,
    batch_size: nat,
)
    requires
        parsed_header(file) matches Ok(header) && HEADER_SIZE < at < header.header_size,
    ensures
        decrypted(file.update(at, byte), key, chunk_size, parallel_threshold, batch_size)
            == decrypted(file, key, chunk_size, parallel_threshold, batch_size),
        decrypted_at_once(file.update(at, byte), key, chunk_size) == decrypted_at_once(
            file,
            key,
            chunk_size,
        ),
        parsed_hint(file.update(at, byte)) == Ok::<Seq<u8>, CryptoError>(
            parsed_hint(file)->Ok_0.update(at - HEADER_SIZE - 1, byte),
        ),
{
    let changed = file.update(at, byte);
    let size = parsed_header(file)->Ok_0.header_size as int;
    assert(changed.take(MAGIC_SIZE as int) =~= file.take(MAGIC_SIZE as int));
    assert(changed.skip(size) =~= file.skip(size));
    assert(changed.subrange(HEADER_SIZE + 1, size) =~= file.subrange(
        HEADER_SIZE + 1,
        size,
    ).update(at - HEADER_SIZE - 1, byte));
}

} // verus!
