//! Device-class tuning: chunk size, the size above which the body is
//! processed batch by batch, and the number of chunks per batch.

use crate::error::CryptoError;
use vstd::prelude::*;

verus! {

/// Chunk size on a mobile device: 128 MiB.
pub const MOBILE_CHUNK_SIZE: usize = 134217728;

/// Chunk size on a desktop device: 256 MiB.
pub const DESKTOP_CHUNK_SIZE: usize = 268435456;

/// Streaming threshold on a mobile device: 512 MiB.
pub const MOBILE_PARALLEL_THRESHOLD: usize = 536870912;

/// Streaming threshold on a desktop device: 1 GiB.
pub const DESKTOP_PARALLEL_THRESHOLD: usize = 1073741824;

/// Largest chunk size a frame can carry: the sealed chunk, sixteen bytes
/// longer, must fit the frame's length field and an allocation.
pub const MAX_CHUNK_SIZE: usize = 0x7fff_ffef;

/// `x` limited to the range from `lo` to `hi`.
pub open spec fn clamped(x: int, lo: int, hi: int) -> int {
    if x < lo {
        lo
    } else if x > hi {
        hi
    } else {
        x
    }
}

/// Chunk size of a device class.
pub open spec fn chunk_size_for(is_mobile: bool) -> usize {
    if is_mobile {
        MOBILE_CHUNK_SIZE
    } else {
        DESKTOP_CHUNK_SIZE
    }
}

/// Streaming threshold of a device class.
pub open spec fn parallel_threshold_for(is_mobile: bool) -> usize {
    if is_mobile {
        MOBILE_PARALLEL_THRESHOLD
    } else {
        DESKTOP_PARALLEL_THRESHOLD
    }
}

/// Chunks per batch: half the cores on a mobile device, limited to 2..=8;
/// three quarters of the cores on a desktop, limited to 4..=16. The quotient
/// is rounded to the nearest integer, a tie upwards.
pub open spec fn batch_size_for(cpu_cores: nat, is_mobile: bool) -> int {
    if is_mobile {
        clamped((cpu_cores + 1) as int / 2, 2, 8)
    } else {
        clamped((3 * cpu_cores + 2) as int / 4, 4, 16)
    }
}

/// Chunk size of a device class: 128 MiB on mobile, 256 MiB on desktop.
pub fn get_chunk_size(is_mobile: bool) -> (size: usize)
    ensures
        size == chunk_size_for(is_mobile),
{
    if is_mobile {
        MOBILE_CHUNK_SIZE
    } else {
        DESKTOP_CHUNK_SIZE
    }
}

/// Size above which a body is processed batch by batch: 512 MiB on mobile,
/// 1 GiB on desktop.
pub fn get_parallel_batch_threshold(is_mobile: bool) -> (size: usize)
    ensures
        size == parallel_threshold_for(is_mobile),
{
    if is_mobile {
        MOBILE_PARALLEL_THRESHOLD
    } else {
        DESKTOP_PARALLEL_THRESHOLD
    }
}

/// Number of chunks handed to the worker pool at a time.
pub fn get_parallel_batch_size(cpu_cores: usize, is_mobile: bool) -> (size: usize)
    ensures
        size == batch_size_for(cpu_cores as nat, is_mobile),
{
    if is_mobile {
        if cpu_cores >= 16 {
            8
        } else {
            let half: usize = (cpu_cores + 1) / 2;
            if half < 2 {
                2
            } else {
                half
            }
        }
    } else {
        if cpu_cores >= 22 {
            16
        } else {
            let part: usize = (3 * cpu_cores + 2) / 4;
            if part < 4 {
                4
            } else {
                part
            }
        }
    }
}

/// The three ways a body is processed.
#[derive(Clone, Copy, Debug, PartialEq, Eq, Structural)]
pub enum Mode {
    /// The whole payload is sealed under one nonce; the body has no frames.
    SingleShot,
    /// The body is framed and all frames are processed in one parallel pass.
    InMemoryParallel,
    /// The body is framed and processed batch by batch.
    StreamingBatched,
}

/// The mode in which a plaintext of `plaintext_size` bytes is encrypted.
pub open spec fn encrypt_mode_for(plaintext_size: int, chunk_size: int, parallel_threshold: int)
    -> Mode {
    if plaintext_size <= chunk_size {
        Mode::SingleShot
    } else if plaintext_size <= parallel_threshold {
        Mode::InMemoryParallel
    } else {
        Mode::StreamingBatched
    }
}

/// Whether a body of `body_size` bytes is read as a single-shot body: what
/// follows its nonce is no longer than one sealed chunk.
pub open spec fn reads_as_single_shot(body_size: int, chunk_size: int) -> bool {
    body_size - 12 <= chunk_size + 16
}

/// The mode in which a body of `body_size` bytes, at least the twelve of a
/// nonce, is decrypted.
pub open spec fn decrypt_mode_for(body_size: int, chunk_size: int, parallel_threshold: int)
    -> Mode {
    if reads_as_single_shot(body_size, chunk_size) {
        Mode::SingleShot
    } else if body_size <= parallel_threshold {
        Mode::InMemoryParallel
    } else {
        Mode::StreamingBatched
    }
}

/// The tuning of one operation: fixed when the operation starts and not
/// computed again while it runs.
#[derive(Clone, Copy, Debug)]
pub struct Tuning {
    chunk_size: usize,
    parallel_threshold: usize,
    batch_size: usize,
}

impl Tuning {
    /// Every tuning has a chunk size from 1 to `MAX_CHUNK_SIZE` and at least
    /// one chunk per batch.
    #[verifier::type_invariant]
    pub closed spec fn wf(self) -> bool {
        &&& 1 <= self.chunk_size <= MAX_CHUNK_SIZE
        &&& 1 <= self.batch_size
    }

    /// Largest number of plaintext bytes in a chunk.
    pub closed spec fn spec_chunk_size(self) -> usize {
        self.chunk_size
    }

    /// Body size above which processing goes batch by batch.
    pub closed spec fn spec_parallel_threshold(self) -> usize {
        self.parallel_threshold
    }

    /// Number of chunks in a batch.
    pub closed spec fn spec_batch_size(self) -> usize {
        self.batch_size
    }

    /// What the type guarantees of every tuning.
    pub open spec fn valid(self) -> bool {
        &&& 1 <= self.spec_chunk_size() <= MAX_CHUNK_SIZE
        &&& 1 <= self.spec_batch_size()
    }

    /// A tuning with the given parameters, or nothing where the chunk size is
    /// outside 1..=`MAX_CHUNK_SIZE` or the batch size is zero.
    pub fn new(chunk_size: usize, parallel_threshold: usize, batch_size: usize) -> (tuning:
        Option<Tuning>)
        ensures
            tuning is Some <==> 1 <= chunk_size <= MAX_CHUNK_SIZE && 1 <= batch_size,
            tuning matches Some(t) ==> t.spec_chunk_size() == chunk_size
                && t.spec_parallel_threshold() == parallel_threshold && t.spec_batch_size()
                == batch_size && t.valid(),
    {
        if chunk_size < 1 || chunk_size > MAX_CHUNK_SIZE || batch_size < 1 {
            None
        } else {
            Some(Tuning { chunk_size, parallel_threshold, batch_size })
        }
    }

    /// The tuning of a device class with `cpu_cores` cores.
    pub fn for_device(is_mobile: bool, cpu_cores: usize) -> (tuning: Tuning)
        ensures
            tuning.spec_chunk_size() == chunk_size_for(is_mobile),
            tuning.spec_parallel_threshold() == parallel_threshold_for(is_mobile),
            tuning.spec_batch_size() == batch_size_for(cpu_cores as nat, is_mobile),
            tuning.valid(),
    {
        Tuning {
            chunk_size: get_chunk_size(is_mobile),
            parallel_threshold: get_parallel_batch_threshold(is_mobile),
            batch_size: get_parallel_batch_size(cpu_cores, is_mobile),
        }
    }

    /// Largest number of plaintext bytes in a chunk.
    #[verifier::when_used_as_spec(spec_chunk_size)]
    pub fn chunk_size(self) -> (size: usize)
        ensures
            size == self.spec_chunk_size(),
            1 <= size <= MAX_CHUNK_SIZE,
    {
        proof {
            use_type_invariant(&self);
        }
        self.chunk_size
    }

    /// Body size above which processing goes batch by batch.
    #[verifier::when_used_as_spec(spec_parallel_threshold)]
    pub fn parallel_threshold(self) -> (size: usize)
        ensures
            size == self.spec_parallel_threshold(),
    {
        self.parallel_threshold
    }

    /// Number of chunks in a batch.
    #[verifier::when_used_as_spec(spec_batch_size)]
    pub fn batch_size(self) -> (size: usize)
        ensures
            size == self.spec_batch_size(),
            1 <= size,
    {
        proof {
            use_type_invariant(&self);
        }
        self.batch_size
    }

    /// Chooses the mode in which a plaintext of `plaintext_size` bytes is
    /// encrypted. The size is that of a file, which need not fit in memory.
    pub fn select_encrypt_mode(self, plaintext_size: u64) -> (mode: Mode)
        ensures
            mode == encrypt_mode_for(
                plaintext_size as int,
                self.spec_chunk_size() as int,
                self.spec_parallel_threshold() as int,
            ),
    {
        if plaintext_size <= self.chunk_size as u64 {
            Mode::SingleShot
        } else if plaintext_size <= self.parallel_threshold as u64 {
            Mode::InMemoryParallel
        } else {
            Mode::StreamingBatched
        }
    }

    /// Chooses the mode in which a body of `body_size` bytes is decrypted. A
    /// body too short to hold a nonce is an `IoError`.
    pub fn select_decrypt_mode(self, body_size: u64) -> (mode: Result<Mode, CryptoError>)
        ensures
            body_size < 12 <==> mode is Err,
            mode matches Err(e) ==> e == CryptoError::IoError,
            mode matches Ok(m) ==> m == decrypt_mode_for(
                body_size as int,
                self.spec_chunk_size() as int,
                self.spec_parallel_threshold() as int,
            ),
    {
        proof {
            use_type_invariant(&self);
        }
        if body_size < 12 {
            Err(CryptoError::IoError)
        } else if body_size - 12 <= self.chunk_size as u64 + 16 {
            Ok(Mode::SingleShot)
        } else if body_size <= self.parallel_threshold as u64 {
            Ok(Mode::InMemoryParallel)
        } else {
            Ok(Mode::StreamingBatched)
        }
    }
}

} // verus!
