//! Framed bodies as streams. A stream decides; its driver reads and writes.
//!
//! The driver asks a stream what to do next, does it, and reports back: it
//! reads the bytes asked for and hands them over, or lets the stream process
//! the batch it has gathered and writes what comes out. The stream never
//! holds more than one batch.

use crate::bytes::lemma_u32_value_round_trip;
use crate::chunking::{chunk_count, chunk_views, chunks_of, lemma_chunks_of, lemma_chunks_push};
use crate::container::{
    begin_frame, finish_frame, frame_bytes, frame_len_field, frames_bytes, holds_frame,
    lemma_frames_bytes_concat, lemma_frames_bytes_push, lemma_scan_after_frames, scan_frames,
    FrameStart, FrameView, FRAME_PREFIX_SIZE,
};
use crate::error::CryptoError;
use crate::pipeline::{
    decrypt_batch, encrypt_batch, frames_of, lemma_multiple_below, lemma_plaintexts_concat,
    lemma_remainder_after_multiple, nonce_views, opened_frames, opens, plaintexts, sealed_frames,
    whole_batches,
};
use crate::primitives::{opens_to, NONCE_SIZE};
use crate::tuner::{Tuning, MAX_CHUNK_SIZE};
use vstd::prelude::*;

verus! {

/// What the driver of a stream does next.
#[derive(Clone, Copy, Debug, PartialEq, Eq, Structural)]
pub enum Action {
    /// Read this many bytes from the input, or all that is left of it where
    /// that is less, and hand them to `on_bytes`.
    Read(usize),
    /// Call `flush` and write what it appends to the output.
    Flush,
    /// Nothing is left to do.
    Finish,
}

/// The decryption of a framed body that arrives piece by piece.
pub struct OpenStream {
    key: [u8; 32],
    batch_size: usize,
    /// The nonces of the frames of the batch being gathered.
    nonces: Vec<[u8; 12]>,
    /// The sealed bytes of the frames of the batch being gathered.
    chunks: Vec<Vec<u8>>,
    /// The nonce and the length of a frame whose sealed bytes are awaited.
    pending: Option<([u8; 12], usize)>,
    /// Whether the input has ended.
    ended: bool,
    /// All bytes handed over so far.
    seen: Ghost<Seq<u8>>,
    /// The bytes handed over after the last whole frame.
    tail: Ghost<Seq<u8>>,
    /// The frames of the batches that were opened.
    flushed: Ghost<Seq<FrameView>>,
}

impl OpenStream {
    /// The key frames are opened under.
    pub closed spec fn key(&self) -> Seq<u8> {
        self.key@
    }

    /// Number of frames in a batch.
    pub closed spec fn batch_size(&self) -> nat {
        self.batch_size as nat
    }

    /// All bytes handed over so far, in order.
    pub closed spec fn seen(&self) -> Seq<u8> {
        self.seen@
    }

    /// The plaintext handed out so far.
    pub closed spec fn written(&self) -> Seq<u8> {
        plaintexts(self.key@, self.flushed@)
    }

    /// Whether the input has ended: fewer bytes were handed over than asked
    /// for.
    pub closed spec fn ended(&self) -> bool {
        self.ended
    }

    /// The whole frames handed over so far.
    pub closed spec fn frames(&self) -> Seq<FrameView> {
        self.flushed@ + frames_of(self.nonces@, self.chunks@)
    }

    /// A bound on the number of steps that the driver can take without
    /// handing over a byte.
    pub closed spec fn rank(&self) -> nat {
        ((if self.ended {
            0
        } else {
            2 * (self.batch_size + 1)
        }) + (if self.pending is Some {
            self.batch_size + 1
        } else {
            0
        }) + self.chunks@.len()) as nat
    }

    /// What the driver does next: read the sealed bytes of a frame whose
    /// prefix was read; flush a batch that is full, or the last one when the
    /// input has ended; finish when the input has ended and nothing is left
    /// to flush; else read the prefix of the next frame.
    pub closed spec fn next(&self) -> Action {
        match self.pending {
            Some((_, len)) => Action::Read(len),
            None => if self.ended {
                if self.chunks@.len() > 0 {
                    Action::Flush
                } else {
                    Action::Finish
                }
            } else if self.chunks@.len() >= self.batch_size {
                Action::Flush
            } else {
                Action::Read(FRAME_PREFIX_SIZE)
            },
        }
    }

    /// The stream is consistent with what it has seen: the bytes handed over
    /// are the frames gathered so far followed by the part of a frame, and
    /// every frame of an earlier batch opens.
    pub closed spec fn wf(&self) -> bool {
        &&& self.batch_size >= 1
        &&& self.nonces@.len() == self.chunks@.len()
        &&& self.chunks@.len() <= self.batch_size
        &&& forall|i: int| 0 <= i < self.frames().len() ==> (#[trigger] self.frames()[i]).wf()
        &&& forall|i: int|
            0 <= i < self.flushed@.len() ==> opens(self.key@, #[trigger] self.flushed@[i])
        &&& self.ended || (self.flushed@.len() as int) % (self.batch_size as int) == 0
        &&& self.seen@ == frames_bytes(self.frames()) + self.tail@
        &&& match self.pending {
            Some((nonce, len)) => {
                &&& !self.ended
                &&& self.chunks@.len() < self.batch_size
                &&& len <= u32::MAX
                &&& self.tail@.len() == FRAME_PREFIX_SIZE
                &&& self.tail@.take(NONCE_SIZE as int) == nonce@
                &&& frame_len_field(self.tail@) == len
            },
            None => if self.ended {
                self.tail@.len() < NONCE_SIZE
            } else {
                self.tail@.len() == 0
            },
        }
    }

    /// A stream that has seen nothing yet, with the batch size of `tuning`.
    pub fn new(key: [u8; 32], tuning: Tuning) -> (stream: OpenStream)
        ensures
            stream.wf(),
            stream.key() == key@,
            stream.batch_size() == tuning.spec_batch_size(),
            stream.seen() == Seq::<u8>::empty(),
            stream.written() == Seq::<u8>::empty(),
            !stream.ended(),
    {
        OpenStream::with_batch_size(key, tuning.batch_size())
    }

    /// A stream that has seen nothing yet.
    pub(crate) fn with_batch_size(key: [u8; 32], batch_size: usize) -> (stream: OpenStream)
        requires
            batch_size >= 1,
        ensures
            stream.wf(),
            stream.key() == key@,
            stream.batch_size() == batch_size,
            stream.seen() == Seq::<u8>::empty(),
            stream.written() == Seq::<u8>::empty(),
            !stream.ended(),
    {
        let stream = OpenStream {
            key,
            batch_size,
            nonces: Vec::new(),
            chunks: Vec::new(),
            pending: None,
            ended: false,
            seen: Ghost(Seq::empty()),
            tail: Ghost(Seq::empty()),
            flushed: Ghost(Seq::empty()),
        };
        proof {
            assert(stream.frames() =~= Seq::<FrameView>::empty());
        }
        stream
    }

    /// What the driver does next.
    pub fn next_action(&self) -> (action: Action)
        requires
            self.wf(),
        ensures
            action == self.next(),
            action == Action::Finish ==> self.ended(),
    {
        match self.pending {
            Some((_, len)) => Action::Read(len),
            None => if self.ended {
                if self.chunks.len() > 0 {
                    Action::Flush
                } else {
                    Action::Finish
                }
            } else if self.chunks.len() >= self.batch_size {
                Action::Flush
            } else {
                Action::Read(FRAME_PREFIX_SIZE)
            },
        }
    }

    /// Whether the input has ended.
    pub fn is_ended(&self) -> (ended: bool)
        ensures
            ended == self.ended(),
    {
        self.ended
    }

    /// Takes the bytes that were read. Fewer bytes than asked for mean that
    /// the input has ended: at a frame boundary with fewer than twelve bytes
    /// left that is a clean end, anywhere else the stream is truncated.
    pub fn on_bytes(&mut self, bytes: Vec<u8>) -> (taken: Result<(), CryptoError>)
        requires
            old(self).wf(),
            old(self).next() matches Action::Read(n) && bytes@.len() <= n,
        ensures
            final(self).seen() == old(self).seen() + bytes@,
            final(self).key() == old(self).key(),
            final(self).batch_size() == old(self).batch_size(),
            final(self).written() == old(self).written(),
            old(self).next() matches Action::Read(n) ==> (final(self).ended() || taken is Err
                ==> bytes@.len() < n),
            taken is Ok ==> final(self).wf(),
            taken is Ok && bytes@.len() == 0 ==> final(self).rank() < old(self).rank(),
            taken matches Err(e) ==> e == CryptoError::TruncatedFrame && opened_frames(
                final(self).seen(),
                final(self).key(),
                Some(final(self).batch_size()),
            ) == Err::<Seq<u8>, CryptoError>(CryptoError::TruncatedFrame),
    {
        match self.pending {
            None => self.on_prefix(bytes),
            Some((nonce, len)) => self.on_sealed(nonce, len, bytes),
        }
    }

    /// Takes the bytes read at a frame boundary.
    fn on_prefix(&mut self, bytes: Vec<u8>) -> (taken: Result<(), CryptoError>)
        requires
            old(self).wf(),
            old(self).pending is None,
            old(self).next() == Action::Read(FRAME_PREFIX_SIZE),
            bytes@.len() <= FRAME_PREFIX_SIZE,
        ensures
            final(self).seen() == old(self).seen() + bytes@,
            final(self).key() == old(self).key(),
            final(self).batch_size() == old(self).batch_size(),
            final(self).written() == old(self).written(),
            final(self).ended() || taken is Err ==> bytes@.len() < FRAME_PREFIX_SIZE,
            taken is Ok ==> final(self).wf(),
            taken is Ok && bytes@.len() == 0 ==> final(self).rank() < old(self).rank(),
            taken matches Err(e) ==> e == CryptoError::TruncatedFrame && opened_frames(
                final(self).seen(),
                final(self).key(),
                Some(final(self).batch_size()),
            ) == Err::<Seq<u8>, CryptoError>(CryptoError::TruncatedFrame),
    {
        let ghost frames = self.frames();
        let ghost before = self.seen@;
        proof {
            assert(frames.take(self.flushed@.len() as int) =~= self.flushed@);
        }
        self.seen = Ghost(before + bytes@);
        match begin_frame(bytes.as_slice()) {
            FrameStart::EndOfStream => {
                self.ended = true;
                self.tail = Ghost(bytes@);
                Ok(())
            },
            FrameStart::Truncated => {
                proof {
                    self.lemma_truncated(frames, bytes@);
                }
                Err(CryptoError::TruncatedFrame)
            },
            FrameStart::Body { nonce, len } => {
                self.pending = Some((nonce, len));
                self.tail = Ghost(bytes@);
                Ok(())
            },
        }
    }

    /// Takes the sealed bytes of the frame whose prefix was read.
    fn on_sealed(&mut self, nonce: [u8; 12], len: usize, bytes: Vec<u8>) -> (taken: Result<
        (),
        CryptoError,
    >)
        requires
            old(self).wf(),
            old(self).pending == Some((nonce, len)),
            bytes@.len() <= len,
        ensures
            final(self).seen() == old(self).seen() + bytes@,
            final(self).key() == old(self).key(),
            final(self).batch_size() == old(self).batch_size(),
            final(self).written() == old(self).written(),
            final(self).ended() || taken is Err ==> bytes@.len() < len,
            taken is Ok ==> final(self).wf(),
            taken is Ok && bytes@.len() == 0 ==> final(self).rank() < old(self).rank(),
            taken matches Err(e) ==> e == CryptoError::TruncatedFrame && opened_frames(
                final(self).seen(),
                final(self).key(),
                Some(final(self).batch_size()),
            ) == Err::<Seq<u8>, CryptoError>(CryptoError::TruncatedFrame),
    {
        let ghost frames = self.frames();
        let ghost before = self.seen@;
        let ghost prefix = self.tail@;
        let ghost partial = prefix + bytes@;
        proof {
            assert(before + bytes@ =~= frames_bytes(frames) + partial);
            assert(frames.take(self.flushed@.len() as int) =~= self.flushed@);
        }
        self.seen = Ghost(before + bytes@);
        match finish_frame(nonce, len, bytes) {
            Err(e) => {
                proof {
                    self.lemma_truncated(frames, partial);
                }
                Err(e)
            },
            Ok(frame) => {
                proof {
                    lemma_frame_prefix(prefix, frame@);
                    lemma_frames_bytes_push(frames, frame@);
                    assert(frames_of(
                        self.nonces@.push(frame.nonce),
                        self.chunks@.push(frame.ciphertext),
                    ) =~= frames_of(self.nonces@, self.chunks@).push(frame@));
                }
                self.nonces.push(frame.nonce);
                self.chunks.push(frame.ciphertext);
                self.pending = None;
                self.tail = Ghost(Seq::empty());
                Ok(())
            },
        }
    }

    /// Opens the batch that was gathered, in one parallel pass, and appends
    /// its plaintexts to `out` in the order of the frames. Where a frame does
    /// not open, the batch is abandoned with `AuthFail`, nothing is appended,
    /// and whatever the input may still hold, the body as a whole fails to
    /// decrypt.
    pub fn flush(&mut self, out: &mut Vec<u8>) -> (done: Result<(), CryptoError>)
        requires
            old(self).wf(),
            old(self).next() == Action::Flush,
        ensures
            final(self).seen() == old(self).seen(),
            final(self).key() == old(self).key(),
            final(self).batch_size() == old(self).batch_size(),
            final(self).ended() == old(self).ended(),
            done is Ok ==> final(self).wf() && final(self).rank() < old(self).rank(),
            done is Ok ==> final(out)@.len() >= old(out)@.len() && final(out)@.take(
                old(out)@.len() as int,
            ) == old(out)@ && final(self).written() == old(self).written() + final(out)@.skip(
                old(out)@.len() as int,
            ),
            done matches Err(e) ==> e == CryptoError::AuthFail && final(out)@ == old(out)@,
            done is Err ==> forall|rest: Seq<u8>|
                (old(self).ended() ==> rest.len() == 0) ==> #[trigger] opened_frames(
                    old(self).seen() + rest,
                    old(self).key(),
                    Some(old(self).batch_size()),
                ) == Err::<Seq<u8>, CryptoError>(CryptoError::AuthFail),
    {
        let ghost batch = frames_of(self.nonces@, self.chunks@);
        let ghost frames = self.frames();
        match decrypt_batch(&self.key, &self.nonces, &self.chunks, out) {
            Ok(()) => {
                proof {
                    lemma_plaintexts_concat(self.key@, self.flushed@, batch);
                    if !self.ended {
                        lemma_remainder_after_multiple(
                            self.flushed@.len() as int,
                            0,
                            self.batch_size as int,
                        );
                    }
                }
                self.flushed = Ghost(frames);
                self.nonces = Vec::new();
                self.chunks = Vec::new();
                Ok(())
            },
            Err(e) => {
                proof {
                    let bad = choose|i: int| 0 <= i < batch.len() && !opens(self.key@, batch[i]);
                    assert forall|rest: Seq<u8>|
                        (self.ended ==> rest.len() == 0) implies #[trigger] opened_frames(
                        self.seen@ + rest,
                        self.key@,
                        Some(self.batch_size as nat),
                    ) == Err::<Seq<u8>, CryptoError>(CryptoError::AuthFail) by {
                        if !self.ended {
                            lemma_remainder_after_multiple(
                                self.flushed@.len() as int,
                                0,
                                self.batch_size as int,
                            );
                        }
                        lemma_bad_frame(
                            self.key@,
                            frames,
                            self.flushed@.len() + bad,
                            self.tail@ + rest,
                            self.batch_size as nat,
                            self.flushed@.len() + self.batch_size,
                        );
                    }
                }
                Err(e)
            },
        }
    }

    /// When nothing is left to do, the plaintext handed out is the whole
    /// plaintext of the body that was handed over.
    pub proof fn lemma_finished(&self)
        requires
            self.wf(),
            self.next() == Action::Finish,
        ensures
            opened_frames(self.seen(), self.key(), Some(self.batch_size())) == Ok::<
                Seq<u8>,
                CryptoError,
            >(self.written()),
    {
        lemma_scan_after_frames(self.frames(), self.tail@);
    }

    /// A stream that ends within a frame, all earlier batches having opened,
    /// is truncated.
    proof fn lemma_truncated(&self, frames: Seq<FrameView>, partial: Seq<u8>)
        requires
            self.batch_size >= 1,
            frames.len() >= self.flushed@.len(),
            frames.take(self.flushed@.len() as int) == self.flushed@,
            frames.len() - self.flushed@.len() < self.batch_size,
            (self.flushed@.len() as int) % (self.batch_size as int) == 0,
            forall|i: int| 0 <= i < frames.len() ==> (#[trigger] frames[i]).wf(),
            forall|i: int|
                0 <= i < self.flushed@.len() ==> opens(self.key@, #[trigger] self.flushed@[i]),
            partial.len() >= NONCE_SIZE,
            !holds_frame(partial),
        ensures
            opened_frames(
                frames_bytes(frames) + partial,
                self.key@,
                Some(self.batch_size as nat),
            ) == Err::<Seq<u8>, CryptoError>(CryptoError::TruncatedFrame),
    {
        lemma_scan_after_frames(frames, partial);
        lemma_remainder_after_multiple(
            self.flushed@.len() as int,
            frames.len() - self.flushed@.len(),
            self.batch_size as int,
        );
    }
}

/// The sixteen bytes before the sealed bytes of a frame are its nonce and
/// the length of the sealed bytes.
proof fn lemma_frame_prefix(prefix: Seq<u8>, frame: FrameView)
    requires
        prefix.len() == FRAME_PREFIX_SIZE,
        prefix.take(NONCE_SIZE as int) == frame.nonce,
        frame_len_field(prefix) == frame.ciphertext.len(),
        frame.ciphertext.len() <= u32::MAX,
    ensures
        prefix + frame.ciphertext == frame_bytes(frame),
{
    let word = prefix.subrange(NONCE_SIZE as int, FRAME_PREFIX_SIZE as int);
    lemma_u32_value_round_trip(word);
}

/// A body whose whole frames are `frames`, followed by `rest`, fails to
/// decrypt with `AuthFail` where the frame at index `bad` does not open and
/// either the batch of that frame is complete among `frames`, or `rest` holds
/// no frame and ends cleanly.
proof fn lemma_bad_frame(
    key: Seq<u8>,
    frames: Seq<FrameView>,
    bad: int,
    rest: Seq<u8>,
    batch_size: nat,
    batch_end: int,
)
    requires
        batch_size >= 1,
        forall|i: int| 0 <= i < frames.len() ==> (#[trigger] frames[i]).wf(),
        0 <= bad < frames.len(),
        !opens(key, frames[bad]),
        rest.len() < NONCE_SIZE || (bad < batch_end <= frames.len() && batch_end % (
        batch_size as int) == 0),
    ensures
        opened_frames(frames_bytes(frames) + rest, key, Some(batch_size)) == Err::<
            Seq<u8>,
            CryptoError,
        >(CryptoError::AuthFail),
{
    lemma_scan_after_frames(frames, rest);
    let scan = scan_frames(frames_bytes(frames) + rest);
    assert(scan.frames[bad] == frames[bad]);
    if scan.truncated {
        lemma_multiple_below(batch_end, scan.frames.len() as int, batch_size as int);
        let whole = whole_batches(scan.frames, Some(batch_size));
        assert(whole[bad] == frames[bad]);
    }
}

/// The encryption into frames of a plaintext that arrives piece by piece.
pub struct SealStream {
    key: [u8; 32],
    chunk_size: usize,
    batch_size: usize,
    /// The chunks of the batch being gathered.
    chunks: Vec<Vec<u8>>,
    /// Whether the input has ended.
    ended: bool,
    /// All bytes handed over so far.
    seen: Ghost<Seq<u8>>,
    /// The chunks of the batches that were sealed.
    sealed: Ghost<Seq<Seq<u8>>>,
    /// The nonces they were sealed under.
    used: Ghost<Seq<Seq<u8>>>,
}

impl SealStream {
    /// The key chunks are sealed under.
    pub closed spec fn key(&self) -> Seq<u8> {
        self.key@
    }

    /// Largest number of plaintext bytes in a chunk.
    pub closed spec fn chunk_size(&self) -> nat {
        self.chunk_size as nat
    }

    /// Number of chunks in a batch.
    pub closed spec fn batch_size(&self) -> nat {
        self.batch_size as nat
    }

    /// All bytes handed over so far, in order.
    pub closed spec fn seen(&self) -> Seq<u8> {
        self.seen@
    }

    /// Whether the input has ended: fewer bytes were handed over than asked
    /// for.
    pub closed spec fn ended(&self) -> bool {
        self.ended
    }

    /// The nonces of the frames handed out so far, in order.
    pub closed spec fn nonces(&self) -> Seq<Seq<u8>> {
        self.used@
    }

    /// The frames handed out so far.
    pub closed spec fn written(&self) -> Seq<u8> {
        frames_bytes(sealed_frames(self.key@, self.used@, self.sealed@))
    }

    /// Number of chunks in the batch being gathered: the number of nonces
    /// that the next `flush` takes.
    pub closed spec fn pending(&self) -> nat {
        self.chunks@.len()
    }

    /// A bound on the number of steps that the driver can take without
    /// handing over a byte.
    pub closed spec fn rank(&self) -> nat {
        ((if self.ended {
            0
        } else {
            self.batch_size + 1
        }) + self.chunks@.len()) as nat
    }

    /// What the driver does next: flush a batch that is full, or the last
    /// one when the input has ended; finish when the input has ended and
    /// nothing is left to flush; else read the next chunk.
    pub closed spec fn next(&self) -> Action {
        if self.ended {
            if self.chunks@.len() > 0 {
                Action::Flush
            } else {
                Action::Finish
            }
        } else if self.chunks@.len() >= self.batch_size {
            Action::Flush
        } else {
            Action::Read(self.chunk_size)
        }
    }

    /// The chunks handed over so far: those sealed and those gathered.
    pub closed spec fn chunks(&self) -> Seq<Seq<u8>> {
        self.sealed@ + chunk_views(self.chunks@)
    }

    /// The stream is consistent with what it has seen: the chunks gathered
    /// so far are the chunks of the bytes handed over, all of them full until
    /// the input ends, and the cipher gives back every chunk that was sealed.
    pub closed spec fn wf(&self) -> bool {
        &&& 1 <= self.chunk_size <= MAX_CHUNK_SIZE
        &&& self.batch_size >= 1
        &&& self.chunks@.len() <= self.batch_size
        &&& self.chunks() == chunks_of(self.seen@, self.chunk_size as nat)
        &&& !self.ended ==> forall|i: int|
            0 <= i < self.chunks().len() ==> (#[trigger] self.chunks()[i]).len() == self.chunk_size
        &&& self.used@.len() == self.sealed@.len()
        &&& forall|i: int|
            0 <= i < self.used@.len() ==> (#[trigger] self.used@[i]).len() == NONCE_SIZE
        &&& forall|i: int|
            0 <= i < self.used@.len() ==> opens_to(
                self.key@,
                #[trigger] self.used@[i],
                self.sealed@[i],
            )
    }

    /// A stream that has seen nothing yet, with the chunk size and the batch
    /// size of `tuning`.
    pub fn new(key: [u8; 32], tuning: Tuning) -> (stream: SealStream)
        ensures
            stream.wf(),
            stream.key() == key@,
            stream.chunk_size() == tuning.spec_chunk_size(),
            stream.batch_size() == tuning.spec_batch_size(),
            stream.seen() == Seq::<u8>::empty(),
            stream.written() == Seq::<u8>::empty(),
            stream.nonces() == Seq::<Seq<u8>>::empty(),
            stream.pending() == 0,
            !stream.ended(),
    {
        SealStream::with_sizes(key, tuning.chunk_size(), tuning.batch_size())
    }

    /// A stream that has seen nothing yet.
    pub(crate) fn with_sizes(key: [u8; 32], chunk_size: usize, batch_size: usize) -> (stream:
        SealStream)
        requires
            1 <= chunk_size <= MAX_CHUNK_SIZE,
            batch_size >= 1,
        ensures
            stream.wf(),
            stream.key() == key@,
            stream.chunk_size() == chunk_size,
            stream.batch_size() == batch_size,
            stream.seen() == Seq::<u8>::empty(),
            stream.written() == Seq::<u8>::empty(),
            stream.nonces() == Seq::<Seq<u8>>::empty(),
            stream.pending() == 0,
            !stream.ended(),
    {
        let stream = SealStream {
            key,
            chunk_size,
            batch_size,
            chunks: Vec::new(),
            ended: false,
            seen: Ghost(Seq::empty()),
            sealed: Ghost(Seq::empty()),
            used: Ghost(Seq::empty()),
        };
        stream
    }

    /// What the driver does next.
    pub fn next_action(&self) -> (action: Action)
        requires
            self.wf(),
        ensures
            action == self.next(),
            action == Action::Finish ==> self.ended() && self.pending() == 0,
            action matches Action::Read(n) ==> n == self.chunk_size(),
    {
        if self.ended {
            if self.chunks.len() > 0 {
                Action::Flush
            } else {
                Action::Finish
            }
        } else if self.chunks.len() >= self.batch_size {
            Action::Flush
        } else {
            Action::Read(self.chunk_size)
        }
    }

    /// Number of chunks in the batch being gathered.
    pub fn pending_chunks(&self) -> (count: usize)
        ensures
            count == self.pending(),
    {
        self.chunks.len()
    }

    /// Takes the bytes that were read as the next chunk. Fewer bytes than a
    /// chunk mean that the input has ended; no bytes at all add no chunk.
    pub fn on_bytes(&mut self, bytes: Vec<u8>)
        requires
            old(self).wf(),
            old(self).next() matches Action::Read(n) && bytes@.len() <= n,
        ensures
            final(self).wf(),
            final(self).seen() == old(self).seen() + bytes@,
            final(self).key() == old(self).key(),
            final(self).chunk_size() == old(self).chunk_size(),
            final(self).batch_size() == old(self).batch_size(),
            final(self).written() == old(self).written(),
            final(self).nonces() == old(self).nonces(),
            final(self).ended() <==> bytes@.len() < old(self).chunk_size(),
            bytes@.len() == 0 ==> final(self).rank() < old(self).rank(),
    {
        let ghost before = self.chunks();
        let ghost size = self.chunk_size as nat;
        proof {
            lemma_chunks_of(self.seen@, size);
        }
        self.seen = Ghost(self.seen@ + bytes@);
        if bytes.len() < self.chunk_size {
            self.ended = true;
        }
        if bytes.len() > 0 {
            proof {
                lemma_chunks_push(before, bytes@, size);
                assert(self.sealed@ + chunk_views(self.chunks@.push(bytes)) =~= before.push(
                    bytes@,
                ));
            }
            self.chunks.push(bytes);
        }
    }

    /// Seals the batch that was gathered, in one parallel pass, each chunk
    /// under the nonce at its index, and appends the frames to `out` in the
    /// order of the chunks. Refused with `InvalidArgument`, and nothing
    /// changed, where the nonces are not as many as the chunks.
    pub fn flush(&mut self, nonces: &Vec<[u8; 12]>, out: &mut Vec<u8>) -> (done: Result<
        (),
        CryptoError,
    >)
        requires
            old(self).wf(),
            old(self).next() == Action::Flush,
        ensures
            final(self).wf(),
            final(self).seen() == old(self).seen(),
            final(self).key() == old(self).key(),
            final(self).chunk_size() == old(self).chunk_size(),
            final(self).batch_size() == old(self).batch_size(),
            final(self).ended() == old(self).ended(),
            done is Ok <==> nonces@.len() == old(self).pending(),
            done is Ok ==> final(self).rank() < old(self).rank() && final(self).pending() == 0
                && final(self).nonces() == old(self).nonces() + nonce_views(nonces@),
            done is Ok ==> final(out)@.len() >= old(out)@.len() && final(out)@.take(
                old(out)@.len() as int,
            ) == old(out)@ && final(self).written() == old(self).written() + final(out)@.skip(
                old(out)@.len() as int,
            ),
            done matches Err(e) ==> e == CryptoError::InvalidArgument && final(out)@ == old(
                out,
            )@ && final(self).pending() == old(self).pending() && final(self).nonces() == old(
                self,
            ).nonces() && final(self).written() == old(self).written() && final(self).next()
                == Action::Flush,
    {
        let ghost batch = chunk_views(self.chunks@);
        let ghost all = self.chunks();
        let ghost size = self.chunk_size as nat;
        proof {
            lemma_chunks_of(self.seen@, size);
            assert forall|i: int|
                0 <= i < self.chunks@.len() implies (#[trigger] self.chunks@[i])@.len()
                <= MAX_CHUNK_SIZE by {
                assert(all[self.sealed@.len() + i] == self.chunks@[i]@);
            }
        }
        match encrypt_batch(&self.key, &self.chunks, nonces, out) {
            Err(e) => Err(e),
            Ok(()) => {
                let ghost fresh = nonce_views(nonces@);
                proof {
                    let old_frames = sealed_frames(self.key@, self.used@, self.sealed@);
                    let new_frames = sealed_frames(self.key@, fresh, batch);
                    lemma_frames_bytes_concat(old_frames, new_frames);
                    assert(old_frames + new_frames =~= sealed_frames(
                        self.key@,
                        self.used@ + fresh,
                        all,
                    ));
                    let nonces_now = self.used@ + fresh;
                    assert forall|i: int|
                        0 <= i < nonces_now.len() implies (#[trigger] nonces_now[i]).len()
                        == NONCE_SIZE && opens_to(self.key@, nonces_now[i], all[i]) by {}
                }
                self.used = Ghost(self.used@ + fresh);
                self.sealed = Ghost(all);
                self.chunks = Vec::new();
                Ok(())
            },
        }
    }

    /// The chunks handed over so far, sealed or gathered, are as many as the
    /// bytes handed over ask for.
    pub proof fn lemma_chunk_total(&self)
        requires
            self.wf(),
        ensures
            self.nonces().len() + self.pending() == chunk_count(
                self.seen().len(),
                self.chunk_size(),
            ),
    {
        lemma_chunks_of(self.seen@, self.chunk_size as nat);
    }

    /// When nothing is left to do, the frames handed out are the framed body
    /// of the plaintext that was handed over: one frame per chunk, each chunk
    /// sealed under the nonce at its index, and the cipher gives back every
    /// chunk.
    pub proof fn lemma_finished(&self)
        requires
            self.wf(),
            self.next() == Action::Finish,
        ensures
            self.written() == frames_bytes(
                sealed_frames(
                    self.key(),
                    self.nonces(),
                    chunks_of(self.seen(), self.chunk_size()),
                ),
            ),
            self.nonces().len() == chunk_count(self.seen().len(), self.chunk_size()),
            forall|i: int|
                0 <= i < self.nonces().len() ==> (#[trigger] self.nonces()[i]).len() == NONCE_SIZE
                    && opens_to(
                    self.key(),
                    self.nonces()[i],
                    chunks_of(self.seen(), self.chunk_size())[i],
                ),
    {
        lemma_chunks_of(self.seen@, self.chunk_size as nat);
    }
}

} // verus!
