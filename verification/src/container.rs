//! The container format: a header that carries a password hint, and the
//! frames of a chunked body.
//!
//! ```text
//! offset  size      field
//! 0       10        magic "KYRIE_LOCK"
//! 10      4         version, little-endian, = 1
//! 14      1         hint_len
//! 15      hint_len  hint bytes
//! ```
//!
//! A frame is `nonce(12) || length(4, big-endian) || sealed chunk(length)`.

use crate::bytes::{
    append_bytes, copy_range, lemma_u32_bytes_round_trip, push_u32_be, push_u32_le, read_u32_be,
    read_u32_le, u32_be_bytes, u32_from_be, u32_from_le, u32_le_bytes,
};
use crate::error::CryptoError;
use crate::primitives::NONCE_SIZE;
use vstd::prelude::*;

verus! {

/// Length of the magic.
pub const MAGIC_SIZE: usize = 10;

/// The only version this codec reads and writes.
pub const VERSION: u32 = 1;

/// Length of the header up to, but without, the hint length byte.
pub const HEADER_SIZE: usize = 14;

/// Longest hint a header is written with.
pub const MAX_HINT_LENGTH: usize = 32;

/// Length of the longest header that can be read: the hint length is one
/// byte.
pub const LONGEST_HEADER: usize = 270;

/// Length of what precedes the sealed bytes in a frame: nonce and length.
pub const FRAME_PREFIX_SIZE: usize = 16;

/// The magic that every container starts with: the ASCII bytes of
/// `KYRIE_LOCK`.
pub const MAGIC_STRING: [u8; 10] = [0x4B, 0x59, 0x52, 0x49, 0x45, 0x5F, 0x4C, 0x4F, 0x43, 0x4B];

/// The magic as a sequence of bytes.
pub open spec fn magic() -> Seq<u8> {
    MAGIC_STRING@
}

/// The part of a hint that a header keeps: its first 32 bytes.
pub open spec fn stored_hint(hint: Seq<u8>) -> Seq<u8> {
    if hint.len() > MAX_HINT_LENGTH {
        hint.take(MAX_HINT_LENGTH as int)
    } else {
        hint
    }
}

/// The header written for a hint.
pub open spec fn header_bytes(hint: Seq<u8>) -> Seq<u8> {
    magic() + u32_le_bytes(VERSION) + seq![stored_hint(hint).len() as u8] + stored_hint(hint)
}

/// A parsed header.
#[derive(Debug)]
pub struct Header {
    /// The declared version.
    pub version: u32,
    /// The hint, as stored.
    pub hint: Vec<u8>,
    /// Offset of the first byte of the body.
    pub header_size: usize,
}

/// The mathematical content of a `Header`.
pub struct HeaderView {
    pub version: u32,
    pub hint: Seq<u8>,
    pub header_size: nat,
}

impl View for Header {
    type V = HeaderView;

    open spec fn view(&self) -> HeaderView {
        HeaderView { version: self.version, hint: self.hint@, header_size: self.header_size as nat }
    }
}

/// What reading a header from the start of `data` gives. The fields are read
/// in order; a field that the data ends within is an `IoError`.
pub open spec fn parsed_header(data: Seq<u8>) -> Result<HeaderView, CryptoError> {
    if data.len() < MAGIC_SIZE {
        Err(CryptoError::IoError)
    } else if data.take(MAGIC_SIZE as int) != magic() {
        Err(CryptoError::InvalidFormat)
    } else if data.len() < HEADER_SIZE {
        Err(CryptoError::IoError)
    } else if u32_from_le(data.subrange(MAGIC_SIZE as int, HEADER_SIZE as int)) != VERSION {
        Err(CryptoError::UnsupportedVersion)
    } else if data.len() < HEADER_SIZE + 1 {
        Err(CryptoError::IoError)
    } else if data.len() < HEADER_SIZE + 1 + data[HEADER_SIZE as int] {
        Err(CryptoError::IoError)
    } else {
        Ok(
            HeaderView {
                version: VERSION,
                hint: data.subrange(
                    HEADER_SIZE + 1,
                    HEADER_SIZE + 1 + data[HEADER_SIZE as int],
                ),
                header_size: (HEADER_SIZE + 1 + data[HEADER_SIZE as int]) as nat,
            },
        )
    }
}

/// What reading only the hint from the start of `data` gives.
pub open spec fn parsed_hint(data: Seq<u8>) -> Result<Seq<u8>, CryptoError> {
    match parsed_header(data) {
        Ok(header) => Ok(header.hint),
        Err(e) => Err(e),
    }
}

/// Whether the first ten bytes of `data` are the magic.
fn has_magic(data: &[u8]) -> (found: bool)
    requires
        data@.len() >= MAGIC_SIZE,
    ensures
        found == (data@.take(MAGIC_SIZE as int) == magic()),
{
    let mut i: usize = 0;
    while i < MAGIC_SIZE
        invariant
            i <= MAGIC_SIZE,
            data@.len() >= MAGIC_SIZE,
            forall|j: int| 0 <= j < i ==> data@[j] == magic()[j],
        decreases MAGIC_SIZE - i,
    {
        if data[i] != MAGIC_STRING[i] {
            return false;
        }
        i += 1;
    }
    assert(data@.take(MAGIC_SIZE as int) =~= magic());
    true
}

/// Writes the header for `hint`: the magic, the version, the length of the
/// stored hint and the stored hint. A hint longer than 32 bytes is cut to its
/// first 32; an empty hint gives a header of 15 bytes.
pub fn write_header(hint: &[u8]) -> (out: Vec<u8>)
    ensures
        out@ == header_bytes(hint@),
        out@.len() == HEADER_SIZE + 1 + stored_hint(hint@).len(),
{
    let kept: usize = if hint.len() > MAX_HINT_LENGTH {
        MAX_HINT_LENGTH
    } else {
        hint.len()
    };
    let mut out: Vec<u8> = Vec::new();
    append_bytes(&mut out, MAGIC_STRING.as_slice());
    push_u32_le(&mut out, VERSION);
    out.push(kept as u8);
    append_bytes(&mut out, vstd::slice::slice_subrange(hint, 0, kept));
    out
}

/// Reads the header at the start of `data`: rejects a wrong magic with
/// `InvalidFormat` and a version other than 1 with `UnsupportedVersion`, and
/// returns the version, the hint and the offset at which the body starts.
pub fn read_header(data: &[u8]) -> (header: Result<Header, CryptoError>)
    ensures
        match header {
            Ok(h) => parsed_header(data@) == Ok::<HeaderView, CryptoError>(h@),
            Err(e) => parsed_header(data@) == Err::<HeaderView, CryptoError>(e),
        },
{
    if data.len() < MAGIC_SIZE {
        return Err(CryptoError::IoError);
    }
    if !has_magic(data) {
        return Err(CryptoError::InvalidFormat);
    }
    if data.len() < HEADER_SIZE {
        return Err(CryptoError::IoError);
    }
    let version = read_u32_le(data, MAGIC_SIZE);
    if version != VERSION {
        return Err(CryptoError::UnsupportedVersion);
    }
    if data.len() < HEADER_SIZE + 1 {
        return Err(CryptoError::IoError);
    }
    let hint_len: usize = data[HEADER_SIZE] as usize;
    if data.len() < HEADER_SIZE + 1 + hint_len {
        return Err(CryptoError::IoError);
    }
    let hint = copy_range(data, HEADER_SIZE + 1, HEADER_SIZE + 1 + hint_len);
    Ok(Header { version, hint, header_size: HEADER_SIZE + 1 + hint_len })
}

/// Reads the hint of a container without touching its body and without a
/// key.
pub fn get_hint_from_file_internal(data: &[u8]) -> (hint: Result<Vec<u8>, CryptoError>)
    ensures
        match hint {
            Ok(bytes) => parsed_hint(data@) == Ok::<Seq<u8>, CryptoError>(bytes@),
            Err(e) => parsed_hint(data@) == Err::<Seq<u8>, CryptoError>(e),
        },
{
    match read_header(data) {
        Ok(header) => Ok(header.hint),
        Err(e) => Err(e),
    }
}

/// A header is read back as it was written, whatever follows it.
pub proof fn lemma_header_round_trip(hint: Seq<u8>, body: Seq<u8>)
    ensures
        parsed_header(header_bytes(hint) + body) == Ok::<HeaderView, CryptoError>(
            HeaderView {
                version: VERSION,
                hint: stored_hint(hint),
                header_size: header_bytes(hint).len(),
            },
        ),
        header_bytes(hint).len() == HEADER_SIZE + 1 + stored_hint(hint).len(),
        (header_bytes(hint) + body).skip(header_bytes(hint).len() as int) == body,
{
    let kept = stored_hint(hint);
    let head = header_bytes(hint);
    let data = head + body;
    lemma_u32_bytes_round_trip(VERSION);
    assert(data.take(MAGIC_SIZE as int) =~= magic());
    assert(data.subrange(HEADER_SIZE + 1, HEADER_SIZE + 1 + kept.len()) =~= kept);
}

/// A header is read from the first 270 bytes of a file: what follows them
/// plays no part.
pub proof fn lemma_header_is_in_the_first_bytes(data: Seq<u8>, count: int)
    requires
        LONGEST_HEADER <= count <= data.len(),
    ensures
        parsed_header(data.take(count)) == parsed_header(data),
{
    let head = data.take(count);
    assert(head.take(MAGIC_SIZE as int) =~= data.take(MAGIC_SIZE as int));
    assert(head.subrange(HEADER_SIZE + 1, HEADER_SIZE + 1 + data[HEADER_SIZE as int])
        =~= data.subrange(HEADER_SIZE + 1, HEADER_SIZE + 1 + data[HEADER_SIZE as int]));
}

/// One encrypted chunk as it stands in a chunked body.
#[derive(Debug)]
pub struct Frame {
    /// The nonce the chunk was sealed under.
    pub nonce: [u8; 12],
    /// The sealed chunk: ciphertext and tag.
    pub ciphertext: Vec<u8>,
}

/// The mathematical content of a `Frame`.
pub struct FrameView {
    pub nonce: Seq<u8>,
    pub ciphertext: Seq<u8>,
}

impl View for Frame {
    type V = FrameView;

    open spec fn view(&self) -> FrameView {
        FrameView { nonce: self.nonce@, ciphertext: self.ciphertext@ }
    }
}

impl FrameView {
    /// A frame that can be written: a 12-byte nonce, and sealed bytes whose
    /// number fits the length field.
    pub open spec fn wf(self) -> bool {
        self.nonce.len() == 12 && self.ciphertext.len() <= u32::MAX
    }

    /// Number of bytes the frame takes in a body.
    pub open spec fn size(self) -> int {
        FRAME_PREFIX_SIZE + self.ciphertext.len()
    }
}

/// The bytes of one frame: nonce, big-endian length, sealed bytes.
pub open spec fn frame_bytes(frame: FrameView) -> Seq<u8> {
    frame.nonce + u32_be_bytes(frame.ciphertext.len() as u32) + frame.ciphertext
}

/// The bytes of a run of frames, in order.
pub open spec fn frames_bytes(frames: Seq<FrameView>) -> Seq<u8> {
    frames.map_values(|frame: FrameView| frame_bytes(frame)).flatten()
}

/// The value of the length field of the frame that `s` starts with.
pub open spec fn frame_len_field(s: Seq<u8>) -> int
    recommends
        s.len() >= FRAME_PREFIX_SIZE,
{
    u32_from_be(s.subrange(NONCE_SIZE as int, FRAME_PREFIX_SIZE as int)) as int
}

/// Whether `s` starts with a whole frame.
pub open spec fn holds_frame(s: Seq<u8>) -> bool {
    s.len() >= FRAME_PREFIX_SIZE && s.len() >= FRAME_PREFIX_SIZE + frame_len_field(s)
}

/// The frame that `s` starts with.
pub open spec fn first_frame(s: Seq<u8>) -> FrameView
    recommends
        holds_frame(s),
{
    FrameView {
        nonce: s.take(NONCE_SIZE as int),
        ciphertext: s.subrange(FRAME_PREFIX_SIZE as int, FRAME_PREFIX_SIZE + frame_len_field(s)),
    }
}

/// The frames of a body up to its end, and how it ends.
pub struct Scan {
    /// The whole frames, in order.
    pub frames: Seq<FrameView>,
    /// Whether the body ends within a frame. Fewer than twelve bytes after
    /// the last whole frame are a clean end.
    pub truncated: bool,
}

/// Reads frames from `s` until it ends.
pub open spec fn scan_frames(s: Seq<u8>) -> Scan
    decreases s.len(),
{
    if s.len() < NONCE_SIZE {
        Scan { frames: Seq::empty(), truncated: false }
    } else if !holds_frame(s) {
        Scan { frames: Seq::empty(), truncated: true }
    } else {
        let rest = scan_frames(s.skip(first_frame(s).size()));
        Scan { frames: seq![first_frame(s)] + rest.frames, truncated: rest.truncated }
    }
}

/// What the first sixteen bytes at a frame boundary announce.
#[derive(Debug)]
pub enum FrameStart {
    /// Fewer than twelve bytes are left: the stream has ended.
    EndOfStream,
    /// The stream ends within the length field.
    Truncated,
    /// A frame begins: its nonce, and the number of sealed bytes that follow.
    Body { nonce: [u8; 12], len: usize },
}

/// Copies the twelve bytes of a nonce that starts at `at`.
pub fn read_nonce(data: &[u8], at: usize) -> (nonce: [u8; 12])
    requires
        at + NONCE_SIZE <= data@.len(),
    ensures
        nonce@ == data@.subrange(at as int, at + NONCE_SIZE),
{
    let mut nonce: [u8; 12] = [0u8; 12];
    let mut i: usize = 0;
    assert(data@.len() == data.len());
    while i < 12
        invariant
            i <= 12,
            at + NONCE_SIZE <= data@.len(),
            data@.len() <= usize::MAX,
            forall|j: int| 0 <= j < i ==> nonce@[j] == data@[at + j],
        decreases 12 - i,
    {
        nonce[i] = data[at + i];
        i += 1;
    }
    nonce
}

/// Decides what stands at a frame boundary from the bytes read there: `head`
/// holds the next sixteen bytes of the stream, or all that is left of it.
pub fn begin_frame(head: &[u8]) -> (start: FrameStart)
    ensures
        match start {
            FrameStart::EndOfStream => head@.len() < NONCE_SIZE,
            FrameStart::Truncated => NONCE_SIZE <= head@.len() < FRAME_PREFIX_SIZE,
            FrameStart::Body { nonce, len } => head@.len() >= FRAME_PREFIX_SIZE && nonce@
                == head@.take(NONCE_SIZE as int) && len == frame_len_field(head@),
        },
{
    if head.len() < 12 {
        return FrameStart::EndOfStream;
    }
    if head.len() < FRAME_PREFIX_SIZE {
        return FrameStart::Truncated;
    }
    let nonce = read_nonce(head, 0);
    let len = read_u32_be(head, 12);
    FrameStart::Body { nonce, len: len as usize }
}

/// Completes a frame from the bytes read after its prefix: `sealed` holds the
/// `len` bytes that were announced, or all that was left of the stream.
pub fn finish_frame(nonce: [u8; 12], len: usize, sealed: Vec<u8>) -> (frame: Result<
    Frame,
    CryptoError,
>)
    ensures
        match frame {
            Ok(f) => sealed@.len() == len && f.nonce == nonce && f.ciphertext@ == sealed@,
            Err(e) => sealed@.len() != len && e == CryptoError::TruncatedFrame,
        },
{
    if sealed.len() != len {
        return Err(CryptoError::TruncatedFrame);
    }
    Ok(Frame { nonce, ciphertext: sealed })
}

/// Appends one frame to `out`: the nonce, the length of the sealed bytes as
/// four big-endian bytes, and the sealed bytes.
pub fn write_frame(out: &mut Vec<u8>, nonce: &[u8; 12], sealed: &[u8])
    requires
        sealed@.len() <= u32::MAX,
    ensures
        final(out)@ == old(out)@ + frame_bytes(
            FrameView { nonce: nonce@, ciphertext: sealed@ },
        ),
{
    append_bytes(out, nonce.as_slice());
    push_u32_be(out, sealed.len() as u32);
    append_bytes(out, sealed);
}

/// Reads the frame that starts at `pos`. Fewer than twelve bytes left are a
/// clean end of the stream; an end within the frame is `TruncatedFrame`.
pub fn read_frame(data: &[u8], pos: usize) -> (frame: Result<Option<Frame>, CryptoError>)
    requires
        pos <= data@.len(),
    ensures
        match frame {
            Ok(Some(f)) => holds_frame(data@.skip(pos as int)) && f@ == first_frame(
                data@.skip(pos as int),
            ),
            Ok(None) => data@.len() - pos < NONCE_SIZE,
            Err(e) => e == CryptoError::TruncatedFrame && data@.len() - pos >= NONCE_SIZE
                && !holds_frame(data@.skip(pos as int)),
        },
{
    let left: usize = data.len() - pos;
    let head_len: usize = if left < FRAME_PREFIX_SIZE {
        left
    } else {
        FRAME_PREFIX_SIZE
    };
    let head = vstd::slice::slice_subrange(data, pos, pos + head_len);
    let ghost rest = data@.skip(pos as int);
    match begin_frame(head) {
        FrameStart::EndOfStream => Ok(None),
        FrameStart::Truncated => Err(CryptoError::TruncatedFrame),
        FrameStart::Body { nonce, len } => {
            proof {
                assert(head@.take(NONCE_SIZE as int) =~= rest.take(NONCE_SIZE as int));
            }
            if left - FRAME_PREFIX_SIZE < len {
                return Err(CryptoError::TruncatedFrame);
            }
            let from: usize = pos + FRAME_PREFIX_SIZE;
            let sealed = copy_range(data, from, from + len);
            proof {
                assert(sealed@ =~= rest.subrange(
                    FRAME_PREFIX_SIZE as int,
                    FRAME_PREFIX_SIZE + frame_len_field(rest),
                ));
            }
            Ok(Some(Frame { nonce, ciphertext: sealed }))
        },
    }
}

/// A frame is read back as it was written, whatever follows it.
pub proof fn lemma_frame_round_trip(frame: FrameView, rest: Seq<u8>)
    requires
        frame.wf(),
    ensures
        holds_frame(frame_bytes(frame) + rest),
        first_frame(frame_bytes(frame) + rest) == frame,
        (frame_bytes(frame) + rest).skip(frame.size()) == rest,
        frame_bytes(frame).len() == frame.size(),
{
    let s = frame_bytes(frame) + rest;
    lemma_u32_bytes_round_trip(frame.ciphertext.len() as u32);
    assert(s.take(NONCE_SIZE as int) =~= frame.nonce);
    assert(s.subrange(FRAME_PREFIX_SIZE as int, FRAME_PREFIX_SIZE + frame.ciphertext.len())
        =~= frame.ciphertext);
}

/// The bytes of a run of frames are those of its first frame followed by
/// those of the others.
pub proof fn lemma_frames_bytes_first(frames: Seq<FrameView>)
    requires
        frames.len() > 0,
    ensures
        frames_bytes(frames) == frame_bytes(frames[0]) + frames_bytes(frames.skip(1)),
{
    let mapped = frames.map_values(|frame: FrameView| frame_bytes(frame));
    assert(mapped.drop_first() =~= frames.skip(1).map_values(
        |frame: FrameView| frame_bytes(frame),
    ));
}

/// The bytes of a run of frames with one more frame at its end.
pub proof fn lemma_frames_bytes_push(frames: Seq<FrameView>, frame: FrameView)
    ensures
        frames_bytes(frames.push(frame)) == frames_bytes(frames) + frame_bytes(frame),
{
    let mapped = frames.map_values(|f: FrameView| frame_bytes(f));
    assert(frames.push(frame).map_values(|f: FrameView| frame_bytes(f)) =~= mapped.push(
        frame_bytes(frame),
    ));
    mapped.lemma_flatten_push(frame_bytes(frame));
}

/// The bytes of two runs of frames, one after the other.
pub proof fn lemma_frames_bytes_concat(a: Seq<FrameView>, b: Seq<FrameView>)
    ensures
        frames_bytes(a + b) == frames_bytes(a) + frames_bytes(b),
{
    let f = |frame: FrameView| frame_bytes(frame);
    assert((a + b).map_values(f) =~= a.map_values(f) + b.map_values(f));
    vstd::seq_lib::lemma_flatten_concat(a.map_values(f), b.map_values(f));
}

/// Scanning a run of writable frames followed by other bytes gives the
/// frames, then whatever scanning the other bytes gives.
pub proof fn lemma_scan_after_frames(frames: Seq<FrameView>, rest: Seq<u8>)
    requires
        forall|i: int| 0 <= i < frames.len() ==> (#[trigger] frames[i]).wf(),
    ensures
        scan_frames(frames_bytes(frames) + rest) == (Scan {
            frames: frames + scan_frames(rest).frames,
            truncated: scan_frames(rest).truncated,
        }),
    decreases frames.len(),
{
    if frames.len() > 0 {
        let others = frames.skip(1);
        let after = frames_bytes(others) + rest;
        lemma_frames_bytes_first(frames);
        assert(frames_bytes(frames) + rest =~= frame_bytes(frames[0]) + after);
        lemma_frame_round_trip(frames[0], after);
        lemma_scan_after_frames(others, rest);
        assert(seq![frames[0]] + (others + scan_frames(rest).frames) =~= frames + scan_frames(
            rest,
        ).frames);
    }
}

/// A run of writable frames is scanned back as it was written, and the scan
/// ends cleanly.
pub proof fn lemma_frames_round_trip(frames: Seq<FrameView>)
    requires
        forall|i: int| 0 <= i < frames.len() ==> (#[trigger] frames[i]).wf(),
    ensures
        scan_frames(frames_bytes(frames)) == (Scan { frames: frames, truncated: false }),
{
    lemma_scan_after_frames(frames, Seq::empty());
}

} // verus!
