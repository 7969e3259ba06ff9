//! Password-based file encryption into a self-describing container whose
//! payload is authenticated with AES-256-GCM.
//!
//! The crate is a pure core over byte buffers: it derives keys, frames and
//! parses the container, chooses between the single-shot and the chunked
//! layouts, and dispatches chunks to a worker pool while keeping their order.
//! Reading and writing files is left to the caller, who either hands over a
//! whole file in memory or drives a stream batch by batch.
//!
//! Every function states what it returns in its contract, and the contracts
//! are proved. What is taken on trust is marked as such where it stands: the
//! digest, the cipher, the random generator and the worker pool.

/// Fixed-width integers as bytes.
pub mod bytes;
/// The chunks of a plaintext.
pub mod chunking;
/// Header and frames.
pub mod container;
/// Whole containers in memory.
pub mod engine;
/// Error kinds and status codes.
pub mod error;
/// The operations offered to a host.
pub mod facade;
/// What holds of encryption and decryption together.
pub mod laws;
/// Batches on the worker pool.
pub mod pipeline;
/// Key derivation, nonces and the cipher.
pub mod primitives;
/// Framed bodies as streams.
pub mod stream;
/// Device-class tuning and the choice of mode.
pub mod tuner;
