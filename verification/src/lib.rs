//! A verified block record: an indexed list of transaction texts with a
//! timestamp, a reference to the previous block's hash, a stored hash and a
//! nonce. The record serializes to a canonical JSON text — proved to encode
//! the field values injectively, with a verified parser that inverts it —
//! and hashes that text with SHA-256, rendered as 64 lowercase hex digits.

pub mod block;
pub mod clock;
pub mod codec;
pub mod hashing;
pub mod laws;
pub mod text;

pub use block::Block;
