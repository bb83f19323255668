//! Chunked authenticated encryption of byte streams with XChaCha20-Poly1305.
//!
//! A stream is cut into chunks of a fixed size; every chunk becomes one sealed
//! frame whose nonce is derived from a base nonce, the frame's position and a
//! flag marking the terminal frame.

pub mod error;
pub mod nonce;
pub mod aead;
pub mod keys;
pub mod stream;
pub mod engine;
