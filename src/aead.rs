//! The outside primitives the library relies on: the XChaCha20-Poly1305 AEAD
//! of the `chacha20poly1305` crate and the operating system's random source.
use vstd::prelude::*;
use chacha20poly1305::aead::Aead;
use chacha20poly1305::KeyInit;
use rand::RngCore;
use chacha20poly1305::aead::Error as AeadError;
use std::io::Error as IoError;

use crate::nonce::{KEY_LEN, NONCE_LEN};

verus! {

/// Length of the authentication tag that sealing appends to a frame.
pub const TAG_LEN: usize = 16;

/// The longest plaintext one frame may hold: 64 * (2^32 - 2) bytes. The
/// ChaCha20 keystream of XChaCha20-Poly1305 starts at block 1 and offers
/// `u32::MAX - 1` blocks of 64 bytes; a longer payload makes the cipher panic.
pub const MAX_FRAME_PLAIN_LEN: u64 = 274877906816;

/// `chacha20poly1305::aead::Error`, the opaque failure of sealing or opening.
#[verifier::external_type_specification]
#[verifier::external_body]
pub struct ExAeadError(AeadError);

/// The sealed frame (ciphertext followed by its tag) that XChaCha20-Poly1305
/// produces for a key, a nonce and a plaintext, with no associated data.
pub uninterp spec fn sealed_frame(key: Seq<u8>, nonce: Seq<u8>, plain: Seq<u8>) -> Seq<u8>;

/// What XChaCha20-Poly1305 recovers from a sealed frame under a key and a
/// nonce: the plaintext, or nothing when authentication fails.
pub uninterp spec fn opened_frame(key: Seq<u8>, nonce: Seq<u8>, sealed: Seq<u8>) -> Option<Seq<u8>>;

/// Relies on `Aead::encrypt` of `XChaCha20Poly1305`: on a plaintext of at
/// most `MAX_FRAME_PLAIN_LEN` bytes it succeeds, appends a 16-byte tag, and
/// what it seals is opened back by `Aead::decrypt` under the same key and
/// nonce.
#[verifier::external_body]
pub(crate) fn seal_frame(key: &Vec<u8>, nonce: &Vec<u8>, plain: &Vec<u8>) -> (r: Result<
    Vec<u8>,
    AeadError,
>)
    requires
        key@.len() == KEY_LEN,
        nonce@.len() == NONCE_LEN,
        plain@.len() <= MAX_FRAME_PLAIN_LEN,
    ensures
        r is Ok,
        r is Ok ==> r->Ok_0@ == sealed_frame(key@, nonce@, plain@),
        r is Ok ==> r->Ok_0@.len() == plain@.len() + TAG_LEN,
        r is Ok ==> opened_frame(key@, nonce@, r->Ok_0@) == Some(plain@),
{
    let cipher = chacha20poly1305::XChaCha20Poly1305::new(
        chacha20poly1305::Key::from_slice(key.as_slice()),
    );
    cipher.encrypt(chacha20poly1305::XNonce::from_slice(nonce.as_slice()), plain.as_slice())
}

/// Relies on `Aead::decrypt` of `XChaCha20Poly1305`: on input of at most
/// `MAX_FRAME_PLAIN_LEN` bytes plus a tag, it fails on input shorter than the
/// 16-byte tag and on failed authentication, and otherwise returns the
/// plaintext, one tag shorter than its input.
#[verifier::external_body]
pub(crate) fn open_frame(key: &Vec<u8>, nonce: &Vec<u8>, sealed: &Vec<u8>) -> (r: Result<
    Vec<u8>,
    AeadError,
>)
    requires
        key@.len() == KEY_LEN,
        nonce@.len() == NONCE_LEN,
        sealed@.len() <= MAX_FRAME_PLAIN_LEN + TAG_LEN,
    ensures
        r is Ok <==> opened_frame(key@, nonce@, sealed@) is Some,
        r is Ok ==> Some(r->Ok_0@) == opened_frame(key@, nonce@, sealed@),
        r is Ok ==> r->Ok_0@.len() + TAG_LEN == sealed@.len(),
        sealed@.len() < TAG_LEN ==> r is Err,
{
    let cipher = chacha20poly1305::XChaCha20Poly1305::new(
        chacha20poly1305::Key::from_slice(key.as_slice()),
    );
    cipher.decrypt(chacha20poly1305::XNonce::from_slice(nonce.as_slice()), sealed.as_slice())
}

/// Relies on `OsRng::try_fill_bytes` of `rand`: `len` bytes from the
/// operating system's secure random source, or its failure as an I/O error.
#[verifier::external_body]
pub(crate) fn random_bytes(len: usize) -> (r: Result<Vec<u8>, IoError>)
    ensures
        r is Ok ==> r->Ok_0@.len() == len,
{
    let mut bytes = vec![0u8; len];
    rand::rngs::OsRng.try_fill_bytes(&mut bytes).map_err(std::io::Error::from)?;
    Ok(bytes)
}

} // verus!
