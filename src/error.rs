//! The failures of the library.
use vstd::prelude::*;
use std::io::Error as IoError;
use chacha20poly1305::aead::Error as AeadError;

verus! {

/// `std::io::Error`, carried through from the storage layer and the OS random source.
#[verifier::external_type_specification]
#[verifier::external_body]
pub struct ExIoError(IoError);

/// Why an operation failed.
#[derive(Debug)]
pub enum Error {
    /// Sealing or opening a frame failed: a tampered or truncated stream, a
    /// wrong key or nonce, or a stream with more frames than the counter allows.
    EncryptionError,
    /// Reading or writing the underlying storage failed.
    IOError(IoError),
    /// A persisted secret does not have the length it must have.
    InvalidSize { expected: usize, actual: usize },
}

/// The AEAD's failure carries no information (a unit value), so it becomes
/// the payload-free encryption error.
impl From<AeadError> for Error {
    fn from(err: AeadError) -> (r: Error)
        ensures
            r == Error::EncryptionError,
    {
        Error::EncryptionError
    }
}

impl vstd::std_specs::convert::FromSpecImpl<AeadError> for Error {
    open spec fn obeys_from_spec() -> bool {
        true
    }

    open spec fn from_spec(err: AeadError) -> Error {
        Error::EncryptionError
    }
}

impl From<IoError> for Error {
    fn from(err: IoError) -> (r: Error)
        ensures
            r == Error::IOError(err),
    {
        Error::IOError(err)
    }
}

impl vstd::std_specs::convert::FromSpecImpl<IoError> for Error {
    open spec fn obeys_from_spec() -> bool {
        true
    }

    open spec fn from_spec(err: IoError) -> Error {
        Error::IOError(err)
    }
}

} // verus!
