//! The key material store: a 32-byte key and a 24-byte base nonce, each
//! loaded verbatim from storage or freshly generated when storage has none.
//!
//! Reading and writing the storage is left to the caller, who hands over what
//! was found (`None` when nothing is stored) and persists what was generated.
use vstd::prelude::*;

use crate::aead::random_bytes;
use crate::error::Error;
use crate::nonce::{KEY_LEN, NONCE_LEN};

verus! {

/// A secret as loaded: the bytes, and whether they were generated now (and
/// must therefore be persisted by the caller).
pub struct LoadedSecret {
    pub bytes: Vec<u8>,
    pub generated: bool,
}

/// A stored secret is refused when its length is not the expected one.
pub open spec fn secret_rejected(stored: Option<Seq<u8>>, size: nat) -> bool {
    stored is Some && stored->Some_0.len() != size
}

/// The outcomes a successful load may have: stored bytes of the right length
/// are used verbatim; with nothing stored, fresh bytes of that length.
pub open spec fn secret_loads_to(stored: Option<Seq<u8>>, size: nat, bytes: Seq<u8>, generated: bool) -> bool {
    match stored {
        Some(b) => b.len() == size && bytes == b && !generated,
        None => bytes.len() == size && generated,
    }
}

/// The bytes held by an optional stored blob.
pub open spec fn stored_view(stored: Option<Vec<u8>>) -> Option<Seq<u8>> {
    match stored {
        Some(v) => Some(v@),
        None => None,
    }
}

/// How loading a key and a base nonce may fail: a stored secret of the wrong
/// length gives `InvalidSize` with the expected and the actual length (the
/// key is checked first); when both stored secrets are acceptable, only the
/// random source can fail, as an I/O error.
pub open spec fn material_failures<T>(stored_key: Option<Seq<u8>>, stored_nonce: Option<Seq<u8>>, r: Result<T, Error>) -> bool {
    let key_bad = secret_rejected(stored_key, KEY_LEN as nat);
    let nonce_bad = secret_rejected(stored_nonce, NONCE_LEN as nat);
    let nonce_error = Err::<T, Error>(
        Error::InvalidSize { expected: NONCE_LEN, actual: stored_nonce->Some_0.len() as usize },
    );
    &&& key_bad ==> r == Err::<T, Error>(
        Error::InvalidSize { expected: KEY_LEN, actual: stored_key->Some_0.len() as usize },
    )
    &&& stored_key is Some && !key_bad && nonce_bad ==> r == nonce_error
    &&& stored_key is None && nonce_bad ==> ((r matches Err(Error::IOError(_))) || r == nonce_error)
    &&& !key_bad && !nonce_bad && r is Err ==> (r matches Err(Error::IOError(_)))
    &&& stored_key is Some && stored_nonce is Some ==> (r is Ok <==> !key_bad && !nonce_bad)
}

/// Loads one secret of `size` bytes from what storage holds, or generates it.
pub fn load_secret(stored: Option<Vec<u8>>, size: usize) -> (r: Result<LoadedSecret, Error>)
    ensures
        r is Ok ==> secret_loads_to(stored_view(stored), size as nat, r->Ok_0.bytes@, r->Ok_0.generated),
        stored is Some ==> (r is Ok <==> !secret_rejected(stored_view(stored), size as nat)),
        secret_rejected(stored_view(stored), size as nat) ==> r == Err::<LoadedSecret, Error>(
            Error::InvalidSize { expected: size, actual: stored->Some_0@.len() as usize },
        ),
        stored is None ==> (r is Ok || r matches Err(Error::IOError(_))),
{
    match stored {
        Some(bytes) => {
            if bytes.len() != size {
                Err(Error::InvalidSize { expected: size, actual: bytes.len() })
            } else {
                Ok(LoadedSecret { bytes, generated: false })
            }
        },
        None => match random_bytes(size) {
            Ok(bytes) => Ok(LoadedSecret { bytes, generated: true }),
            Err(e) => Err(Error::IOError(e)),
        },
    }
}

/// Loading a second time from storage that holds what the first load
/// returned (and persisted, when generated) gives back the same bytes,
/// unchanged and not regenerated.
pub proof fn lemma_reload_is_stable(stored: Option<Seq<u8>>, size: nat, bytes: Seq<u8>, generated: bool)
    requires
        secret_loads_to(stored, size, bytes, generated),
    ensures
        !secret_rejected(Some(bytes), size),
        forall|again: Seq<u8>, regenerated: bool|
            secret_loads_to(Some(bytes), size, again, regenerated) ==> again == bytes && !regenerated,
{
}

/// Loading key material a second time from storage that holds what the first
/// load returned (each generated secret persisted) gives back the same key
/// and base nonce, neither regenerated, and fails on neither.
pub proof fn lemma_material_reload_is_stable(
    stored_key: Option<Seq<u8>>,
    stored_nonce: Option<Seq<u8>>,
    key: Seq<u8>,
    nonce: Seq<u8>,
    key_generated: bool,
    nonce_generated: bool,
)
    requires
        secret_loads_to(stored_key, KEY_LEN as nat, key, key_generated),
        secret_loads_to(stored_nonce, NONCE_LEN as nat, nonce, nonce_generated),
    ensures
        !secret_rejected(Some(key), KEY_LEN as nat),
        !secret_rejected(Some(nonce), NONCE_LEN as nat),
        forall|key2: Seq<u8>, nonce2: Seq<u8>, kg: bool, ng: bool|
            secret_loads_to(Some(key), KEY_LEN as nat, key2, kg) && secret_loads_to(Some(nonce), NONCE_LEN as nat, nonce2, ng)
                ==> key2 == key && nonce2 == nonce && !kg && !ng,
{
    lemma_reload_is_stable(stored_key, KEY_LEN as nat, key, key_generated);
    lemma_reload_is_stable(stored_nonce, NONCE_LEN as nat, nonce, nonce_generated);
}

/// A key and a base nonce of the lengths the cipher needs.
pub struct KeyMaterial {
    key: Vec<u8>,
    nonce: Vec<u8>,
}

impl KeyMaterial {
    /// The key bytes.
    pub closed spec fn key(&self) -> Seq<u8> {
        self.key@
    }

    /// The base nonce bytes.
    pub closed spec fn nonce(&self) -> Seq<u8> {
        self.nonce@
    }

    /// Both parts have their exact lengths.
    pub open spec fn wf(&self) -> bool {
        self.key().len() == KEY_LEN && self.nonce().len() == NONCE_LEN
    }

    /// Builds key material from a key and a base nonce, refusing either when
    /// its length is wrong (the key is checked first).
    pub fn from_parts(key: Vec<u8>, nonce: Vec<u8>) -> (r: Result<KeyMaterial, Error>)
        ensures
            r is Ok <==> key@.len() == KEY_LEN && nonce@.len() == NONCE_LEN,
            r is Ok ==> r->Ok_0.wf() && r->Ok_0.key() == key@ && r->Ok_0.nonce() == nonce@,
            key@.len() != KEY_LEN ==> r == Err::<KeyMaterial, Error>(
                Error::InvalidSize { expected: KEY_LEN, actual: key@.len() as usize },
            ),
            key@.len() == KEY_LEN && nonce@.len() != NONCE_LEN ==> r == Err::<KeyMaterial, Error>(
                Error::InvalidSize { expected: NONCE_LEN, actual: nonce@.len() as usize },
            ),
    {
        if key.len() != KEY_LEN {
            return Err(Error::InvalidSize { expected: KEY_LEN, actual: key.len() });
        }
        if nonce.len() != NONCE_LEN {
            return Err(Error::InvalidSize { expected: NONCE_LEN, actual: nonce.len() });
        }
        Ok(KeyMaterial { key, nonce })
    }

    /// Resolves the key and the base nonce from what storage holds for each:
    /// a stored secret is used verbatim, a missing one is generated. The key
    /// is resolved first; the caller persists each secret marked generated,
    /// each at its own location.
    pub fn load_or_create(stored_key: Option<Vec<u8>>, stored_nonce: Option<Vec<u8>>) -> (r: Result<
        (KeyMaterial, bool, bool),
        Error,
    >)
        ensures
            r is Ok ==> r->Ok_0.0.wf(),
            r is Ok ==> secret_loads_to(stored_view(stored_key), KEY_LEN as nat, r->Ok_0.0.key(), r->Ok_0.1),
            r is Ok ==> secret_loads_to(stored_view(stored_nonce), NONCE_LEN as nat, r->Ok_0.0.nonce(), r->Ok_0.2),
            material_failures(stored_view(stored_key), stored_view(stored_nonce), r),
    {
        let key = match load_secret(stored_key, KEY_LEN) {
            Ok(k) => k,
            Err(e) => return Err(e),
        };
        let nonce = match load_secret(stored_nonce, NONCE_LEN) {
            Ok(n) => n,
            Err(e) => return Err(e),
        };
        let key_generated = key.generated;
        let nonce_generated = nonce.generated;
        let material = KeyMaterial { key: key.bytes, nonce: nonce.bytes };
        Ok((material, key_generated, nonce_generated))
    }

    /// Fresh key material from the operating system's random source.
    pub fn generate() -> (r: Result<KeyMaterial, Error>)
        ensures
            r is Ok ==> r->Ok_0.wf(),
            r is Err ==> r matches Err(Error::IOError(_)),
    {
        match KeyMaterial::load_or_create(None, None) {
            Ok((material, _, _)) => Ok(material),
            Err(e) => Err(e),
        }
    }

    /// The key bytes.
    pub fn key_bytes(&self) -> (r: &Vec<u8>)
        ensures
            r@ == self.key(),
    {
        &self.key
    }

    /// The base nonce bytes.
    pub fn nonce_bytes(&self) -> (r: &Vec<u8>)
        ensures
            r@ == self.nonce(),
    {
        &self.nonce
    }

    /// Gives up the key and the base nonce.
    pub fn into_parts(self) -> (r: (Vec<u8>, Vec<u8>))
        ensures
            r.0@ == self.key(),
            r.1@ == self.nonce(),
    {
        (self.key, self.nonce)
    }
}

} // verus!
